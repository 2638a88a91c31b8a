//! Type environment: a scoped symbol table mapping names to physical types.
//!
//! Variables and parameters live in a stack of scopes (innermost last);
//! type aliases are global; function return dimensions are kept in the
//! outermost scope under the key `fn::<name>`.
use vstd::prelude::*;
use crate::text::{chars_of, chars_eq, push_str};
use crate::types::dim::{DimVector, PhysicalType, PhysicalTypeView};

verus! {

/// A scoped symbol table for physical type bindings.
#[derive(Debug)]
pub struct TypeEnv {
    /// Stack of scopes: last = innermost (current block).
    scopes: Vec<Vec<(String, PhysicalType)>>,
    /// Global type aliases (e.g. `type Velocity = m/s`).
    aliases: Vec<(String, DimVector)>,
}

/// Mathematical model of a [`TypeEnv`]: each scope and the alias table are
/// lists of bindings in which a later binding of a name hides an earlier one.
pub struct TypeEnvView {
    pub scopes: Seq<Seq<(Seq<char>, PhysicalTypeView)>>,
    pub aliases: Seq<(Seq<char>, DimVector)>,
}

/// Model of one scope.
pub open spec fn scope_view(s: Seq<(String, PhysicalType)>) -> Seq<(Seq<char>, PhysicalTypeView)> {
    s.map_values(|p: (String, PhysicalType)| (p.0@, p.1@))
}

/// Model of the alias table.
pub open spec fn alias_view(s: Seq<(String, DimVector)>) -> Seq<(Seq<char>, DimVector)> {
    s.map_values(|p: (String, DimVector)| (p.0@, p.1))
}

impl View for TypeEnv {
    type V = TypeEnvView;

    closed spec fn view(&self) -> TypeEnvView {
        TypeEnvView {
            scopes: self.scopes@.map_values(|s: Vec<(String, PhysicalType)>| scope_view(s@)),
            aliases: alias_view(self.aliases@),
        }
    }
}

/// The binding of `k` in one scope: the last entry with that name.
pub open spec fn scope_get(s: Seq<(Seq<char>, PhysicalTypeView)>, k: Seq<char>) -> Option<PhysicalTypeView>
    decreases s.len(),
{
    if s.len() == 0 {
        None
    } else if s.last().0 == k {
        Some(s.last().1)
    } else {
        scope_get(s.drop_last(), k)
    }
}

/// The binding of `k` in a scope stack, searching from the innermost scope.
pub open spec fn scopes_get(ss: Seq<Seq<(Seq<char>, PhysicalTypeView)>>, k: Seq<char>) -> Option<PhysicalTypeView>
    decreases ss.len(),
{
    if ss.len() == 0 {
        None
    } else {
        match scope_get(ss.last(), k) {
            Some(p) => Some(p),
            None => scopes_get(ss.drop_last(), k),
        }
    }
}

/// The alias bound to `k`: the last entry with that name.
pub open spec fn alias_get(s: Seq<(Seq<char>, DimVector)>, k: Seq<char>) -> Option<DimVector>
    decreases s.len(),
{
    if s.len() == 0 {
        None
    } else if s.last().0 == k {
        Some(s.last().1)
    } else {
        alias_get(s.drop_last(), k)
    }
}

/// What `lookup` returns: the innermost variable binding, else the alias as a scalar.
pub open spec fn env_lookup(v: TypeEnvView, k: Seq<char>) -> Option<PhysicalTypeView> {
    match scopes_get(v.scopes, k) {
        Some(p) => Some(p),
        None => match alias_get(v.aliases, k) {
            Some(d) => Some(PhysicalTypeView { dim: d, shape: None, struct_name: None }),
            None => None,
        },
    }
}

/// The key under which a function's return dimension is stored.
pub open spec fn fn_key(name: Seq<char>) -> Seq<char> {
    seq!['f', 'n', ':', ':'] + name
}

/// What `lookup_fn` returns: the dimension bound to `fn::<name>` in the outermost scope.
pub open spec fn env_lookup_fn(v: TypeEnvView, name: Seq<char>) -> Option<DimVector> {
    if v.scopes.len() == 0 {
        None
    } else {
        match scope_get(v.scopes[0], fn_key(name)) {
            Some(p) => Some(p.dim),
            None => None,
        }
    }
}

/// The alias table of a fresh environment.
pub open spec fn builtin_aliases() -> Seq<(Seq<char>, DimVector)> {
    seq![
        ("Newton"@, DimVector::NEWTON()), ("N"@, DimVector::NEWTON()),
        ("Joule"@, DimVector::JOULE()), ("J"@, DimVector::JOULE()),
        ("Pascal"@, DimVector::PASCAL()), ("Pa"@, DimVector::PASCAL()),
        ("Watt"@, DimVector::WATT()), ("W"@, DimVector::WATT()),
        ("Hertz"@, DimVector::HERTZ()), ("Hz"@, DimVector::HERTZ()),
        ("Velocity"@, DimVector::VELOCITY()), ("Acceleration"@, DimVector::ACCELERATION()),
    ]
}

/// Index of the last entry of `s` whose name is `k`.
fn find_binding(s: &Vec<(String, PhysicalType)>, k: &Vec<char>) -> (r: Option<usize>)
    ensures
        match r {
            Some(i) => i < s@.len() && scope_get(scope_view(s@), k@) == Some(s@[i as int].1@),
            None => scope_get(scope_view(s@), k@) is None,
        },
{
    let mut j = s.len();
    proof {
        assert(s@.subrange(0, s@.len() as int) =~= s@);
    }
    while j > 0
        invariant
            j <= s@.len(),
            scope_get(scope_view(s@), k@) == scope_get(scope_view(s@.subrange(0, j as int)), k@),
        decreases j,
    {
        let ghost sub = scope_view(s@.subrange(0, j as int));
        proof {
            assert(sub.last() == (s@[j - 1].0@, s@[j - 1].1@));
            assert(sub.drop_last() =~= scope_view(s@.subrange(0, j - 1)));
        }
        let name_chars = chars_of(s[j - 1].0.as_str());
        if chars_eq(name_chars.as_slice(), k.as_slice()) {
            return Some(j - 1);
        }
        j = j - 1;
    }
    proof {
        assert(scope_view(s@.subrange(0, 0)) =~= Seq::empty());
    }
    None
}

/// Index of the last alias entry named `k`.
fn find_alias(s: &Vec<(String, DimVector)>, k: &Vec<char>) -> (r: Option<usize>)
    ensures
        match r {
            Some(i) => i < s@.len() && alias_get(alias_view(s@), k@) == Some(s@[i as int].1),
            None => alias_get(alias_view(s@), k@) is None,
        },
{
    let mut j = s.len();
    proof {
        assert(s@.subrange(0, s@.len() as int) =~= s@);
    }
    while j > 0
        invariant
            j <= s@.len(),
            alias_get(alias_view(s@), k@) == alias_get(alias_view(s@.subrange(0, j as int)), k@),
        decreases j,
    {
        let ghost sub = alias_view(s@.subrange(0, j as int));
        proof {
            assert(sub.last() == (s@[j - 1].0@, s@[j - 1].1));
            assert(sub.drop_last() =~= alias_view(s@.subrange(0, j - 1)));
        }
        let name_chars = chars_of(s[j - 1].0.as_str());
        if chars_eq(name_chars.as_slice(), k.as_slice()) {
            return Some(j - 1);
        }
        j = j - 1;
    }
    proof {
        assert(alias_view(s@.subrange(0, 0)) =~= Seq::empty());
    }
    None
}

impl TypeEnv {
    /// A fresh environment: one empty scope and the built-in unit aliases
    /// (Newton, Joule, Pascal, Watt, Hertz with their symbols, Velocity, Acceleration).
    pub fn new() -> (env: Self)
        ensures
            env@.scopes == seq![Seq::<(Seq<char>, PhysicalTypeView)>::empty()],
            env@.aliases == builtin_aliases(),
    {
        let mut scopes: Vec<Vec<(String, PhysicalType)>> = Vec::new();
        scopes.push(Vec::new());
        let mut env = TypeEnv { scopes, aliases: Vec::new() };
        proof {
            assert(env.scopes@.len() == 1);
            assert(env.scopes@[0]@ =~= Seq::<(String, PhysicalType)>::empty());
            assert(scope_view(env.scopes@[0]@) =~= Seq::empty());
            assert(env@.scopes =~= seq![Seq::<(Seq<char>, PhysicalTypeView)>::empty()]);
            assert(env@.aliases =~= Seq::empty());
        }
        env.register_alias("Newton", DimVector::NEWTON());
        env.register_alias("N", DimVector::NEWTON());
        env.register_alias("Joule", DimVector::JOULE());
        env.register_alias("J", DimVector::JOULE());
        env.register_alias("Pascal", DimVector::PASCAL());
        env.register_alias("Pa", DimVector::PASCAL());
        env.register_alias("Watt", DimVector::WATT());
        env.register_alias("W", DimVector::WATT());
        env.register_alias("Hertz", DimVector::HERTZ());
        env.register_alias("Hz", DimVector::HERTZ());
        env.register_alias("Velocity", DimVector::VELOCITY());
        env.register_alias("Acceleration", DimVector::ACCELERATION());
        proof {
            assert(env@.scopes =~= seq![Seq::<(Seq<char>, PhysicalTypeView)>::empty()]);
            assert(env@.aliases =~= builtin_aliases());
        }
        env
    }

    /// Open a new innermost scope.
    pub fn push_scope(&mut self)
        ensures
            final(self)@.scopes == old(self)@.scopes.push(Seq::empty()),
            final(self)@.aliases == old(self)@.aliases,
    {
        let v: Vec<(String, PhysicalType)> = Vec::new();
        proof {
            assert(scope_view(v@) =~= Seq::empty());
        }
        self.scopes.push(v);
        proof {
            assert(self@.scopes =~= old(self)@.scopes.push(Seq::empty()));
        }
    }

    /// Close the innermost scope; the global scope is never closed.
    pub fn pop_scope(&mut self)
        requires
            old(self)@.scopes.len() > 1,
        ensures
            final(self)@.scopes == old(self)@.scopes.drop_last(),
            final(self)@.aliases == old(self)@.aliases,
    {
        proof {
            assert(self.scopes@.len() == self@.scopes.len());
        }
        self.scopes.pop();
        proof {
            assert(self@.scopes =~= old(self)@.scopes.drop_last());
        }
    }

    /// Number of open scopes.
    pub fn depth(&self) -> (n: usize)
        ensures
            n == self@.scopes.len(),
    {
        self.scopes.len()
    }

    /// Bind `name` to `pt` in the innermost scope.
    pub fn define(&mut self, name: &str, pt: PhysicalType)
        ensures
            old(self)@.scopes.len() > 0 ==> final(self)@.scopes == old(self)@.scopes.update(
                old(self)@.scopes.len() - 1,
                old(self)@.scopes.last().push((name@, pt@)),
            ),
            old(self)@.scopes.len() == 0 ==> final(self)@.scopes == old(self)@.scopes,
            final(self)@.aliases == old(self)@.aliases,
    {
        let n = self.scopes.len();
        if n > 0 {
            let mut key = String::new();
            push_str(&mut key, name);
            let ghost old_scope = self.scopes@[n - 1]@;
            let ghost entry = (key@, pt@);
            self.scopes[n - 1].push((key, pt));
            proof {
                assert(scope_view(self.scopes@[n - 1]@) =~= scope_view(old_scope).push(entry));
                assert(self@.scopes =~= old(self)@.scopes.update(
                    old(self)@.scopes.len() - 1,
                    old(self)@.scopes.last().push((name@, pt@)),
                ));
            }
        }
    }

    /// The type of `name`: the innermost variable binding, else the alias of
    /// that name as a scalar.
    pub fn lookup(&self, name: &str) -> (r: Option<PhysicalType>)
        ensures
            match r {
                Some(p) => env_lookup(self@, name@) == Some(p@),
                None => env_lookup(self@, name@) is None,
            },
    {
        let k = chars_of(name);
        let mut i = self.scopes.len();
        proof {
            assert(self@.scopes.subrange(0, self@.scopes.len() as int) =~= self@.scopes);
        }
        while i > 0
            invariant
                i <= self.scopes@.len(),
                k@ == name@,
                scopes_get(self@.scopes, name@) == scopes_get(self@.scopes.subrange(0, i as int), name@),
            decreases i,
        {
            let ghost sub = self@.scopes.subrange(0, i as int);
            proof {
                assert(sub.last() == scope_view(self.scopes@[i - 1]@));
                assert(sub.drop_last() =~= self@.scopes.subrange(0, i - 1));
            }
            match find_binding(&self.scopes[i - 1], &k) {
                Some(j) => {
                    return Some(self.scopes[i - 1][j].1.copy());
                },
                None => {},
            }
            i = i - 1;
        }
        proof {
            assert(self@.scopes.subrange(0, 0) =~= Seq::empty());
        }
        match find_alias(&self.aliases, &k) {
            Some(j) => Some(PhysicalType::scalar(self.aliases[j].1)),
            None => None,
        }
    }

    /// Bind the alias `name` to `dim`.
    pub fn register_alias(&mut self, name: &str, dim: DimVector)
        ensures
            final(self)@.aliases == old(self)@.aliases.push((name@, dim)),
            final(self)@.scopes == old(self)@.scopes,
    {
        let mut key = String::new();
        push_str(&mut key, name);
        self.aliases.push((key, dim));
        proof {
            assert(self@.aliases =~= old(self)@.aliases.push((name@, dim)));
            assert(self@.scopes =~= old(self)@.scopes);
        }
    }

    /// The dimension of alias `name`.
    pub fn lookup_alias(&self, name: &str) -> (r: Option<DimVector>)
        ensures
            r == alias_get(self@.aliases, name@),
    {
        let k = chars_of(name);
        match find_alias(&self.aliases, &k) {
            Some(j) => Some(self.aliases[j].1),
            None => None,
        }
    }

    /// Record that function `name` returns a value of dimension `return_dim`.
    pub fn register_fn(&mut self, name: &str, return_dim: DimVector)
        ensures
            old(self)@.scopes.len() > 0 ==> final(self)@.scopes == old(self)@.scopes.update(
                0,
                old(self)@.scopes[0].push((fn_key(name@), PhysicalTypeView { dim: return_dim, shape: None, struct_name: None })),
            ),
            old(self)@.scopes.len() == 0 ==> final(self)@.scopes == old(self)@.scopes,
            final(self)@.aliases == old(self)@.aliases,
    {
        if self.scopes.len() > 0 {
            let mut key = String::new();
            push_str(&mut key, "fn::");
            push_str(&mut key, name);
            proof {
                reveal_strlit("fn::");
                assert(key@ =~= fn_key(name@));
            }
            let pt = PhysicalType::scalar(return_dim);
            let ghost old_scope = self.scopes@[0]@;
            let ghost entry = (key@, pt@);
            self.scopes[0].push((key, pt));
            proof {
                assert(scope_view(self.scopes@[0]@) =~= scope_view(old_scope).push(entry));
                assert(self@.scopes =~= old(self)@.scopes.update(
                    0,
                    old(self)@.scopes[0].push((fn_key(name@), PhysicalTypeView { dim: return_dim, shape: None, struct_name: None })),
                ));
            }
        }
    }

    /// The return dimension recorded for function `name`.
    pub fn lookup_fn(&self, name: &str) -> (r: Option<DimVector>)
        ensures
            r == env_lookup_fn(self@, name@),
    {
        if self.scopes.len() == 0 {
            return None;
        }
        let mut key = String::new();
        push_str(&mut key, "fn::");
        push_str(&mut key, name);
        proof {
            reveal_strlit("fn::");
            assert(key@ =~= fn_key(name@));
        }
        let k = chars_of(key.as_str());
        match find_binding(&self.scopes[0], &k) {
            Some(j) => Some(self.scopes[0][j].1.dim),
            None => None,
        }
    }
}


/// The environment after `define(n, p)` in the innermost scope.
pub open spec fn defined(v: TypeEnvView, n: Seq<char>, p: PhysicalTypeView) -> TypeEnvView {
    TypeEnvView { scopes: v.scopes.update(v.scopes.len() - 1, v.scopes.last().push((n, p))), aliases: v.aliases }
}

/// After binding `n` to `p`, looking `n` up gives `p` (the newest binding
/// hides older ones, in this scope, in outer scopes and among aliases).
pub proof fn lemma_define_then_lookup(v: TypeEnvView, n: Seq<char>, p: PhysicalTypeView)
    requires
        v.scopes.len() > 0,
    ensures
        env_lookup(defined(v, n, p), n) == Some(p),
{
    let w = defined(v, n, p);
    assert(w.scopes.last() == v.scopes.last().push((n, p)));
    assert(w.scopes.last().drop_last() =~= v.scopes.last());
}

/// Binding `n` leaves the lookup of every other name unchanged.
pub proof fn lemma_define_keeps_others(v: TypeEnvView, n: Seq<char>, p: PhysicalTypeView, m: Seq<char>)
    requires
        v.scopes.len() > 0,
        m != n,
    ensures
        env_lookup(defined(v, n, p), m) == env_lookup(v, m),
{
    let w = defined(v, n, p);
    assert(w.scopes.last().drop_last() =~= v.scopes.last());
    assert(w.scopes.drop_last() =~= v.scopes.drop_last());
}

/// A binding made in a scope that is then closed is forgotten: opening a
/// scope, binding a name and closing the scope restores the environment.
pub proof fn lemma_scope_binding_forgotten(v: TypeEnvView, n: Seq<char>, p: PhysicalTypeView)
    ensures
        ({
            let opened = TypeEnvView { scopes: v.scopes.push(Seq::empty()), aliases: v.aliases };
            let bound = defined(opened, n, p);
            TypeEnvView { scopes: bound.scopes.drop_last(), aliases: bound.aliases } == v
        }),
{
    let opened = TypeEnvView { scopes: v.scopes.push(Seq::empty()), aliases: v.aliases };
    let bound = defined(opened, n, p);
    assert(bound.scopes.drop_last() =~= v.scopes);
}

/// After registering alias `n`, looking up the alias `n` gives its dimension.
pub proof fn lemma_alias_then_lookup(v: TypeEnvView, n: Seq<char>, d: DimVector)
    ensures
        alias_get(v.aliases.push((n, d)), n) == Some(d),
{
}

/// After registering function `n`, looking up the function `n` gives its
/// return dimension.
pub proof fn lemma_register_fn_then_lookup(v: TypeEnvView, n: Seq<char>, d: DimVector)
    requires
        v.scopes.len() > 0,
    ensures
        env_lookup_fn(
            TypeEnvView {
                scopes: v.scopes.update(0, v.scopes[0].push((fn_key(n), PhysicalTypeView { dim: d, shape: None, struct_name: None }))),
                aliases: v.aliases,
            },
            n,
        ) == Some(d),
{
}

/// One change of a type environment: a `define`, a `push_scope` or a
/// `pop_scope`.
pub enum EnvOp {
    Define(Seq<char>, PhysicalTypeView),
    Push,
    Pop,
}

/// The environment after one change (a `define` on an environment without
/// scopes changes nothing).
pub open spec fn apply_op(v: TypeEnvView, op: EnvOp) -> TypeEnvView {
    match op {
        EnvOp::Define(n, p) => if v.scopes.len() > 0 { defined(v, n, p) } else { v },
        EnvOp::Push => TypeEnvView { scopes: v.scopes.push(Seq::empty()), aliases: v.aliases },
        EnvOp::Pop => TypeEnvView { scopes: v.scopes.drop_last(), aliases: v.aliases },
    }
}

/// The environment after the changes `ops`, in order.
pub open spec fn apply_ops(v: TypeEnvView, ops: Seq<EnvOp>) -> TypeEnvView
    decreases ops.len(),
{
    if ops.len() == 0 { v } else { apply_op(apply_ops(v, ops.drop_last()), ops.last()) }
}

/// Scopes opened minus scopes closed by `ops`.
pub open spec fn net_scopes(ops: Seq<EnvOp>) -> int
    decreases ops.len(),
{
    if ops.len() == 0 {
        0
    } else {
        net_scopes(ops.drop_last()) + match ops.last() {
            EnvOp::Push => 1int,
            EnvOp::Pop => -1int,
            EnvOp::Define(_, _) => 0int,
        }
    }
}

/// Whether `ops` never closes more scopes than it has opened.
pub open spec fn never_below(ops: Seq<EnvOp>) -> bool {
    forall|j: int| 0 <= j <= ops.len() ==> net_scopes(#[trigger] ops.subrange(0, j)) >= 0
}

proof fn lemma_ops_keep_outer(w: TypeEnvView, ops: Seq<EnvOp>, m: int)
    requires
        0 <= m,
        w.scopes.len() == m + 1,
        never_below(ops),
    ensures
        apply_ops(w, ops).scopes.len() == m + 1 + net_scopes(ops),
        apply_ops(w, ops).scopes.subrange(0, m) == w.scopes.subrange(0, m),
        apply_ops(w, ops).aliases == w.aliases,
    decreases ops.len(),
{
    if ops.len() > 0 {
        let pre = ops.drop_last();
        assert forall|j: int| 0 <= j <= pre.len() implies net_scopes(#[trigger] pre.subrange(0, j)) >= 0 by {
            assert(pre.subrange(0, j) =~= ops.subrange(0, j));
        }
        lemma_ops_keep_outer(w, pre, m);
        assert(ops.subrange(0, ops.len() as int) =~= ops);
        assert(ops.subrange(0, pre.len() as int) =~= pre);
        let u = apply_ops(w, pre);
        let r = apply_ops(w, ops);
        assert(r == apply_op(u, ops.last()));
        match ops.last() {
            EnvOp::Define(n, p) => {
                assert(r.scopes.subrange(0, m) =~= u.scopes.subrange(0, m));
            },
            EnvOp::Push => {
                assert(r.scopes.subrange(0, m) =~= u.scopes.subrange(0, m));
            },
            EnvOp::Pop => {
                assert(r.scopes.subrange(0, m) =~= u.scopes.subrange(0, m));
            },
        }
    }
}

/// Opening a scope, making any bindings and balanced scope changes, and
/// closing the scope again restores the environment, so every variable,
/// function and alias lookup gives what it gave before.
pub proof fn lemma_pop_restores(v: TypeEnvView, ops: Seq<EnvOp>)
    requires
        never_below(ops),
        net_scopes(ops) == 0,
    ensures
        apply_op(apply_ops(apply_op(v, EnvOp::Push), ops), EnvOp::Pop) == v,
        forall|n: Seq<char>| env_lookup(apply_op(apply_ops(apply_op(v, EnvOp::Push), ops), EnvOp::Pop), n) == env_lookup(v, n),
        forall|n: Seq<char>| env_lookup_fn(apply_op(apply_ops(apply_op(v, EnvOp::Push), ops), EnvOp::Pop), n) == env_lookup_fn(v, n),
{
    let w = apply_op(v, EnvOp::Push);
    lemma_ops_keep_outer(w, ops, v.scopes.len() as int);
    let u = apply_ops(w, ops);
    assert(w.scopes.subrange(0, v.scopes.len() as int) =~= v.scopes);
    assert(u.scopes.drop_last() =~= u.scopes.subrange(0, v.scopes.len() as int));
    assert(apply_op(u, EnvOp::Pop).scopes =~= v.scopes);
}

/// The environment after `register_fn(n, d)`.
pub open spec fn fn_registered_env(v: TypeEnvView, n: Seq<char>, d: DimVector) -> TypeEnvView {
    TypeEnvView {
        scopes: v.scopes.update(0, v.scopes[0].push((fn_key(n), PhysicalTypeView { dim: d, shape: None, struct_name: None }))),
        aliases: v.aliases,
    }
}

proof fn lemma_scope_get_other(s: Seq<(Seq<char>, PhysicalTypeView)>, x: (Seq<char>, PhysicalTypeView), k: Seq<char>)
    requires
        x.0 != k,
    ensures
        scope_get(s.push(x), k) == scope_get(s, k),
{
    assert(s.push(x).drop_last() =~= s);
}

proof fn lemma_scopes_get_first_other(ss: Seq<Seq<(Seq<char>, PhysicalTypeView)>>, x: (Seq<char>, PhysicalTypeView), k: Seq<char>)
    requires
        ss.len() > 0,
        x.0 != k,
    ensures
        scopes_get(ss.update(0, ss[0].push(x)), k) == scopes_get(ss, k),
    decreases ss.len(),
{
    let t = ss.update(0, ss[0].push(x));
    if ss.len() == 1 {
        lemma_scope_get_other(ss[0], x, k);
        assert(t.last() == ss[0].push(x));
        assert(ss.last() == ss[0]);
        assert(t.drop_last().len() == 0);
        assert(ss.drop_last().len() == 0);
        assert(scopes_get(t.drop_last(), k) is None);
        assert(scopes_get(ss.drop_last(), k) is None);
    } else {
        lemma_scopes_get_first_other(ss.drop_last(), x, k);
        assert(t.drop_last() =~= ss.drop_last().update(0, ss[0].push(x)));
        assert(t.last() == ss.last());
    }
}

/// A registered function signature lives in the global scope: it is found
/// after registration and still after closing every inner scope, and the
/// lookup of any identifier (a name without `:`) is unchanged by it.
pub proof fn lemma_register_fn_survives(v: TypeEnvView, n: Seq<char>, d: DimVector, pops: nat, id: Seq<char>)
    requires
        v.scopes.len() > 0,
        pops < v.scopes.len(),
        forall|i: int| 0 <= i < id.len() ==> id[i] != ':',
    ensures
        env_lookup_fn(fn_registered_env(v, n, d), n) == Some(d),
        env_lookup_fn(
            TypeEnvView { scopes: fn_registered_env(v, n, d).scopes.subrange(0, v.scopes.len() - pops), aliases: v.aliases },
            n,
        ) == Some(d),
        env_lookup(fn_registered_env(v, n, d), id) == env_lookup(v, id),
{
    let w = fn_registered_env(v, n, d);
    let x = (fn_key(n), PhysicalTypeView { dim: d, shape: None, struct_name: None });
    assert(w.scopes[0] == v.scopes[0].push(x));
    assert(w.scopes[0].drop_last() =~= v.scopes[0]);
    let inner = w.scopes.subrange(0, v.scopes.len() - pops);
    assert(inner[0] == w.scopes[0]);
    if fn_key(n) == id {
        assert(fn_key(n)[2] == ':');
        assert(id[2] == ':');
    }
    lemma_scopes_get_first_other(v.scopes, x, id);
}

} // verus!
