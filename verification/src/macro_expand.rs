//! Macro expansion pre-pass.
//!
//! Runs after parsing and before type-checking.  Collects the file's
//! `macro_rules!` definitions, then replaces item-level invocations by the
//! items their expansion parses to, and expression-level invocations by the
//! expression their expansion parses to.  An expansion substitutes the
//! invocation's arguments for the `$var`s of the first rule whose pattern
//! has as many metavariables as the invocation has arguments.
use vstd::prelude::*;
use crate::ast::{
    Expr, FunctionBody, Item, MacroRule, SourceFile, Spanned, Stmt, ArmView, BodyView, ExprView, ItemView, StmtView,
    expr_view, item_view, items_view, expr_node_view, stmt_node_view, exprs_view, stmts_view, arms_view, fields_view,
    pattern_view, stmt_view, item_node_view, lemma_exprs_view_index, lemma_stmts_view_index, lemma_arms_view_index,
    lemma_fields_view_index, lemma_exprs_view_push, lemma_stmts_view_push, lemma_arms_view_push, lemma_fields_view_push,
    lemma_items_view_index, lemma_items_view_push, lemma_items_view_append,
};
use crate::parser::expr::g_whole_expr;
use crate::macro_laws::{expansions_free, items_free, lemma_no_invocation_remains};
use crate::parser::item_grammar::g_source;
use crate::diagnostics::AeviaError;
use crate::parser::expr::parse_expr;
use crate::parser::lex::{is_whitespace, spec_is_whitespace};
use crate::text::{chars_of, chars_eq, copy_string, push_char, push_str, string_from_range};

verus! {

// ── Metavariables ───────────────────────────────────────────────────────────

/// Whether `c` may appear in a metavariable name or kind.
pub open spec fn word_char(c: char) -> bool {
    ('a' <= c <= 'z') || ('A' <= c <= 'Z') || ('0' <= c <= '9') || c == '_'
}

/// The end of the run of word characters of `p` starting at `i`.
pub open spec fn word_end(p: Seq<char>, i: int) -> int
    decreases p.len() - i,
{
    if i < 0 || i >= p.len() || !word_char(p[i]) { i } else { word_end(p, i + 1) }
}

pub proof fn lemma_word_end(p: Seq<char>, i: int)
    requires
        0 <= i <= p.len(),
    ensures
        i <= word_end(p, i) <= p.len(),
        forall|k: int| i <= k < word_end(p, i) ==> word_char(#[trigger] p[k]),
        word_end(p, i) < p.len() ==> !word_char(p[word_end(p, i)]),
    decreases p.len() - i,
{
    if i < p.len() && word_char(p[i]) {
        lemma_word_end(p, i + 1);
    }
}

/// The metavariable names of a pattern from index `i` on, in order: each
/// `$name` or `$name:kind` gives `name` (a `$` not followed by a name is
/// skipped).
pub open spec fn metavars_from(p: Seq<char>, i: int) -> Seq<Seq<char>>
    decreases p.len() - i,
{
    if i < 0 || i >= p.len() {
        Seq::empty()
    } else if p[i] != '$' {
        metavars_from(p, i + 1)
    } else {
        let e = word_end(p, i + 1);
        if e == i + 1 {
            metavars_from(p, e)
        } else {
            let e2 = if e < p.len() && p[e] == ':' { word_end(p, e + 1) } else { e };
            proof {
                lemma_word_end(p, i + 1);
                if e < p.len() && p[e] == ':' {
                    lemma_word_end(p, e + 1);
                }
            }
            seq![p.subrange(i + 1, e)] + metavars_from(p, e2)
        }
    }
}

fn is_word_char(c: char) -> (r: bool)
    ensures
        r == word_char(c),
{
    ('a' <= c && c <= 'z') || ('A' <= c && c <= 'Z') || ('0' <= c && c <= '9') || c == '_'
}

fn word_end_at(p: &Vec<char>, i: usize) -> (e: usize)
    requires
        i <= p.len(),
    ensures
        e == word_end(p@, i as int),
{
    let mut e = i;
    while e < p.len() && is_word_char(p[e])
        invariant
            i <= e <= p.len(),
            word_end(p@, i as int) == word_end(p@, e as int),
        decreases p.len() - e,
    {
        e = e + 1;
    }
    e
}

/// The model of a list of strings.
pub open spec fn strs_view(v: Seq<String>) -> Seq<Seq<char>> {
    v.map_values(|s: String| s@)
}

/// Ordered metavariable names of a pattern: `$name` and `$name:kind`.
pub fn extract_metavars(pattern: &str) -> (vars: Vec<String>)
    ensures
        strs_view(vars@) == metavars_from(pattern@, 0),
{
    let p = chars_of(pattern);
    let mut vars: Vec<String> = Vec::new();
    let mut i: usize = 0;
    while i < p.len()
        invariant
            i <= p@.len(),
            p@ == pattern@,
            metavars_from(p@, 0) == strs_view(vars@) + metavars_from(p@, i as int),
        decreases p@.len() - i,
    {
        if p[i] == '$' {
            let e = word_end_at(&p, i + 1);
            proof {
                lemma_word_end(p@, i + 1);
            }
            if e == i + 1 {
                i = e;
            } else {
                let name = string_from_range(&p, i + 1, e);
                let mut e2 = e;
                if e < p.len() && p[e] == ':' {
                    e2 = word_end_at(&p, e + 1);
                    proof {
                        lemma_word_end(p@, e + 1);
                    }
                }
                let ghost before = vars@;
                vars.push(name);
                proof {
                    assert(strs_view(vars@) =~= strs_view(before).push(p@.subrange(i + 1, e as int)));
                    assert(strs_view(before) + metavars_from(p@, i as int)
                        =~= strs_view(vars@) + metavars_from(p@, e2 as int));
                }
                i = e2;
            }
        } else {
            i = i + 1;
        }
    }
    proof {
        assert(strs_view(vars@) + metavars_from(p@, i as int) =~= strs_view(vars@));
    }
    vars
}

// ── Argument splitting ──────────────────────────────────────────────────────

/// The parts of `a` from index `i` on, split at commas outside brackets:
/// `depth` is the bracket depth at `i` (a closer at depth zero is ignored)
/// and `cur` the text of the part read so far.
pub open spec fn split_from(a: Seq<char>, i: int, depth: nat, cur: Seq<char>) -> Seq<Seq<char>>
    decreases a.len() - i,
{
    if i < 0 || i >= a.len() {
        seq![cur]
    } else {
        let c = a[i];
        if c == '(' || c == '[' || c == '{' {
            split_from(a, i + 1, depth + 1, cur.push(c))
        } else if c == ')' || c == ']' || c == '}' {
            split_from(a, i + 1, if depth > 0 { (depth - 1) as nat } else { 0 }, cur.push(c))
        } else if c == ',' && depth == 0 {
            seq![cur] + split_from(a, i + 1, depth, Seq::empty())
        } else {
            split_from(a, i + 1, depth, cur.push(c))
        }
    }
}

/// Split `args` on top-level commas, respecting balanced `(`, `[`, `{`.
pub fn split_args(args: &str) -> (parts: Vec<String>)
    ensures
        strs_view(parts@) == split_from(args@, 0, 0, Seq::empty()),
{
    let a = chars_of(args);
    let mut parts: Vec<String> = Vec::new();
    let mut cur = String::new();
    let mut depth: usize = 0;
    let mut i: usize = 0;
    while i < a.len()
        invariant
            i <= a@.len(),
            a@ == args@,
            depth <= i,
            split_from(a@, 0, 0, Seq::empty()) == strs_view(parts@) + split_from(a@, i as int, depth as nat, cur@),
        decreases a@.len() - i,
    {
        let c = a[i];
        if c == '(' || c == '[' || c == '{' {
            depth = depth + 1;
            push_char(&mut cur, c);
        } else if c == ')' || c == ']' || c == '}' {
            if depth > 0 {
                depth = depth - 1;
            }
            push_char(&mut cur, c);
        } else if c == ',' && depth == 0 {
            let ghost before = parts@;
            let ghost done = cur@;
            parts.push(cur);
            cur = String::new();
            proof {
                assert(strs_view(parts@) =~= strs_view(before).push(done));
                assert(strs_view(before) + split_from(a@, i as int, 0, done)
                    =~= strs_view(parts@) + split_from(a@, i + 1, 0, Seq::empty()));
            }
        } else {
            push_char(&mut cur, c);
        }
        i = i + 1;
    }
    let ghost before = parts@;
    let ghost last = cur@;
    parts.push(cur);
    proof {
        assert(strs_view(parts@) =~= strs_view(before).push(last));
        assert(strs_view(before) + split_from(a@, i as int, depth as nat, last) =~= strs_view(parts@));
    }
    parts
}

// ── Trimming and substitution ───────────────────────────────────────────────

/// `t` without leading and trailing whitespace.
pub open spec fn trim_ws(t: Seq<char>) -> Seq<char> {
    let lo = lead_ws(t, 0);
    t.subrange(lo, trail_ws(t, lo, t.len() as int))
}

/// The first index at or after `i` that is not whitespace.
pub open spec fn lead_ws(t: Seq<char>, i: int) -> int
    decreases t.len() - i,
{
    if i < 0 || i >= t.len() || !spec_is_whitespace(t[i]) { i } else { lead_ws(t, i + 1) }
}

/// The end of `t[lo..hi]` once trailing whitespace is removed.
pub open spec fn trail_ws(t: Seq<char>, lo: int, hi: int) -> int
    decreases hi - lo,
{
    if hi <= lo || hi > t.len() || !spec_is_whitespace(t[hi - 1]) { hi } else { trail_ws(t, lo, hi - 1) }
}

pub proof fn lemma_trim_bounds(t: Seq<char>, i: int, lo: int, hi: int)
    requires
        0 <= i <= t.len(),
        0 <= lo <= hi <= t.len(),
    ensures
        i <= lead_ws(t, i) <= t.len(),
        lo <= trail_ws(t, lo, hi) <= hi,
    decreases t.len() - i + (hi - lo),
{
    if i < t.len() && spec_is_whitespace(t[i]) {
        lemma_trim_bounds(t, i + 1, lo, hi);
    } else if hi > lo && spec_is_whitespace(t[hi - 1]) {
        lemma_trim_bounds(t, i, lo, hi - 1);
    }
}

/// `s` without leading and trailing whitespace.
pub fn trim(s: &str) -> (r: String)
    ensures
        r@ == trim_ws(s@),
{
    let t = chars_of(s);
    let mut lo: usize = 0;
    while lo < t.len() && is_whitespace(t[lo])
        invariant
            lo <= t@.len(),
            lead_ws(t@, 0) == lead_ws(t@, lo as int),
        decreases t@.len() - lo,
    {
        lo = lo + 1;
    }
    let mut hi: usize = t.len();
    while hi > lo && is_whitespace(t[hi - 1])
        invariant
            lo <= hi <= t@.len(),
            lo == lead_ws(t@, 0),
            trail_ws(t@, lo as int, t@.len() as int) == trail_ws(t@, lo as int, hi as int),
        decreases hi,
    {
        hi = hi - 1;
    }
    string_from_range(&t, lo, hi)
}

/// Whether `pat` occurs in `s` at `i`.
fn occurs_at(s: &Vec<char>, i: usize, pat: &Vec<char>) -> (r: bool)
    requires
        i <= s.len(),
    ensures
        r == (i + pat.len() <= s.len() && s@.subrange(i as int, i + pat.len()) == pat@),
{
    if pat.len() > s.len() - i {
        return false;
    }
    let mut k: usize = 0;
    while k < pat.len()
        invariant
            k <= pat@.len(),
            i <= s@.len(),
            i + pat@.len() <= s@.len(),
            s@.len() <= usize::MAX,
            forall|j: int| 0 <= j < k ==> s@[i + j] == pat@[j],
        decreases pat@.len() - k,
    {
        if s[i + k] != pat[k] {
            proof {
                assert(s@.subrange(i as int, i + pat@.len())[k as int] != pat@[k as int]);
            }
            return false;
        }
        k = k + 1;
    }
    proof {
        assert(s@.subrange(i as int, i + pat@.len()) =~= pat@);
    }
    true
}

/// A binding of a metavariable name to its argument text.
pub type Binding = (String, String);

/// Model of a binding list.
pub open spec fn bindings_view(b: Seq<Binding>) -> Seq<(Seq<char>, Seq<char>)> {
    b.map_values(|p: Binding| (p.0@, p.1@))
}

/// Whether `p` is a prefix of `s`.
pub open spec fn prefix_of(p: Seq<char>, s: Seq<char>) -> bool {
    p.len() <= s.len() && s.subrange(0, p.len() as int) == p
}

/// The binding whose name is the longest prefix of `t`; among bindings of
/// equal names, the last.
pub open spec fn longest_bound(t: Seq<char>, b: Seq<(Seq<char>, Seq<char>)>) -> Option<(Seq<char>, Seq<char>)>
    decreases b.len(),
{
    if b.len() == 0 {
        None
    } else {
        let r = longest_bound(t, b.drop_last());
        let longer = match r {
            Some(y) => y.0.len() <= b.last().0.len(),
            None => true,
        };
        if prefix_of(b.last().0, t) && longer { Some(b.last()) } else { r }
    }
}

/// The binding found by [`longest_bound`] names a prefix of the text.
pub proof fn lemma_longest_bound_prefix(t: Seq<char>, b: Seq<(Seq<char>, Seq<char>)>)
    ensures
        longest_bound(t, b) matches Some(x) ==> prefix_of(x.0, t),
    decreases b.len(),
{
    if b.len() > 0 {
        lemma_longest_bound_prefix(t, b.drop_last());
    }
}

/// The bindings as a map: a name bound more than once keeps its last value.
pub open spec fn binding_map(b: Seq<(Seq<char>, Seq<char>)>) -> Map<Seq<char>, Seq<char>>
    decreases b.len(),
{
    if b.len() == 0 { Map::empty() } else { binding_map(b.drop_last()).insert(b.last().0, b.last().1) }
}

/// The value substituted for a name is the one the map holds for it: a
/// repeated name takes its last value.
pub proof fn lemma_longest_bound_last(t: Seq<char>, b: Seq<(Seq<char>, Seq<char>)>)
    ensures
        longest_bound(t, b) matches Some(x) ==> binding_map(b).dom().contains(x.0) && binding_map(b)[x.0] == x.1,
    decreases b.len(),
{
    if b.len() > 0 {
        lemma_longest_bound_last(t, b.drop_last());
        lemma_longest_bound_prefix(t, b.drop_last());
        let r = longest_bound(t, b.drop_last());
        if longest_bound(t, b) != Some(b.last()) {
            if let Some(y) = r {
                assert(y.0 != b.last().0);
            }
        }
    }
}

/// The template with its `$name` occurrences replaced in one pass from left
/// to right: at a `$` followed by a bound name, the longest such name and
/// the `$` are replaced by its value; the inserted values are not scanned
/// again.
pub open spec fn substitute_all(t: Seq<char>, b: Seq<(Seq<char>, Seq<char>)>) -> Seq<char>
    decreases t.len(),
{
    if t.len() == 0 {
        t
    } else if t[0] == '$' && longest_bound(t.drop_first(), b) is Some {
        let x = longest_bound(t.drop_first(), b)->0;
        proof {
            lemma_longest_bound_prefix(t.drop_first(), b);
        }
        x.1 + substitute_all(t.subrange(1 + x.0.len() as int, t.len() as int), b)
    } else {
        seq![t[0]] + substitute_all(t.drop_first(), b)
    }
}

/// The index of the binding [`longest_bound`] picks for the text of `t`
/// from `at` on.
fn longest_at(t: &Vec<char>, at: usize, names: &Vec<Vec<char>>, bindings: &Vec<Binding>) -> (r: Option<usize>)
    requires
        at <= t@.len(),
        names@.len() == bindings@.len(),
        forall|k: int| 0 <= k < names@.len() ==> (#[trigger] names@[k])@ == bindings@[k].0@,
    ensures
        match r {
            Some(k) => k < bindings@.len()
                && longest_bound(t@.subrange(at as int, t@.len() as int), bindings_view(bindings@)) == Some(bindings_view(bindings@)[k as int]),
            None => longest_bound(t@.subrange(at as int, t@.len() as int), bindings_view(bindings@)) is None,
        },
{
    let ghost rest = t@.subrange(at as int, t@.len() as int);
    let ghost bv = bindings_view(bindings@);
    let mut best: Option<usize> = None;
    let mut best_len: usize = 0;
    let mut j: usize = 0;
    proof {
        assert(bv.subrange(0, 0) =~= Seq::<(Seq<char>, Seq<char>)>::empty());
    }
    while j < names.len()
        invariant
            j <= names@.len(),
            at <= t@.len(),
            names@.len() == bindings@.len(),
            bv == bindings_view(bindings@),
            rest == t@.subrange(at as int, t@.len() as int),
            forall|k: int| 0 <= k < names@.len() ==> (#[trigger] names@[k])@ == bindings@[k].0@,
            match best {
                Some(k) => k < j && longest_bound(rest, bv.subrange(0, j as int)) == Some(bv[k as int])
                    && best_len == bv[k as int].0.len(),
                None => longest_bound(rest, bv.subrange(0, j as int)) is None,
            },
        decreases names@.len() - j,
    {
        let ghost pre = bv.subrange(0, j + 1);
        proof {
            assert(pre.drop_last() =~= bv.subrange(0, j as int));
            assert(pre.last() == bv[j as int]);
            assert(bv[j as int].0 == names@[j as int]@);
        }
        let here = occurs_at(t, at, &names[j]);
        proof {
            if here {
                assert(rest.subrange(0, names@[j as int]@.len() as int) =~= t@.subrange(at as int, at + names@[j as int]@.len()));
            } else if names@[j as int]@.len() <= rest.len() {
                assert(rest.subrange(0, names@[j as int]@.len() as int) =~= t@.subrange(at as int, at + names@[j as int]@.len()));
            }
            assert(here == prefix_of(bv[j as int].0, rest));
        }
        if here && (best.is_none() || best_len <= names[j].len()) {
            best = Some(j);
            best_len = names[j].len();
        }
        j = j + 1;
    }
    proof {
        assert(bv.subrange(0, names@.len() as int) =~= bv);
    }
    best
}

/// Substitute the `$name` occurrences of the template in one pass (see
/// [`substitute_all`]): a name is never replaced inside a longer one, a
/// repeated name takes its last value, and the inserted text is not
/// scanned again.
pub fn substitute(template: &str, bindings: &Vec<Binding>) -> (r: String)
    ensures
        r@ == substitute_all(template@, bindings_view(bindings@)),
{
    let ghost bv = bindings_view(bindings@);
    let mut names: Vec<Vec<char>> = Vec::new();
    let mut n: usize = 0;
    while n < bindings.len()
        invariant
            n <= bindings@.len(),
            names@.len() == n,
            forall|k: int| 0 <= k < n ==> (#[trigger] names@[k])@ == bindings@[k].0@,
        decreases bindings@.len() - n,
    {
        names.push(chars_of(bindings[n].0.as_str()));
        n = n + 1;
    }
    let t = chars_of(template);
    let mut out = String::new();
    let mut i: usize = 0;
    proof {
        assert(t@.subrange(0, t@.len() as int) =~= t@);
        assert(out@ + substitute_all(t@, bv) =~= substitute_all(t@, bv));
    }
    while i < t.len()
        invariant
            i <= t@.len(),
            t@ == template@,
            bv == bindings_view(bindings@),
            names@.len() == bindings@.len(),
            forall|k: int| 0 <= k < names@.len() ==> (#[trigger] names@[k])@ == bindings@[k].0@,
            substitute_all(template@, bv) == out@ + substitute_all(t@.subrange(i as int, t@.len() as int), bv),
        decreases t@.len() - i,
    {
        let ghost rest = t@.subrange(i as int, t@.len() as int);
        proof {
            assert(rest.drop_first() =~= t@.subrange(i + 1, t@.len() as int));
        }
        let mut taken = false;
        if t[i] == '$' {
            match longest_at(&t, i + 1, &names, bindings) {
                Some(k) => {
                    let ghost x = bv[k as int];
                    proof {
                        lemma_longest_bound_prefix(rest.drop_first(), bv);
                        assert(x.0 == names@[k as int]@);
                    }
                    push_str(&mut out, bindings[k].1.as_str());
                    let len = names[k].len();
                    proof {
                        assert(rest.subrange(1 + x.0.len() as int, rest.len() as int) =~= t@.subrange(i + 1 + len, t@.len() as int));
                    }
                    i = i + 1 + len;
                    taken = true;
                },
                None => {},
            }
        }
        if !taken {
            push_char(&mut out, t[i]);
            i = i + 1;
        }
    }
    proof {
        assert(t@.subrange(i as int, t@.len() as int) =~= Seq::<char>::empty());
    }
    out
}

/// The bindings of a pattern's metavariables to the trimmed arguments, when
/// the pattern has metavariables and as many as there are arguments.
pub open spec fn match_spec(pattern: Seq<char>, args: Seq<char>) -> Option<Seq<(Seq<char>, Seq<char>)>> {
    let vars = metavars_from(pattern, 0);
    let parts = split_from(args, 0, 0, Seq::empty());
    if vars.len() == 0 || parts.len() != vars.len() {
        None
    } else {
        Some(Seq::new(vars.len(), |i: int| (vars[i], trim_ws(parts[i]))))
    }
}

/// Match `args` against a macro pattern like `$name:ident, $unit:expr`:
/// the metavariables paired with the trimmed arguments, in order.  Read as
/// a map ([`binding_map`]), a repeated name is bound to its last value, and
/// substitution takes that value ([`lemma_longest_bound_last`]).
pub fn match_pattern(pattern: &str, args: &str) -> (r: Option<Vec<Binding>>)
    ensures
        match r {
            Some(b) => match_spec(pattern@, args@) == Some(bindings_view(b@)),
            None => match_spec(pattern@, args@) is None,
        },
{
    let vars = extract_metavars(pattern);
    if vars.len() == 0 {
        return None;
    }
    let parts = split_args(args);
    if parts.len() != vars.len() {
        return None;
    }
    let ghost vv = strs_view(vars@);
    let ghost pv = strs_view(parts@);
    let mut out: Vec<Binding> = Vec::new();
    let mut i: usize = 0;
    while i < vars.len()
        invariant
            i <= vars@.len(),
            vars@.len() == parts@.len(),
            vv == strs_view(vars@),
            pv == strs_view(parts@),
            out@.len() == i,
            forall|k: int| 0 <= k < i ==> (#[trigger] bindings_view(out@)[k]) == (vv[k], trim_ws(pv[k])),
        decreases vars@.len() - i,
    {
        let ghost before = out@;
        let val = trim(parts[i].as_str());
        out.push((copy_string(&vars[i]), val));
        proof {
            assert forall|k: int| 0 <= k < i + 1 implies (#[trigger] bindings_view(out@)[k]) == (vv[k], trim_ws(pv[k])) by {
                if k < i {
                    assert(out@[k] == before[k]);
                    assert(bindings_view(before)[k] == (vv[k], trim_ws(pv[k])));
                }
            }
        }
        i = i + 1;
    }
    proof {
        assert(bindings_view(out@) =~= Seq::new(vv.len(), |k: int| (vv[k], trim_ws(pv[k]))));
    }
    Some(out)
}


// ── Invocations in the syntax tree ──────────────────────────────────────────

/// Whether an expression contains a macro invocation.
pub open spec fn has_macro_call(e: Expr) -> bool
    decreases e, 0int,
{
    match e {
        Expr::MacroCall { .. } => true,
        Expr::BinaryOp { lhs, rhs, .. } => has_macro_call(lhs.node) || has_macro_call(rhs.node),
        Expr::UnaryOp { expr, .. } => has_macro_call(expr.node),
        Expr::Call { args, .. } => exprs_have(args@, 0),
        Expr::Block(stmts) => stmts_have(stmts@, 0),
        Expr::If { cond, then_branch, else_branch } => has_macro_call(cond.node) || has_macro_call(then_branch.node)
            || match else_branch {
                Some(eb) => has_macro_call(eb.node),
                None => false,
            },
        Expr::Loop { body } => stmts_have(body@, 0),
        Expr::While { cond, body } => has_macro_call(cond.node) || stmts_have(body@, 0),
        Expr::For { start, end, body, .. } => has_macro_call(start.node) || has_macro_call(end.node) || stmts_have(body@, 0),
        Expr::Match { scrutinee, arms } => has_macro_call(scrutinee.node) || arms_have(arms@, 0),
        Expr::UnsafeTransmute { expr, .. } => has_macro_call(expr.node),
        Expr::Print { expr } => has_macro_call(expr.node),
        Expr::StructLit { fields, .. } => fields_have(fields@, 0),
        Expr::FieldAccess { expr, .. } => has_macro_call(expr.node),
        Expr::Literal { .. } | Expr::Variable(_) | Expr::Log { .. } => false,
    }
}

/// Whether an expression from index `i` on contains an invocation.
pub open spec fn exprs_have(v: Seq<Spanned<Expr>>, i: int) -> bool
    decreases v, v.len() - i,
{
    if i < 0 || i >= v.len() { false } else { has_macro_call(v[i].node) || exprs_have(v, i + 1) }
}

/// Whether a statement from index `i` on contains an invocation.
pub open spec fn stmts_have(v: Seq<Spanned<Stmt>>, i: int) -> bool
    decreases v, v.len() - i,
{
    if i < 0 || i >= v.len() { false } else { stmt_has(v[i].node) || stmts_have(v, i + 1) }
}

/// Whether a match arm body from index `i` on contains an invocation.
pub open spec fn arms_have(v: Seq<crate::ast::MatchArm>, i: int) -> bool
    decreases v, v.len() - i,
{
    if i < 0 || i >= v.len() { false } else { has_macro_call(v[i].body.node) || arms_have(v, i + 1) }
}

/// Whether a struct literal field value from index `i` on contains an invocation.
pub open spec fn fields_have(v: Seq<(String, Spanned<Expr>)>, i: int) -> bool
    decreases v, v.len() - i,
{
    if i < 0 || i >= v.len() { false } else { has_macro_call(v[i].1.node) || fields_have(v, i + 1) }
}

/// Whether a statement contains an invocation.
pub open spec fn stmt_has(st: Stmt) -> bool
    decreases st, 0int,
{
    match st {
        Stmt::Let { init, .. } => has_macro_call(init.node),
        Stmt::Assign { value, .. } => has_macro_call(value.node),
        Stmt::Expr(e) => has_macro_call(e.node),
        Stmt::Break | Stmt::Continue => false,
    }
}

// ── What expansion yields ───────────────────────────────────────────────────

/// Model of a macro table: names with their rules, in definition order.
pub type TableView = Seq<(Seq<char>, Seq<(Seq<char>, Seq<char>)>)>;

/// The macro table of a list of items: its `macro_rules!` definitions in order.
pub open spec fn table_of(items: Seq<Spanned<Item>>) -> TableView
    decreases items.len(),
{
    if items.len() == 0 {
        Seq::empty()
    } else {
        match items.last().node {
            Item::MacroDef { name, rules } => table_of(items.drop_last()).push((name@, rules_view(rules@))),
            _ => table_of(items.drop_last()),
        }
    }
}

/// The rules of macro `name`: those of its latest definition.
pub open spec fn table_rules(tv: TableView, name: Seq<char>) -> Option<Seq<(Seq<char>, Seq<char>)>>
    decreases tv.len(),
{
    if tv.len() == 0 {
        None
    } else if tv.last().0 == name {
        Some(tv.last().1)
    } else {
        table_rules(tv.drop_last(), name)
    }
}

/// The text an invocation expands to.
pub open spec fn invocation_text(tv: TableView, name: Seq<char>, args: Seq<char>) -> Option<Seq<char>> {
    match table_rules(tv, name) {
        Some(rules) => rules_expansion(rules, args),
        None => None,
    }
}

/// The expression an invocation expands to: its text read as an expression.
pub open spec fn invocation(tv: TableView, name: Seq<char>, args: Seq<char>) -> Option<ExprView> {
    match invocation_text(tv, name, args) {
        Some(src) => match g_whole_expr(src) {
            Some(e) => Some(e.node),
            None => None,
        },
        None => None,
    }
}

/// The items an item-level invocation expands to: its text read as a source file.
pub open spec fn invocation_items(tv: TableView, name: Seq<char>, args: Seq<char>) -> Option<Seq<Spanned<ItemView>>> {
    match invocation_text(tv, name, args) {
        Some(src) => g_source(src),
        None => None,
    }
}

/// An expression with each invocation replaced by its expansion (`None`
/// when one does not expand); expansions are not expanded again.
pub open spec fn exp_e(tv: TableView, e: ExprView) -> Option<ExprView>
    decreases e,
{
    match e {
        ExprView::MacroCall(name, args) => invocation(tv, name, args),
        ExprView::BinaryOp(op, l, r) => match (exp_sp(tv, *l), exp_sp(tv, *r)) {
            (Some(a), Some(b)) => Some(ExprView::BinaryOp(op, Box::new(a), Box::new(b))),
            _ => None,
        },
        ExprView::UnaryOp(op, x) => match exp_sp(tv, *x) {
            Some(a) => Some(ExprView::UnaryOp(op, Box::new(a))),
            None => None,
        },
        ExprView::Call(f, args) => match exp_es(tv, args) {
            Some(a) => Some(ExprView::Call(f, a)),
            None => None,
        },
        ExprView::Block(stmts) => match exp_sts(tv, stmts) {
            Some(b) => Some(ExprView::Block(b)),
            None => None,
        },
        ExprView::If(c, t, eb) => match (exp_sp(tv, *c), exp_sp(tv, *t)) {
            (Some(c2), Some(t2)) => match eb {
                Some(b) => match exp_sp(tv, *b) {
                    Some(b2) => Some(ExprView::If(Box::new(c2), Box::new(t2), Some(Box::new(b2)))),
                    None => None,
                },
                None => Some(ExprView::If(Box::new(c2), Box::new(t2), None)),
            },
            _ => None,
        },
        ExprView::Loop(body) => match exp_sts(tv, body) {
            Some(b) => Some(ExprView::Loop(b)),
            None => None,
        },
        ExprView::While(c, body) => match (exp_sp(tv, *c), exp_sts(tv, body)) {
            (Some(c2), Some(b)) => Some(ExprView::While(Box::new(c2), b)),
            _ => None,
        },
        ExprView::For(v, st, en, body) => match (exp_sp(tv, *st), exp_sp(tv, *en), exp_sts(tv, body)) {
            (Some(s2), Some(e2), Some(b)) => Some(ExprView::For(v, Box::new(s2), Box::new(e2), b)),
            _ => None,
        },
        ExprView::Match(scr, arms) => match (exp_sp(tv, *scr), exp_arms(tv, arms)) {
            (Some(s2), Some(a)) => Some(ExprView::Match(Box::new(s2), a)),
            _ => None,
        },
        ExprView::UnsafeTransmute(x, u, l) => match exp_sp(tv, *x) {
            Some(a) => Some(ExprView::UnsafeTransmute(Box::new(a), u, l)),
            None => None,
        },
        ExprView::Print(x) => match exp_sp(tv, *x) {
            Some(a) => Some(ExprView::Print(Box::new(a))),
            None => None,
        },
        ExprView::StructLit(n, fields) => match exp_fields(tv, fields) {
            Some(f) => Some(ExprView::StructLit(n, f)),
            None => None,
        },
        ExprView::FieldAccess(x, f) => match exp_sp(tv, *x) {
            Some(a) => Some(ExprView::FieldAccess(Box::new(a), f)),
            None => None,
        },
        ExprView::Literal(..) | ExprView::Variable(_) | ExprView::Log(_) => Some(e),
    }
}

/// A spanned expression expanded, keeping its span.
pub open spec fn exp_sp(tv: TableView, s: Spanned<ExprView>) -> Option<Spanned<ExprView>>
    decreases s,
{
    match exp_e(tv, s.node) {
        Some(n) => Some(Spanned { node: n, span: s.span }),
        None => None,
    }
}

/// A list of expressions expanded.
pub open spec fn exp_es(tv: TableView, v: Seq<Spanned<ExprView>>) -> Option<Seq<Spanned<ExprView>>>
    decreases v,
{
    if v.len() == 0 {
        Some(Seq::empty())
    } else {
        match (exp_es(tv, v.drop_last()), exp_sp(tv, v.last())) {
            (Some(a), Some(b)) => Some(a.push(b)),
            _ => None,
        }
    }
}

/// A statement expanded.
pub open spec fn exp_st(tv: TableView, st: StmtView) -> Option<StmtView>
    decreases st,
{
    match st {
        StmtView::Let(n, d, init, m) => match exp_sp(tv, init) {
            Some(x) => Some(StmtView::Let(n, d, x, m)),
            None => None,
        },
        StmtView::Assign(t, v) => match exp_sp(tv, v) {
            Some(x) => Some(StmtView::Assign(t, x)),
            None => None,
        },
        StmtView::Expr(e) => match exp_sp(tv, e) {
            Some(x) => Some(StmtView::Expr(x)),
            None => None,
        },
        StmtView::Break | StmtView::Continue => Some(st),
    }
}

/// A list of statements expanded, each keeping its span.
pub open spec fn exp_sts(tv: TableView, v: Seq<Spanned<StmtView>>) -> Option<Seq<Spanned<StmtView>>>
    decreases v,
{
    if v.len() == 0 {
        Some(Seq::empty())
    } else {
        match (exp_sts(tv, v.drop_last()), exp_st(tv, v.last().node)) {
            (Some(a), Some(b)) => Some(a.push(Spanned { node: b, span: v.last().span })),
            _ => None,
        }
    }
}

/// A list of match arms expanded.
pub open spec fn exp_arms(tv: TableView, v: Seq<ArmView>) -> Option<Seq<ArmView>>
    decreases v,
{
    if v.len() == 0 {
        Some(Seq::empty())
    } else {
        match (exp_arms(tv, v.drop_last()), exp_sp(tv, v.last().body)) {
            (Some(a), Some(b)) => Some(a.push(ArmView { pattern: v.last().pattern, body: b })),
            _ => None,
        }
    }
}

/// A struct literal's fields expanded.
pub open spec fn exp_fields(tv: TableView, v: Seq<(Seq<char>, Spanned<ExprView>)>) -> Option<Seq<(Seq<char>, Spanned<ExprView>)>>
    decreases v,
{
    if v.len() == 0 {
        Some(Seq::empty())
    } else {
        match (exp_fields(tv, v.drop_last()), exp_sp(tv, v.last().1)) {
            (Some(a), Some(b)) => Some(a.push((v.last().0, b))),
            _ => None,
        }
    }
}

/// An item with the invocations in a function body or a constant's value
/// expanded (the items that an invocation inside a module body expands to
/// are expanded this way).
pub open spec fn exp_code(tv: TableView, it: ItemView) -> Option<ItemView> {
    match it {
        ItemView::Function(n, p, r, body, vis, a, d) => match body {
            BodyView::Expression(e) => match exp_sp(tv, e) {
                Some(x) => Some(ItemView::Function(n, p, r, BodyView::Expression(x), vis, a, d)),
                None => None,
            },
            BodyView::Block(stmts) => match exp_sts(tv, stmts) {
                Some(x) => Some(ItemView::Function(n, p, r, BodyView::Block(x), vis, a, d)),
                None => None,
            },
        },
        ItemView::Const(n, d, value, vis, doc) => match exp_sp(tv, value) {
            Some(x) => Some(ItemView::Const(n, d, x, vis, doc)),
            None => None,
        },
        _ => Some(it),
    }
}

/// An item expanded: a function body or a constant's value as by
/// [`exp_code`], an inline module's body member by member (see
/// [`crate::macro_bodies::exp_body`]).
pub open spec fn exp_item(tv: TableView, it: ItemView) -> Option<ItemView>
    decreases it, 2int,
{
    match it {
        ItemView::Module(n, Some(body), vis, d) => match crate::macro_bodies::exp_body(tv, body) {
            Some(b) => Some(ItemView::Module(n, Some(b), vis, d)),
            None => None,
        },
        _ => exp_code(tv, it),
    }
}

/// A list of items, each expanded.
pub open spec fn exp_items(tv: TableView, v: Seq<Spanned<ItemView>>) -> Option<Seq<Spanned<ItemView>>>
    decreases v.len(),
{
    if v.len() == 0 {
        Some(Seq::empty())
    } else {
        match (exp_items(tv, v.drop_last()), exp_item(tv, v.last().node)) {
            (Some(a), Some(b)) => Some(a.push(Spanned { node: b, span: v.last().span })),
            _ => None,
        }
    }
}

/// An item-level invocation's expansion, or any other item alone.
pub open spec fn splice_one(tv: TableView, it: Spanned<Item>) -> Option<Seq<Spanned<ItemView>>> {
    match it.node {
        Item::MacroCall { name, args } => invocation_items(tv, name@, args@),
        _ => Some(seq![item_view(it)]),
    }
}

/// The items with each item-level invocation replaced by the items it
/// expands to.
pub open spec fn splice(tv: TableView, items: Seq<Spanned<Item>>) -> Option<Seq<Spanned<ItemView>>>
    decreases items.len(),
{
    if items.len() == 0 {
        Some(Seq::empty())
    } else {
        match (splice(tv, items.drop_last()), splice_one(tv, items.last())) {
            (Some(front), Some(more)) => Some(front + more),
            _ => None,
        }
    }
}

/// The items of a file after expansion: unchanged when nothing is to be
/// expanded; else the item-level invocations spliced, then each item's
/// expressions expanded, with the file's own definitions.
pub open spec fn expanded_items(items: Seq<Spanned<Item>>) -> Option<Seq<Spanned<ItemView>>> {
    if !items_have(items, 0) {
        Some(items_view(items))
    } else {
        match splice(table_of(items), items) {
            Some(sp) => exp_items(table_of(items), sp),
            None => None,
        }
    }
}


/// A list of expressions fails to expand when a prefix of it does.
proof fn lemma_exp_es_prefix(tv: TableView, v: Seq<Spanned<ExprView>>, k: int)
    requires
        0 <= k <= v.len(),
        exp_es(tv, v.subrange(0, k)) is None,
    ensures
        exp_es(tv, v) is None,
    decreases v.len() - k,
{
    if k == v.len() {
        assert(v.subrange(0, k) =~= v);
    } else {
        assert(v.subrange(0, k + 1).drop_last() =~= v.subrange(0, k));
        lemma_exp_es_prefix(tv, v, k + 1);
    }
}

/// A list of statements fails to expand when a prefix of it does.
proof fn lemma_exp_sts_prefix(tv: TableView, v: Seq<Spanned<StmtView>>, k: int)
    requires
        0 <= k <= v.len(),
        exp_sts(tv, v.subrange(0, k)) is None,
    ensures
        exp_sts(tv, v) is None,
    decreases v.len() - k,
{
    if k == v.len() {
        assert(v.subrange(0, k) =~= v);
    } else {
        assert(v.subrange(0, k + 1).drop_last() =~= v.subrange(0, k));
        lemma_exp_sts_prefix(tv, v, k + 1);
    }
}

/// A list of arms fails to expand when a prefix of it does.
proof fn lemma_exp_arms_prefix(tv: TableView, v: Seq<ArmView>, k: int)
    requires
        0 <= k <= v.len(),
        exp_arms(tv, v.subrange(0, k)) is None,
    ensures
        exp_arms(tv, v) is None,
    decreases v.len() - k,
{
    if k == v.len() {
        assert(v.subrange(0, k) =~= v);
    } else {
        assert(v.subrange(0, k + 1).drop_last() =~= v.subrange(0, k));
        lemma_exp_arms_prefix(tv, v, k + 1);
    }
}

/// A list of fields fails to expand when a prefix of it does.
proof fn lemma_exp_fields_prefix(tv: TableView, v: Seq<(Seq<char>, Spanned<ExprView>)>, k: int)
    requires
        0 <= k <= v.len(),
        exp_fields(tv, v.subrange(0, k)) is None,
    ensures
        exp_fields(tv, v) is None,
    decreases v.len() - k,
{
    if k == v.len() {
        assert(v.subrange(0, k) =~= v);
    } else {
        assert(v.subrange(0, k + 1).drop_last() =~= v.subrange(0, k));
        lemma_exp_fields_prefix(tv, v, k + 1);
    }
}

/// A list of items fails to expand when a prefix of it does.
proof fn lemma_exp_items_prefix(tv: TableView, v: Seq<Spanned<ItemView>>, k: int)
    requires
        0 <= k <= v.len(),
        exp_items(tv, v.subrange(0, k)) is None,
    ensures
        exp_items(tv, v) is None,
    decreases v.len() - k,
{
    if k == v.len() {
        assert(v.subrange(0, k) =~= v);
    } else {
        assert(v.subrange(0, k + 1).drop_last() =~= v.subrange(0, k));
        lemma_exp_items_prefix(tv, v, k + 1);
    }
}

/// Splicing fails when it fails on a prefix.
proof fn lemma_splice_prefix(tv: TableView, v: Seq<Spanned<Item>>, k: int)
    requires
        0 <= k <= v.len(),
        splice(tv, v.subrange(0, k)) is None,
    ensures
        splice(tv, v) is None,
    decreases v.len() - k,
{
    if k == v.len() {
        assert(v.subrange(0, k) =~= v);
    } else {
        assert(v.subrange(0, k + 1).drop_last() =~= v.subrange(0, k));
        lemma_splice_prefix(tv, v, k + 1);
    }
}

/// The macro definitions of a file, by name; a later definition of a name
/// replaces an earlier one.
pub struct MacroTable {
    pub entries: Vec<(String, Vec<MacroRule>)>,
}

/// Model of a rule list.
pub open spec fn rules_view(r: Seq<MacroRule>) -> Seq<(Seq<char>, Seq<char>)> {
    r.map_values(|x: MacroRule| (x.pattern@, x.replacement@))
}

/// The text an invocation with arguments `args` expands to under `rules`:
/// the substitution of the first rule whose pattern matches.
pub open spec fn rules_expansion(rules: Seq<(Seq<char>, Seq<char>)>, args: Seq<char>) -> Option<Seq<char>>
    decreases rules.len(),
{
    if rules.len() == 0 {
        None
    } else {
        match match_spec(rules[0].0, args) {
            Some(b) => Some(substitute_all(rules[0].1, b)),
            None => rules_expansion(rules.drop_first(), args),
        }
    }
}

/// The expansion text of an invocation: the substituted replacement of the
/// first rule whose pattern matches the arguments.
pub fn expansion_text(rules: &Vec<MacroRule>, args: &str) -> (r: Option<String>)
    ensures
        match r {
            Some(t) => rules_expansion(rules_view(rules@), args@) == Some(t@),
            None => rules_expansion(rules_view(rules@), args@) is None,
        },
{
    let mut i: usize = 0;
    proof {
        assert(rules_view(rules@).subrange(0, rules_view(rules@).len() as int) =~= rules_view(rules@));
    }
    while i < rules.len()
        invariant
            i <= rules@.len(),
            rules_expansion(rules_view(rules@), args@)
                == rules_expansion(rules_view(rules@).subrange(i as int, rules@.len() as int), args@),
        decreases rules@.len() - i,
    {
        let ghost rest = rules_view(rules@).subrange(i as int, rules@.len() as int);
        proof {
            assert(rest[0] == (rules@[i as int].pattern@, rules@[i as int].replacement@));
            assert(rest.drop_first() =~= rules_view(rules@).subrange(i + 1, rules@.len() as int));
        }
        match match_pattern(rules[i].pattern.as_str(), args) {
            Some(b) => {
                return Some(substitute(rules[i].replacement.as_str(), &b));
            },
            None => {},
        }
        i = i + 1;
    }
    None
}

fn copy_rules(r: &Vec<MacroRule>) -> (out: Vec<MacroRule>)
    ensures
        rules_view(out@) == rules_view(r@),
{
    let mut out: Vec<MacroRule> = Vec::new();
    let mut i: usize = 0;
    while i < r.len()
        invariant
            i <= r@.len(),
            rules_view(out@) == rules_view(r@.subrange(0, i as int)),
        decreases r@.len() - i,
    {
        let ghost before = out@;
        out.push(MacroRule { pattern: copy_string(&r[i].pattern), replacement: copy_string(&r[i].replacement) });
        proof {
            assert(rules_view(out@) =~= rules_view(before).push((r@[i as int].pattern@, r@[i as int].replacement@)));
            assert(rules_view(r@.subrange(0, i + 1)) =~= rules_view(r@.subrange(0, i as int)).push((r@[i as int].pattern@, r@[i as int].replacement@)));
        }
        i = i + 1;
    }
    proof {
        assert(r@.subrange(0, r@.len() as int) =~= r@);
    }
    out
}

/// The model of a list of macro definitions.
pub open spec fn entries_view(v: Seq<(String, Vec<MacroRule>)>) -> TableView {
    v.map_values(|e: (String, Vec<MacroRule>)| (e.0@, rules_view(e.1@)))
}

/// The model of a macro table.
pub open spec fn table_view(t: MacroTable) -> TableView {
    entries_view(t.entries@)
}

impl MacroTable {
    /// The definitions among `items`.
    pub fn collect(items: &Vec<Spanned<Item>>) -> (t: Self)
        ensures
            table_view(t) == table_of(items@),
    {
        let mut entries: Vec<(String, Vec<MacroRule>)> = Vec::new();
        let mut i: usize = 0;
        proof {
            assert(items@.subrange(0, 0) =~= Seq::<Spanned<Item>>::empty());
            assert(entries_view(entries@) =~= Seq::<(Seq<char>, Seq<(Seq<char>, Seq<char>)>)>::empty());
        }
        while i < items.len()
            invariant
                i <= items@.len(),
                entries_view(entries@) == table_of(items@.subrange(0, i as int)),
            decreases items@.len() - i,
        {
            let ghost before = entries@;
            proof {
                assert(items@.subrange(0, i + 1).drop_last() =~= items@.subrange(0, i as int));
            }
            match &items[i].node {
                Item::MacroDef { name, rules } => {
                    let e = (copy_string(name), copy_rules(rules));
                    entries.push(e);
                    proof {
                        assert(entries_view(entries@) =~= entries_view(before).push((name@, rules_view(rules@))));
                    }
                },
                _ => {},
            }
            i = i + 1;
        }
        proof {
            assert(items@.subrange(0, items@.len() as int) =~= items@);
        }
        MacroTable { entries }
    }

    /// The rules of macro `name`: its latest definition.
    pub fn rules_of(&self, name: &str) -> (r: Option<usize>)
        ensures
            r matches Some(k) ==> k < self.entries@.len() && self.entries@[k as int].0@ == name@,
            match r {
                Some(k) => table_rules(table_view(*self), name@) == Some(rules_view(self.entries@[k as int].1@)),
                None => table_rules(table_view(*self), name@) is None,
            },
    {
        let k = chars_of(name);
        let mut j = self.entries.len();
        let ghost tv = table_view(*self);
        proof {
            assert(tv.subrange(0, tv.len() as int) =~= tv);
        }
        while j > 0
            invariant
                j <= self.entries@.len(),
                k@ == name@,
                tv == table_view(*self),
                table_rules(tv, name@) == table_rules(tv.subrange(0, j as int), name@),
            decreases j,
        {
            let ghost sub = tv.subrange(0, j as int);
            proof {
                assert(sub.drop_last() =~= tv.subrange(0, j - 1));
            }
            let nm = chars_of(self.entries[j - 1].0.as_str());
            if chars_eq(nm.as_slice(), k.as_slice()) {
                return Some(j - 1);
            }
            j = j - 1;
        }
        None
    }
}

/// `undefined macro `name!``
fn undefined_macro(name: &str) -> AeviaError {
    let mut m = String::new();
    push_str(&mut m, "undefined macro `");
    push_str(&mut m, name);
    push_str(&mut m, "!`");
    AeviaError::message(m)
}

/// `no matching rule in macro `name!` for args `args``
fn no_matching_rule(name: &str, args: &str) -> AeviaError {
    let mut m = String::new();
    push_str(&mut m, "no matching rule in macro `");
    push_str(&mut m, name);
    push_str(&mut m, "!` for args `");
    push_str(&mut m, args);
    push_str(&mut m, "`");
    AeviaError::message(m)
}

/// `macro `name!` expansion failed to parse `src`: reason`
fn expansion_failed(name: &str, src: &str, reason: &str) -> AeviaError {
    let mut m = String::new();
    push_str(&mut m, "macro `");
    push_str(&mut m, name);
    push_str(&mut m, "!` expansion failed to parse `");
    push_str(&mut m, src);
    push_str(&mut m, "`: ");
    push_str(&mut m, reason);
    AeviaError::message(m)
}

/// The expression an invocation expands to.
fn apply_macro(name: &str, args: &str, macros: &MacroTable) -> (r: Result<Expr, AeviaError>)
    ensures
        match r {
            Ok(x) => invocation(table_view(*macros), name@, args@) == Some(expr_node_view(x)),
            Err(_) => invocation(table_view(*macros), name@, args@) is None,
        },
{
    let k = match macros.rules_of(name) {
        Some(k) => k,
        None => return Err(undefined_macro(name)),
    };
    match expansion_text(&macros.entries[k].1, args) {
        Some(src) => match parse_expr(src.as_str()) {
            Ok(e) => {
                proof {
                    crate::ast::lemma_expr_node_view(e);
                }
                Ok(e.node)
            },
            Err(reason) => Err(expansion_failed(name, src.as_str(), reason.as_str())),
        },
        None => Err(no_matching_rule(name, args)),
    }
}

/// The items an item-level invocation expands to.
pub(crate) fn apply_macro_items(name: &str, args: &str, macros: &MacroTable) -> (r: Result<Vec<Spanned<Item>>, AeviaError>)
    ensures
        match r {
            Ok(v) => invocation_items(table_view(*macros), name@, args@) == Some(items_view(v@)),
            Err(_) => invocation_items(table_view(*macros), name@, args@) is None,
        },
{
    let k = match macros.rules_of(name) {
        Some(k) => k,
        None => return Err(undefined_macro(name)),
    };
    match expansion_text(&macros.entries[k].1, args) {
        Some(src) => match crate::parser::items::parse_source(src.as_str()) {
            Ok(f) => Ok(f.items),
            Err(reason) => Err(expansion_failed(name, src.as_str(), reason.as_str())),
        },
        None => Err(no_matching_rule(name, args)),
    }
}


/// Whether an expression contains a macro invocation.
pub fn contains_macro_call(e: &Expr) -> (r: bool)
    ensures
        r == has_macro_call(*e),
    decreases e, 1int,
{
    match e {
        Expr::MacroCall { .. } => true,
        Expr::BinaryOp { lhs, rhs, .. } => contains_macro_call(&lhs.node) || contains_macro_call(&rhs.node),
        Expr::UnaryOp { expr, .. } => contains_macro_call(&expr.node),
        Expr::Call { args, .. } => any_expr_has(args),
        Expr::Block(stmts) => any_stmt_has(stmts),
        Expr::If { cond, then_branch, else_branch } => contains_macro_call(&cond.node)
            || contains_macro_call(&then_branch.node) || match else_branch {
                Some(eb) => contains_macro_call(&eb.node),
                None => false,
            },
        Expr::Loop { body } => any_stmt_has(body),
        Expr::While { cond, body } => contains_macro_call(&cond.node) || any_stmt_has(body),
        Expr::For { start, end, body, .. } => contains_macro_call(&start.node) || contains_macro_call(&end.node)
            || any_stmt_has(body),
        Expr::Match { scrutinee, arms } => contains_macro_call(&scrutinee.node) || any_arm_has(arms),
        Expr::UnsafeTransmute { expr, .. } => contains_macro_call(&expr.node),
        Expr::Print { expr } => contains_macro_call(&expr.node),
        Expr::StructLit { fields, .. } => any_field_has(fields),
        Expr::FieldAccess { expr, .. } => contains_macro_call(&expr.node),
        Expr::Literal { .. } | Expr::Variable(_) | Expr::Log { .. } => false,
    }
}

fn any_expr_has(v: &Vec<Spanned<Expr>>) -> (r: bool)
    ensures
        r == exprs_have(v@, 0),
    decreases v, 0int,
{
    let mut i: usize = 0;
    while i < v.len()
        invariant
            i <= v@.len(),
            exprs_have(v@, 0) == exprs_have(v@, i as int),
        decreases v@.len() - i,
    {
        proof {
            assert(decreases_to!(*v => v@));
            assert(decreases_to!(v@ => v@[i as int]));
        }
        if contains_macro_call(&v[i].node) {
            return true;
        }
        i = i + 1;
    }
    false
}

fn any_stmt_has(v: &Vec<Spanned<Stmt>>) -> (r: bool)
    ensures
        r == stmts_have(v@, 0),
    decreases v, 0int,
{
    let mut i: usize = 0;
    while i < v.len()
        invariant
            i <= v@.len(),
            stmts_have(v@, 0) == stmts_have(v@, i as int),
        decreases v@.len() - i,
    {
        proof {
            assert(decreases_to!(*v => v@));
            assert(decreases_to!(v@ => v@[i as int]));
        }
        if stmt_contains_macro_call(&v[i].node) {
            return true;
        }
        i = i + 1;
    }
    false
}

fn any_arm_has(v: &Vec<crate::ast::MatchArm>) -> (r: bool)
    ensures
        r == arms_have(v@, 0),
    decreases v, 0int,
{
    let mut i: usize = 0;
    while i < v.len()
        invariant
            i <= v@.len(),
            arms_have(v@, 0) == arms_have(v@, i as int),
        decreases v@.len() - i,
    {
        proof {
            assert(decreases_to!(*v => v@));
            assert(decreases_to!(v@ => v@[i as int]));
        }
        if contains_macro_call(&v[i].body.node) {
            return true;
        }
        i = i + 1;
    }
    false
}

fn any_field_has(v: &Vec<(String, Spanned<Expr>)>) -> (r: bool)
    ensures
        r == fields_have(v@, 0),
    decreases v, 0int,
{
    let mut i: usize = 0;
    while i < v.len()
        invariant
            i <= v@.len(),
            fields_have(v@, 0) == fields_have(v@, i as int),
        decreases v@.len() - i,
    {
        proof {
            assert(decreases_to!(*v => v@));
            assert(decreases_to!(v@ => v@[i as int]));
        }
        if contains_macro_call(&v[i].1.node) {
            return true;
        }
        i = i + 1;
    }
    false
}

/// Whether a statement contains a macro invocation.
pub fn stmt_contains_macro_call(st: &Stmt) -> (r: bool)
    ensures
        r == stmt_has(*st),
    decreases st, 1int,
{
    match st {
        Stmt::Let { init, .. } => contains_macro_call(&init.node),
        Stmt::Assign { value, .. } => contains_macro_call(&value.node),
        Stmt::Expr(e) => contains_macro_call(&e.node),
        Stmt::Break | Stmt::Continue => false,
    }
}

/// Expand the invocations in an expression.
fn expand_expr(expr: Expr, macros: &MacroTable) -> (r: Result<Expr, AeviaError>)
    ensures
        match r {
            Ok(x) => exp_e(table_view(*macros), expr_node_view(expr)) == Some(expr_node_view(x)),
            Err(_) => exp_e(table_view(*macros), expr_node_view(expr)) is None,
        },
    decreases expr, 1int,
{
    let ghost tv = table_view(*macros);
    match expr {
        Expr::MacroCall { name, args } => apply_macro(name.as_str(), args.as_str(), macros),
        Expr::BinaryOp { op, lhs, rhs } => {
            let l = match expand_spanned(*lhs, macros) {
                Ok(x) => x,
                Err(e) => return Err(e),
            };
            let r = match expand_spanned(*rhs, macros) {
                Ok(x) => x,
                Err(e) => return Err(e),
            };
            Ok(Expr::BinaryOp { op, lhs: Box::new(l), rhs: Box::new(r) })
        },
        Expr::UnaryOp { op, expr: inner } => match expand_spanned(*inner, macros) {
            Ok(x) => Ok(Expr::UnaryOp { op, expr: Box::new(x) }),
            Err(e) => Err(e),
        },
        Expr::Call { func, args } => match expand_exprs(args, macros) {
            Ok(a) => Ok(Expr::Call { func, args: a }),
            Err(e) => Err(e),
        },
        Expr::Block(stmts) => match expand_stmts(stmts, macros) {
            Ok(b) => Ok(Expr::Block(b)),
            Err(e) => Err(e),
        },
        Expr::If { cond, then_branch, else_branch } => {
            let c = match expand_spanned(*cond, macros) {
                Ok(x) => x,
                Err(e) => return Err(e),
            };
            let t = match expand_spanned(*then_branch, macros) {
                Ok(x) => x,
                Err(e) => return Err(e),
            };
            let el = match else_branch {
                Some(eb) => match expand_spanned(*eb, macros) {
                    Ok(x) => Some(Box::new(x)),
                    Err(e) => return Err(e),
                },
                None => None,
            };
            Ok(Expr::If { cond: Box::new(c), then_branch: Box::new(t), else_branch: el })
        },
        Expr::Loop { body } => match expand_stmts(body, macros) {
            Ok(b) => Ok(Expr::Loop { body: b }),
            Err(e) => Err(e),
        },
        Expr::While { cond, body } => {
            let c = match expand_spanned(*cond, macros) {
                Ok(x) => x,
                Err(e) => return Err(e),
            };
            match expand_stmts(body, macros) {
                Ok(b) => Ok(Expr::While { cond: Box::new(c), body: b }),
                Err(e) => Err(e),
            }
        },
        Expr::For { var, start, end, body } => {
            let st = match expand_spanned(*start, macros) {
                Ok(x) => x,
                Err(e) => return Err(e),
            };
            let en = match expand_spanned(*end, macros) {
                Ok(x) => x,
                Err(e) => return Err(e),
            };
            match expand_stmts(body, macros) {
                Ok(b) => Ok(Expr::For { var, start: Box::new(st), end: Box::new(en), body: b }),
                Err(e) => Err(e),
            }
        },
        Expr::Match { scrutinee, arms } => {
            let sc = match expand_spanned(*scrutinee, macros) {
                Ok(x) => x,
                Err(e) => return Err(e),
            };
            match expand_arms(arms, macros) {
                Ok(a) => Ok(Expr::Match { scrutinee: Box::new(sc), arms: a }),
                Err(e) => Err(e),
            }
        },
        Expr::UnsafeTransmute { expr: inner, assume_unit, assume_layout } => match expand_spanned(*inner, macros) {
            Ok(x) => Ok(Expr::UnsafeTransmute { expr: Box::new(x), assume_unit, assume_layout }),
            Err(e) => Err(e),
        },
        Expr::Print { expr: inner } => match expand_spanned(*inner, macros) {
            Ok(x) => Ok(Expr::Print { expr: Box::new(x) }),
            Err(e) => Err(e),
        },
        Expr::StructLit { name, fields } => match expand_fields(fields, macros) {
            Ok(f) => Ok(Expr::StructLit { name, fields: f }),
            Err(e) => Err(e),
        },
        Expr::FieldAccess { expr: inner, field } => match expand_spanned(*inner, macros) {
            Ok(x) => Ok(Expr::FieldAccess { expr: Box::new(x), field }),
            Err(e) => Err(e),
        },
        Expr::Literal { .. } | Expr::Variable(_) | Expr::Log { .. } => Ok(expr),
    }
}

/// Expand the invocations in a spanned expression, keeping its span.
fn expand_spanned(e: Spanned<Expr>, macros: &MacroTable) -> (r: Result<Spanned<Expr>, AeviaError>)
    ensures
        match r {
            Ok(x) => exp_sp(table_view(*macros), expr_view(e)) == Some(expr_view(x)),
            Err(_) => exp_sp(table_view(*macros), expr_view(e)) is None,
        },
    decreases e, 2int,
{
    proof {
        crate::ast::lemma_expr_node_view(e);
    }
    let Spanned { node, span } = e;
    match expand_expr(node, macros) {
        Ok(n) => {
            let out = Spanned { node: n, span };
            proof {
                crate::ast::lemma_expr_node_view(out);
            }
            Ok(out)
        },
        Err(err) => Err(err),
    }
}

fn expand_exprs(v: Vec<Spanned<Expr>>, macros: &MacroTable) -> (r: Result<Vec<Spanned<Expr>>, AeviaError>)
    ensures
        match r {
            Ok(w) => exp_es(table_view(*macros), exprs_view(v@)) == Some(exprs_view(w@)),
            Err(_) => exp_es(table_view(*macros), exprs_view(v@)) is None,
        },
    decreases v, 0int,
{
    let ghost v0 = v@;
    let ghost tv = table_view(*macros);
    let ghost vv = exprs_view(v0);
    proof {
        lemma_exprs_view_index(v0);
        assert(vv.subrange(0, 0) =~= Seq::<Spanned<ExprView>>::empty());
    }
    let mut rest = v;
    let mut out: Vec<Spanned<Expr>> = Vec::new();
    while rest.len() > 0
        invariant
            v0 == v@,
            tv == table_view(*macros),
            vv == exprs_view(v0),
            vv.len() == v0.len(),
            forall|j: int| 0 <= j < v0.len() ==> #[trigger] vv[j] == expr_view(v0[j]),
            out@.len() + rest@.len() == v0.len(),
            rest@ == v0.subrange(out@.len() as int, v0.len() as int),
            exp_es(tv, vv.subrange(0, out@.len() as int)) == Some(exprs_view(out@)),
        decreases rest@.len(),
    {
        let i = out.len();
        let x = rest.remove(0);
        proof {
            assert(x == v0[i as int]);
            assert(decreases_to!(v => v@));
            assert(0 <= i < v@.len());
            assert(decreases_to!(v@ => v@[i as int]));
            assert(vv.subrange(0, i + 1).drop_last() =~= vv.subrange(0, i as int));
        }
        match expand_spanned(x, macros) {
            Ok(y) => {
                proof {
                    lemma_exprs_view_push(out@, y);
                }
                out.push(y);
            },
            Err(e) => {
                proof {
                    lemma_exp_es_prefix(tv, vv, i + 1);
                }
                return Err(e);
            },
        }
        proof {
            assert(rest@ =~= v0.subrange(out@.len() as int, v0.len() as int));
        }
    }
    proof {
        assert(vv.subrange(0, vv.len() as int) =~= vv);
    }
    Ok(out)
}

fn expand_stmts(v: Vec<Spanned<Stmt>>, macros: &MacroTable) -> (r: Result<Vec<Spanned<Stmt>>, AeviaError>)
    ensures
        match r {
            Ok(w) => exp_sts(table_view(*macros), stmts_view(v@)) == Some(stmts_view(w@)),
            Err(_) => exp_sts(table_view(*macros), stmts_view(v@)) is None,
        },
    decreases v, 0int,
{
    let ghost v0 = v@;
    let ghost tv = table_view(*macros);
    let ghost vv = stmts_view(v0);
    proof {
        lemma_stmts_view_index(v0);
        assert(vv.subrange(0, 0) =~= Seq::<Spanned<StmtView>>::empty());
    }
    let mut rest = v;
    let mut out: Vec<Spanned<Stmt>> = Vec::new();
    while rest.len() > 0
        invariant
            v0 == v@,
            tv == table_view(*macros),
            vv == stmts_view(v0),
            vv.len() == v0.len(),
            forall|j: int| 0 <= j < v0.len() ==> #[trigger] vv[j] == stmt_view(v0[j]),
            out@.len() + rest@.len() == v0.len(),
            rest@ == v0.subrange(out@.len() as int, v0.len() as int),
            exp_sts(tv, vv.subrange(0, out@.len() as int)) == Some(stmts_view(out@)),
        decreases rest@.len(),
    {
        let i = out.len();
        let x = rest.remove(0);
        proof {
            assert(x == v0[i as int]);
            assert(decreases_to!(v => v@));
            assert(0 <= i < v@.len());
            assert(decreases_to!(v@ => v@[i as int]));
            assert(vv.subrange(0, i + 1).drop_last() =~= vv.subrange(0, i as int));
            crate::ast::lemma_stmt_node_view(x);
        }
        let Spanned { node, span } = x;
        match expand_stmt(node, macros) {
            Ok(y) => {
                let sy = Spanned { node: y, span };
                proof {
                    crate::ast::lemma_stmt_node_view(sy);
                    lemma_stmts_view_push(out@, sy);
                }
                out.push(sy);
            },
            Err(e) => {
                proof {
                    lemma_exp_sts_prefix(tv, vv, i + 1);
                }
                return Err(e);
            },
        }
        proof {
            assert(rest@ =~= v0.subrange(out@.len() as int, v0.len() as int));
        }
    }
    proof {
        assert(vv.subrange(0, vv.len() as int) =~= vv);
    }
    Ok(out)
}

fn expand_arms(v: Vec<crate::ast::MatchArm>, macros: &MacroTable) -> (r: Result<Vec<crate::ast::MatchArm>, AeviaError>)
    ensures
        match r {
            Ok(w) => exp_arms(table_view(*macros), arms_view(v@)) == Some(arms_view(w@)),
            Err(_) => exp_arms(table_view(*macros), arms_view(v@)) is None,
        },
    decreases v, 0int,
{
    let ghost v0 = v@;
    let ghost tv = table_view(*macros);
    let ghost vv = arms_view(v0);
    proof {
        lemma_arms_view_index(v0);
        assert(vv.subrange(0, 0) =~= Seq::<ArmView>::empty());
    }
    let mut rest = v;
    let mut out: Vec<crate::ast::MatchArm> = Vec::new();
    while rest.len() > 0
        invariant
            v0 == v@,
            tv == table_view(*macros),
            vv == arms_view(v0),
            vv.len() == v0.len(),
            forall|j: int| 0 <= j < v0.len() ==> #[trigger] vv[j]
                == (ArmView { pattern: pattern_view(v0[j].pattern), body: expr_view(v0[j].body) }),
            out@.len() + rest@.len() == v0.len(),
            rest@ == v0.subrange(out@.len() as int, v0.len() as int),
            exp_arms(tv, vv.subrange(0, out@.len() as int)) == Some(arms_view(out@)),
        decreases rest@.len(),
    {
        let i = out.len();
        let x = rest.remove(0);
        proof {
            assert(x == v0[i as int]);
            assert(decreases_to!(v => v@));
            assert(0 <= i < v@.len());
            assert(decreases_to!(v@ => v@[i as int]));
            assert(vv.subrange(0, i + 1).drop_last() =~= vv.subrange(0, i as int));
        }
        let crate::ast::MatchArm { pattern, body } = x;
        match expand_spanned(body, macros) {
            Ok(y) => {
                let arm = crate::ast::MatchArm { pattern, body: y };
                proof {
                    lemma_arms_view_push(out@, arm);
                }
                out.push(arm);
            },
            Err(e) => {
                proof {
                    lemma_exp_arms_prefix(tv, vv, i + 1);
                }
                return Err(e);
            },
        }
        proof {
            assert(rest@ =~= v0.subrange(out@.len() as int, v0.len() as int));
        }
    }
    proof {
        assert(vv.subrange(0, vv.len() as int) =~= vv);
    }
    Ok(out)
}

fn expand_fields(v: Vec<(String, Spanned<Expr>)>, macros: &MacroTable) -> (r: Result<Vec<(String, Spanned<Expr>)>, AeviaError>)
    ensures
        match r {
            Ok(w) => exp_fields(table_view(*macros), fields_view(v@)) == Some(fields_view(w@)),
            Err(_) => exp_fields(table_view(*macros), fields_view(v@)) is None,
        },
    decreases v, 0int,
{
    let ghost v0 = v@;
    let ghost tv = table_view(*macros);
    let ghost vv = fields_view(v0);
    proof {
        lemma_fields_view_index(v0);
        assert(vv.subrange(0, 0) =~= Seq::<(Seq<char>, Spanned<ExprView>)>::empty());
    }
    let mut rest = v;
    let mut out: Vec<(String, Spanned<Expr>)> = Vec::new();
    while rest.len() > 0
        invariant
            v0 == v@,
            tv == table_view(*macros),
            vv == fields_view(v0),
            vv.len() == v0.len(),
            forall|j: int| 0 <= j < v0.len() ==> #[trigger] vv[j] == (v0[j].0@, expr_view(v0[j].1)),
            out@.len() + rest@.len() == v0.len(),
            rest@ == v0.subrange(out@.len() as int, v0.len() as int),
            exp_fields(tv, vv.subrange(0, out@.len() as int)) == Some(fields_view(out@)),
        decreases rest@.len(),
    {
        let i = out.len();
        let x = rest.remove(0);
        proof {
            assert(x == v0[i as int]);
            assert(decreases_to!(v => v@));
            assert(0 <= i < v@.len());
            assert(decreases_to!(v@ => v@[i as int]));
            assert(vv.subrange(0, i + 1).drop_last() =~= vv.subrange(0, i as int));
        }
        let (fname, fexpr) = x;
        match expand_spanned(fexpr, macros) {
            Ok(y) => {
                let f = (fname, y);
                proof {
                    lemma_fields_view_push(out@, f);
                }
                out.push(f);
            },
            Err(e) => {
                proof {
                    lemma_exp_fields_prefix(tv, vv, i + 1);
                }
                return Err(e);
            },
        }
        proof {
            assert(rest@ =~= v0.subrange(out@.len() as int, v0.len() as int));
        }
    }
    proof {
        assert(vv.subrange(0, vv.len() as int) =~= vv);
    }
    Ok(out)
}

fn expand_stmt(stmt: Stmt, macros: &MacroTable) -> (r: Result<Stmt, AeviaError>)
    ensures
        match r {
            Ok(x) => exp_st(table_view(*macros), stmt_node_view(stmt)) == Some(stmt_node_view(x)),
            Err(_) => exp_st(table_view(*macros), stmt_node_view(stmt)) is None,
        },
    decreases stmt, 1int,
{
    match stmt {
        Stmt::Let { name, declared_type, init, is_mut } => match expand_spanned(init, macros) {
            Ok(x) => Ok(Stmt::Let { name, declared_type, init: x, is_mut }),
            Err(e) => Err(e),
        },
        Stmt::Assign { target, value } => match expand_spanned(value, macros) {
            Ok(x) => Ok(Stmt::Assign { target, value: x }),
            Err(e) => Err(e),
        },
        Stmt::Expr(e) => match expand_spanned(e, macros) {
            Ok(x) => Ok(Stmt::Expr(x)),
            Err(err) => Err(err),
        },
        Stmt::Break | Stmt::Continue => Ok(stmt),
    }
}


/// Whether an item is or contains an invocation that expansion replaces,
/// in a function body, a constant's value or an inline module's body.
pub open spec fn item_has(item: Item) -> bool
    decreases item, 0int,
{
    match item {
        Item::Module { body: Some(items), .. } => items_have(items@, 0),
        Item::MacroCall { .. } => true,
        Item::Function { body, .. } => match body {
            FunctionBody::Expression(e) => has_macro_call(e.node),
            FunctionBody::Block(stmts) => stmts_have(stmts@, 0),
        },
        Item::Const { value, .. } => has_macro_call(value.node),
        _ => false,
    }
}

/// Whether an item from index `i` on is or contains an invocation.
pub open spec fn items_have(v: Seq<Spanned<Item>>, i: int) -> bool
    decreases v, v.len() - i,
{
    if i < 0 || i >= v.len() { false } else { item_has(v[i].node) || items_have(v, i + 1) }
}

fn item_contains_macro_call(item: &Item) -> (r: bool)
    ensures
        r == item_has(*item),
    decreases item, 0int,
{
    match item {
        Item::Module { body: Some(items), .. } => any_item_has(items),
        Item::MacroCall { .. } => true,
        Item::Function { body, .. } => match body {
            FunctionBody::Expression(e) => contains_macro_call(&e.node),
            FunctionBody::Block(stmts) => any_stmt_has(stmts),
        },
        Item::Const { value, .. } => contains_macro_call(&value.node),
        _ => false,
    }
}

/// Whether an item of `v` is or contains an invocation.
fn any_item_has(v: &Vec<Spanned<Item>>) -> (r: bool)
    ensures
        r == items_have(v@, 0),
    decreases v, 1int,
{
    let mut i: usize = 0;
    while i < v.len()
        invariant
            i <= v@.len(),
            items_have(v@, 0) == items_have(v@, i as int),
        decreases v@.len() - i,
    {
        proof {
            assert(decreases_to!(*v => v@));
            assert(decreases_to!(v@ => v@[i as int]));
            assert(decreases_to!(v@[i as int] => v@[i as int].node));
        }
        if item_contains_macro_call(&v[i].node) {
            return true;
        }
        i = i + 1;
    }
    false
}

/// Expand an item: a function body or a constant's value by
/// [`expand_code`], an inline module's body member by member.
pub(crate) fn expand_item(item: Item, macros: &MacroTable) -> (r: Result<Item, AeviaError>)
    ensures
        match r {
            Ok(x) => exp_item(table_view(*macros), item_node_view(item)) == Some(item_node_view(x)),
            Err(_) => exp_item(table_view(*macros), item_node_view(item)) is None,
        },
    decreases item, 2int,
{
    match item {
        Item::Module { name, body: Some(members), visibility, doc } => {
            proof {
                assert(decreases_to!(item => members));
            }
            match crate::macro_bodies::expand_body(members, macros) {
                Ok(b) => Ok(Item::Module { name, body: Some(b), visibility, doc }),
                Err(e) => Err(e),
            }
        },
        other => expand_code(other, macros),
    }
}

/// Expand the invocations inside a function body or a constant's value.
pub(crate) fn expand_code(item: Item, macros: &MacroTable) -> (r: Result<Item, AeviaError>)
    ensures
        match r {
            Ok(x) => exp_code(table_view(*macros), item_node_view(item)) == Some(item_node_view(x)),
            Err(_) => exp_code(table_view(*macros), item_node_view(item)) is None,
        },
{
    match item {
        Item::Function { name, params, return_type, body, visibility, attributes, doc } => {
            let body = match body {
                FunctionBody::Expression(e) => match expand_spanned(e, macros) {
                    Ok(x) => FunctionBody::Expression(x),
                    Err(err) => return Err(err),
                },
                FunctionBody::Block(stmts) => match expand_stmts(stmts, macros) {
                    Ok(x) => FunctionBody::Block(x),
                    Err(err) => return Err(err),
                },
            };
            Ok(Item::Function { name, params, return_type, body, visibility, attributes, doc })
        },
        Item::Const { name, dim, value, visibility, doc } => match expand_spanned(value, macros) {
            Ok(x) => Ok(Item::Const { name, dim, value: x, visibility, doc }),
            Err(err) => Err(err),
        },
        other => Ok(other),
    }
}

/// An item-level invocation replaced by the items it expands to; any other
/// item kept.
fn splice_item(it: Spanned<Item>, macros: &MacroTable) -> (r: Result<Vec<Spanned<Item>>, AeviaError>)
    ensures
        match r {
            Ok(v) => splice_one(table_view(*macros), it) == Some(items_view(v@)),
            Err(_) => splice_one(table_view(*macros), it) is None,
        },
{
    let call = match &it.node {
        Item::MacroCall { name, args } => Some(apply_macro_items(name.as_str(), args.as_str(), macros)),
        _ => None,
    };
    match call {
        Some(r) => r,
        None => {
            let mut v: Vec<Spanned<Item>> = Vec::new();
            proof {
                lemma_items_view_push(v@, it);
                assert(v@.push(it) =~= seq![it]);
                assert(items_view(v@) =~= Seq::<Spanned<ItemView>>::empty());
            }
            v.push(it);
            proof {
                assert(items_view(v@) =~= seq![item_view(it)]);
            }
            Ok(v)
        },
    }
}

/// Expand every macro invocation of `file` in place, using the file's own
/// `macro_rules!` definitions: item-level invocations are replaced by the
/// items their expansion parses to, then invocations inside function bodies
/// and constants by the expressions theirs parse to, and inline module
/// bodies are expanded member by member in the same way.  A file without
/// invocations, at any depth, is left unchanged.  The text an invocation
/// expands to is not expanded again, so when no macro expands to text that
/// holds an invocation, an expansion that succeeds leaves none anywhere.
#[verifier::rlimit(40)]
pub fn expand(file: &mut SourceFile) -> (r: Result<(), AeviaError>)
    ensures
        !items_have(old(file).items@, 0) ==> r is Ok && *final(file) == *old(file),
        r is Ok && items_have(old(file).items@, 0) && expansions_free(table_of(old(file).items@))
            ==> items_free(items_view(final(file).items@)),
        match r {
            Ok(_) => expanded_items(old(file).items@) == Some(items_view(final(file).items@)),
            Err(_) => expanded_items(old(file).items@) is None,
        },
        final(file).doc == old(file).doc,
{
    let mut k: usize = 0;
    let mut any = false;
    while k < file.items.len()
        invariant
            k <= file.items@.len(),
            *file == *old(file),
            !any ==> items_have(file.items@, 0) == items_have(file.items@, k as int),
            any ==> items_have(file.items@, 0),
        decreases file.items@.len() - k,
    {
        if !any && item_contains_macro_call(&file.items[k].node) {
            any = true;
            proof {
                assert(items_have(file.items@, k as int));
            }
        }
        k = k + 1;
    }
    if !any {
        return Ok(());
    }
    proof {
        assert(items_have(old(file).items@, 0));
    }
    let macros = MacroTable::collect(&file.items);
    let ghost tv = table_view(macros);
    let ghost orig = file.items@;
    let mut items: Vec<Spanned<Item>> = Vec::new();
    std::mem::swap(&mut items, &mut file.items);
    let mut spliced: Vec<Spanned<Item>> = Vec::new();
    let ghost mut done: int = 0;
    proof {
        assert(orig.subrange(0, 0) =~= Seq::<Spanned<Item>>::empty());
        assert(items_view(spliced@) =~= Seq::<Spanned<ItemView>>::empty());
        assert(items@ =~= orig.subrange(0, orig.len() as int));
    }
    while items.len() > 0
        invariant
            items_have(old(file).items@, 0),
            orig == old(file).items@,
            tv == table_view(macros),
            tv == table_of(orig),
            file.doc == old(file).doc,
            0 <= done <= orig.len(),
            items@ == orig.subrange(done, orig.len() as int),
            splice(tv, orig.subrange(0, done)) == Some(items_view(spliced@)),
        decreases items@.len(),
    {
        let it = items.remove(0);
        proof {
            assert(it == orig[done]);
            assert(orig.subrange(0, done + 1).drop_last() =~= orig.subrange(0, done));
            assert(orig.subrange(0, done + 1).last() == orig[done]);
        }
        match splice_item(it, &macros) {
            Ok(mut more) => {
                let ghost before = spliced@;
                let ghost m = more@;
                spliced.append(&mut more);
                proof {
                    assert(spliced@ =~= before + m);
                    lemma_items_view_append(before, m);
                }
            },
            Err(e) => {
                proof {
                    lemma_splice_prefix(tv, orig, done + 1);
                }
                return Err(e);
            },
        }
        proof {
            done = done + 1;
            assert(items@ =~= orig.subrange(done, orig.len() as int));
        }
    }
    proof {
        assert(orig.subrange(0, orig.len() as int) =~= orig);
    }
    let ghost sp0 = spliced@;
    let ghost spv = items_view(sp0);
    proof {
        lemma_items_view_index(sp0);
        assert(spv.subrange(0, 0) =~= Seq::<Spanned<ItemView>>::empty());
        assert(items_view(Seq::<Spanned<Item>>::empty()) =~= Seq::<Spanned<ItemView>>::empty());
    }
    let mut out: Vec<Spanned<Item>> = Vec::new();
    while spliced.len() > 0
        invariant
            items_have(old(file).items@, 0),
            tv == table_view(macros),
            tv == table_of(old(file).items@),
            splice(tv, old(file).items@) == Some(spv),
            file.doc == old(file).doc,
            spv == items_view(sp0),
            spv.len() == sp0.len(),
            forall|j: int| 0 <= j < sp0.len() ==> #[trigger] spv[j] == item_view(sp0[j]),
            out@.len() + spliced@.len() == sp0.len(),
            spliced@ == sp0.subrange(out@.len() as int, sp0.len() as int),
            exp_items(tv, spv.subrange(0, out@.len() as int)) == Some(items_view(out@)),
        decreases spliced@.len(),
    {
        let i = out.len();
        let x = spliced.remove(0);
        proof {
            assert(x == sp0[i as int]);
            assert(spv.subrange(0, i + 1).drop_last() =~= spv.subrange(0, i as int));
        }
        let Spanned { node, span } = x;
        match expand_item(node, &macros) {
            Ok(n) => {
                let sn = Spanned { node: n, span };
                proof {
                    lemma_items_view_push(out@, sn);
                }
                out.push(sn);
            },
            Err(e) => {
                proof {
                    lemma_exp_items_prefix(tv, spv, i + 1);
                }
                return Err(e);
            },
        }
        proof {
            assert(spliced@ =~= sp0.subrange(out@.len() as int, sp0.len() as int));
        }
    }
    proof {
        assert(spv.subrange(0, spv.len() as int) =~= spv);
        if expansions_free(tv) {
            lemma_no_invocation_remains(old(file).items@);
        }
    }
    file.items = out;
    Ok(())
}

} // verus!
