//! Module visibility, `use` import bindings and module resolution.
pub mod deps;
pub mod paths;
pub mod resolve;

use vstd::prelude::*;
use crate::text::{chars_of, chars_eq, copy_string, push_str};
use crate::types::dim::DimVector;
use crate::types::env::{TypeEnv, fn_key};
use crate::types::dim::PhysicalTypeView;
use crate::ast::Item;
use crate::lowering::{registered, Lowerer};
use crate::modules::resolve::{LoadedModule, ModuleProgram};

verus! {

/// Names brought into scope via `use` for dimensional checking.  Each table
/// maps a local name (after an `as` rename) to a dimension; a name occurs at
/// most once in each table.
#[derive(Debug, Clone)]
pub struct ImportBindings {
    /// Function return dimensions keyed by local name.
    pub functions: Vec<(String, DimVector)>,
    /// Type alias dimensions keyed by local name.
    pub aliases: Vec<(String, DimVector)>,
}

/// Model of a binding table.
pub open spec fn table_view(t: Seq<(String, DimVector)>) -> Seq<(Seq<char>, DimVector)> {
    t.map_values(|p: (String, DimVector)| (p.0@, p.1))
}

/// The entry of `k` in a table, if any.
pub open spec fn table_get(t: Seq<(Seq<char>, DimVector)>, k: Seq<char>) -> Option<DimVector>
    decreases t.len(),
{
    if t.len() == 0 {
        None
    } else if t.last().0 == k {
        Some(t.last().1)
    } else {
        table_get(t.drop_last(), k)
    }
}

/// No name occurs twice in a table.
pub open spec fn keys_unique(t: Seq<(Seq<char>, DimVector)>) -> bool {
    forall|i: int, j: int| 0 <= i < j < t.len() ==> t[i].0 != t[j].0
}

impl ImportBindings {
    /// Bindings with no entries.
    pub fn new() -> (b: Self)
        ensures
            b.functions@.len() == 0,
            b.aliases@.len() == 0,
    {
        ImportBindings { functions: Vec::new(), aliases: Vec::new() }
    }

    /// The well-formedness of the tables: keys are unique.
    pub open spec fn wf(&self) -> bool {
        keys_unique(table_view(self.functions@)) && keys_unique(table_view(self.aliases@))
    }

    /// Bind function `name` to `dim`, replacing an earlier binding of that name.
    pub fn insert_function(&mut self, name: &str, dim: DimVector)
        requires
            old(self).wf(),
        ensures
            final(self).wf(),
            table_get(table_view(final(self).functions@), name@) == Some(dim),
            forall|k: Seq<char>| k != name@ ==> table_get(table_view(final(self).functions@), k)
                == table_get(table_view(old(self).functions@), k),
            final(self).aliases@ == old(self).aliases@,
    {
        insert_entry(&mut self.functions, name, dim);
    }

    /// Bind alias `name` to `dim`, replacing an earlier binding of that name.
    pub fn insert_alias(&mut self, name: &str, dim: DimVector)
        requires
            old(self).wf(),
        ensures
            final(self).wf(),
            table_get(table_view(final(self).aliases@), name@) == Some(dim),
            forall|k: Seq<char>| k != name@ ==> table_get(table_view(final(self).aliases@), k)
                == table_get(table_view(old(self).aliases@), k),
            final(self).functions@ == old(self).functions@,
    {
        insert_entry(&mut self.aliases, name, dim);
    }
}

/// Remove the entry of `name`, if any, and push `(name, dim)`.
fn insert_entry(t: &mut Vec<(String, DimVector)>, name: &str, dim: DimVector)
    requires
        keys_unique(table_view(old(t)@)),
    ensures
        keys_unique(table_view(final(t)@)),
        table_get(table_view(final(t)@), name@) == Some(dim),
        forall|k: Seq<char>| k != name@ ==> table_get(table_view(final(t)@), k) == table_get(table_view(old(t)@), k),
{
    let key = chars_of(name);
    let mut out: Vec<(String, DimVector)> = Vec::new();
    let mut i: usize = 0;
    while i < t.len()
        invariant
            i <= t@.len(),
            t@ == old(t)@,
            key@ == name@,
            keys_unique(table_view(t@)),
            keys_unique(table_view(out@)),
            forall|j: int| 0 <= j < out@.len() ==> (#[trigger] out@[j]).0@ != name@,
            forall|j: int| 0 <= j < out@.len() ==> exists|m: int| 0 <= m < i && (#[trigger] out@[j]).0@ == t@[m].0@,
            forall|k: Seq<char>| k != name@ ==> table_get(table_view(out@), k) == table_get(table_view(t@.subrange(0, i as int)), k),
        decreases t@.len() - i,
    {
        let ghost sub = table_view(t@.subrange(0, i + 1));
        proof {
            assert(sub.drop_last() =~= table_view(t@.subrange(0, i as int)));
        }
        let nm = chars_of(t[i].0.as_str());
        if !chars_eq(nm.as_slice(), key.as_slice()) {
            let entry = (copy_string(&t[i].0), t[i].1);
            let ghost before = out@;
            out.push(entry);
            proof {
                assert(table_view(out@).drop_last() =~= table_view(before));
                assert(out@[out@.len() - 1].0@ == t@[i as int].0@);
                assert forall|a: int, b: int| 0 <= a < b < table_view(out@).len()
                    implies table_view(out@)[a].0 != table_view(out@)[b].0 by {
                    assert(table_view(out@)[a] == (out@[a].0@, out@[a].1));
                    assert(table_view(out@)[b] == (out@[b].0@, out@[b].1));
                    assert(out@[a] == before[a]);
                    if b == out@.len() - 1 {
                        assert(exists|m: int| 0 <= m < i && (#[trigger] before[a]).0@ == t@[m].0@);
                        let m = choose|m: int| 0 <= m < i && before[a].0@ == t@[m].0@;
                        assert(table_view(t@)[m] == (t@[m].0@, t@[m].1));
                        assert(table_view(t@)[i as int] == (t@[i as int].0@, t@[i as int].1));
                    } else {
                        assert(out@[b] == before[b]);
                        assert(table_view(before)[a] == (before[a].0@, before[a].1));
                        assert(table_view(before)[b] == (before[b].0@, before[b].1));
                    }
                }
                assert forall|j: int| 0 <= j < out@.len() implies
                    exists|m: int| 0 <= m < i + 1 && (#[trigger] out@[j]).0@ == t@[m].0@ by {
                    if j < out@.len() - 1 {
                        assert(out@[j] == before[j]);
                        assert(exists|m: int| 0 <= m < i && (#[trigger] before[j]).0@ == t@[m].0@);
                    } else {
                        assert(out@[j].0@ == t@[i as int].0@);
                    }
                }
                assert forall|k: Seq<char>| k != name@ implies table_get(table_view(out@), k)
                    == table_get(sub, k) by {
                    assert(sub.last() == (t@[i as int].0@, t@[i as int].1));
                    assert(table_view(out@).last() == (t@[i as int].0@, t@[i as int].1));
                    assert(table_get(table_view(before), k) == table_get(table_view(t@.subrange(0, i as int)), k));
                }
            }
        } else {
            proof {
                assert(sub.last().0 == name@);
                assert forall|k: Seq<char>| k != name@ implies table_get(table_view(out@), k)
                    == table_get(sub, k) by {
                }
                assert forall|j: int| 0 <= j < out@.len() implies
                    exists|m: int| 0 <= m < i + 1 && (#[trigger] out@[j]).0@ == t@[m].0@ by {
                    assert(exists|m: int| 0 <= m < i && (#[trigger] out@[j]).0@ == t@[m].0@);
                }
            }
        }
        i = i + 1;
    }
    proof {
        assert(t@.subrange(0, t@.len() as int) =~= t@);
    }
    let ghost before = out@;
    let mut k2 = String::new();
    push_str(&mut k2, name);
    out.push((k2, dim));
    proof {
        assert(table_view(out@).drop_last() =~= table_view(before));
        assert(table_view(out@).last() == (name@, dim));
        assert forall|k: Seq<char>| k != name@ implies table_get(table_view(out@), k) == table_get(table_view(old(t)@), k) by {
            assert(table_get(table_view(before), k) == table_get(table_view(t@.subrange(0, t@.len() as int)), k));
        }
        assert forall|a: int, b: int| 0 <= a < b < table_view(out@).len()
            implies table_view(out@)[a].0 != table_view(out@)[b].0 by {
            assert(table_view(out@)[a] == (out@[a].0@, out@[a].1));
            assert(table_view(out@)[b] == (out@[b].0@, out@[b].1));
            assert(out@[a] == before[a]);
            if b == out@.len() - 1 {
                assert(before[a].0@ != name@);
            } else {
                assert(out@[b] == before[b]);
                assert(table_view(before)[a] == (before[a].0@, before[a].1));
                assert(table_view(before)[b] == (before[b].0@, before[b].1));
            }
        }
    }
    *t = out;
}

/// Register every imported alias and function in `env` before checking.
pub fn apply_imports(env: &mut TypeEnv, imports: &ImportBindings)
    ensures
        final(env)@.aliases == old(env)@.aliases + table_view(imports.aliases@),
        old(env)@.scopes.len() > 0 ==> final(env)@.scopes.len() == old(env)@.scopes.len(),
        old(env)@.scopes.len() > 0 ==> final(env)@.scopes.drop_first() == old(env)@.scopes.drop_first(),
        old(env)@.scopes.len() > 0 ==> final(env)@.scopes[0] == old(env)@.scopes[0] + table_view(imports.functions@).map_values(
            |p: (Seq<char>, DimVector)| (fn_key(p.0), PhysicalTypeView { dim: p.1, shape: None, struct_name: None }),
        ),
        old(env)@.scopes.len() == 0 ==> final(env)@.scopes == old(env)@.scopes,
{
    let mut i: usize = 0;
    while i < imports.aliases.len()
        invariant
            i <= imports.aliases@.len(),
            env@.aliases == old(env)@.aliases + table_view(imports.aliases@.subrange(0, i as int)),
            env@.scopes == old(env)@.scopes,
        decreases imports.aliases@.len() - i,
    {
        env.register_alias(imports.aliases[i].0.as_str(), imports.aliases[i].1);
        proof {
            assert(table_view(imports.aliases@.subrange(0, i + 1))
                =~= table_view(imports.aliases@.subrange(0, i as int)).push((imports.aliases@[i as int].0@, imports.aliases@[i as int].1)));
        }
        i = i + 1;
    }
    proof {
        assert(imports.aliases@.subrange(0, imports.aliases@.len() as int) =~= imports.aliases@);
    }
    let ghost mid = env@;
    let ghost fv = table_view(imports.functions@).map_values(
        |p: (Seq<char>, DimVector)| (fn_key(p.0), PhysicalTypeView { dim: p.1, shape: None, struct_name: None }),
    );
    let mut j: usize = 0;
    while j < imports.functions.len()
        invariant
            j <= imports.functions@.len(),
            fv.len() == imports.functions@.len(),
            fv == table_view(imports.functions@).map_values(
                |p: (Seq<char>, DimVector)| (fn_key(p.0), PhysicalTypeView { dim: p.1, shape: None, struct_name: None }),
            ),
            env@.aliases == mid.aliases,
            mid.scopes.len() > 0 ==> env@.scopes.len() == mid.scopes.len(),
            mid.scopes.len() > 0 ==> env@.scopes.drop_first() == mid.scopes.drop_first(),
            mid.scopes.len() > 0 ==> env@.scopes[0] == mid.scopes[0] + fv.subrange(0, j as int),
            mid.scopes.len() == 0 ==> env@.scopes == mid.scopes,
        decreases imports.functions@.len() - j,
    {
        let ghost before = env@;
        env.register_fn(imports.functions[j].0.as_str(), imports.functions[j].1);
        proof {
            if mid.scopes.len() > 0 {
                assert(fv[j as int] == (fn_key(imports.functions@[j as int].0@), PhysicalTypeView { dim: imports.functions@[j as int].1, shape: None, struct_name: None }));
                assert(fv.subrange(0, j + 1) =~= fv.subrange(0, j as int).push(fv[j as int]));
                assert(env@.scopes[0] =~= mid.scopes[0] + fv.subrange(0, j + 1));
                assert(env@.scopes.drop_first() =~= before.scopes.drop_first());
            }
        }
        j = j + 1;
    }
    proof {
        assert(fv.subrange(0, fv.len() as int) =~= fv);
    }
}

/// The entries that the items of `ms` add to a function table, module by
/// module in load order.
pub open spec fn modules_registered(ms: Seq<LoadedModule>) -> Seq<(Seq<char>, Item)>
    decreases ms.len(),
{
    if ms.len() == 0 {
        Seq::empty()
    } else {
        modules_registered(ms.drop_last()) + registered(ms.last().ast.items@)
    }
}

/// Register the functions and custom ops of every loaded module for
/// lowering, in load order.
pub fn register_lowerer<'a>(program: &'a ModuleProgram, lowerer: &mut Lowerer<'a>)
    ensures
        final(lowerer).fns() == old(lowerer).fns() + modules_registered(program.modules@),
{
    let ghost f0 = lowerer.fns();
    let mut i: usize = 0;
    proof {
        assert(program.modules@.subrange(0, 0) =~= Seq::<LoadedModule>::empty());
        assert(f0 + modules_registered(program.modules@.subrange(0, 0)) =~= f0);
    }
    while i < program.modules.len()
        invariant
            i <= program.modules@.len(),
            lowerer.fns() == f0 + modules_registered(program.modules@.subrange(0, i as int)),
        decreases program.modules@.len() - i,
    {
        let ghost before = lowerer.fns();
        lowerer.register_items(&program.modules[i].ast);
        proof {
            let sub = program.modules@.subrange(0, i + 1);
            assert(sub.drop_last() =~= program.modules@.subrange(0, i as int));
            assert(sub.last() == program.modules@[i as int]);
            assert(lowerer.fns() =~= f0 + modules_registered(sub));
        }
        i = i + 1;
    }
    proof {
        assert(program.modules@.subrange(0, program.modules@.len() as int) =~= program.modules@);
    }
}

} // verus!
