//! Macro expansion inside the bodies of inline modules: each member of a
//! body is expanded, an item-level invocation being replaced by the items
//! its expansion parses to.
use vstd::prelude::*;
use crate::ast::{
    Item, ItemView, Spanned, item_view, items_view, item_node_view, lemma_items_view_index, lemma_items_view_push,
    lemma_items_view_append,
};
use crate::diagnostics::AeviaError;
use crate::macro_expand::{
    apply_macro_items, exp_code, exp_item, expand_code, expand_item, invocation_items, table_view, MacroTable, TableView,
};

verus! {

/// The members of an inline module's body expanded, in order: an
/// item-level invocation replaced by the items it expands to (each expanded
/// by [`exp_code`]), any other member expanded by [`exp_item`].
pub open spec fn exp_body(tv: TableView, v: Seq<Spanned<ItemView>>) -> Option<Seq<Spanned<ItemView>>>
    decreases v, 1int,
{
    if v.len() == 0 {
        Some(Seq::empty())
    } else {
        match (exp_body(tv, v.drop_last()), exp_member(tv, v.last())) {
            (Some(a), Some(b)) => Some(a + b),
            _ => None,
        }
    }
}

/// One member of an inline module's body expanded (see [`exp_body`]).
pub open spec fn exp_member(tv: TableView, m: Spanned<ItemView>) -> Option<Seq<Spanned<ItemView>>>
    decreases m, 0int,
{
    match m.node {
        ItemView::MacroCall(n, a) => match invocation_items(tv, n, a) {
            Some(items) => exp_codes(tv, items),
            None => None,
        },
        _ => match exp_item(tv, m.node) {
            Some(x) => Some(seq![Spanned { node: x, span: m.span }]),
            None => None,
        },
    }
}

/// A list of items, each expanded by [`exp_code`].
pub open spec fn exp_codes(tv: TableView, v: Seq<Spanned<ItemView>>) -> Option<Seq<Spanned<ItemView>>>
    decreases v.len(),
{
    if v.len() == 0 {
        Some(Seq::empty())
    } else {
        match (exp_codes(tv, v.drop_last()), exp_code(tv, v.last().node)) {
            (Some(a), Some(b)) => Some(a.push(Spanned { node: b, span: v.last().span })),
            _ => None,
        }
    }
}

/// Expanding by [`exp_code`] fails when it fails on a prefix.
proof fn lemma_exp_codes_prefix(tv: TableView, v: Seq<Spanned<ItemView>>, k: int)
    requires
        0 <= k <= v.len(),
        exp_codes(tv, v.subrange(0, k)) is None,
    ensures
        exp_codes(tv, v) is None,
    decreases v.len() - k,
{
    if k == v.len() {
        assert(v.subrange(0, k) =~= v);
    } else {
        assert(v.subrange(0, k + 1).drop_last() =~= v.subrange(0, k));
        lemma_exp_codes_prefix(tv, v, k + 1);
    }
}

/// Expanding a module body fails when it fails on a prefix.
proof fn lemma_exp_body_prefix(tv: TableView, v: Seq<Spanned<ItemView>>, k: int)
    requires
        0 <= k <= v.len(),
        exp_body(tv, v.subrange(0, k)) is None,
    ensures
        exp_body(tv, v) is None,
    decreases v.len() - k,
{
    if k == v.len() {
        assert(v.subrange(0, k) =~= v);
    } else {
        assert(v.subrange(0, k + 1).drop_last() =~= v.subrange(0, k));
        lemma_exp_body_prefix(tv, v, k + 1);
    }
}

/// One more member of a module body expanded.
proof fn lemma_exp_body_step(tv: TableView, v: Seq<Spanned<ItemView>>, k: int, a: Seq<Spanned<ItemView>>, b: Seq<Spanned<ItemView>>)
    requires
        0 <= k < v.len(),
        exp_body(tv, v.subrange(0, k)) == Some(a),
        exp_member(tv, v[k]) == Some(b),
    ensures
        exp_body(tv, v.subrange(0, k + 1)) == Some(a + b),
{
    assert(v.subrange(0, k + 1).drop_last() =~= v.subrange(0, k));
    assert(v.subrange(0, k + 1).last() == v[k]);
}

/// A member that fails to expand makes the body fail.
proof fn lemma_exp_body_fails(tv: TableView, v: Seq<Spanned<ItemView>>, k: int)
    requires
        0 <= k < v.len(),
        exp_member(tv, v[k]) is None,
    ensures
        exp_body(tv, v) is None,
{
    assert(v.subrange(0, k + 1).drop_last() =~= v.subrange(0, k));
    assert(v.subrange(0, k + 1).last() == v[k]);
    assert(exp_body(tv, v.subrange(0, k + 1)) is None);
    lemma_exp_body_prefix(tv, v, k + 1);
}

/// A list of items, each expanded by [`expand_code`].
#[verifier::loop_isolation(false)]
pub(crate) fn expand_codes(items: Vec<Spanned<Item>>, macros: &MacroTable) -> (r: Result<Vec<Spanned<Item>>, AeviaError>)
    ensures
        match r {
            Ok(v) => exp_codes(table_view(*macros), items_view(items@)) == Some(items_view(v@)),
            Err(_) => exp_codes(table_view(*macros), items_view(items@)) is None,
        },
{
    let ghost tv = table_view(*macros);
    let ghost orig = items@;
    let ghost ov = items_view(orig);
    proof {
        lemma_items_view_index(orig);
        assert(ov.subrange(0, 0) =~= Seq::<Spanned<ItemView>>::empty());
        assert(items_view(Seq::<Spanned<Item>>::empty()) =~= Seq::<Spanned<ItemView>>::empty());
    }
    let mut rest = items;
    let mut out: Vec<Spanned<Item>> = Vec::new();
    while rest.len() > 0
        invariant
            tv == table_view(*macros),
            ov == items_view(orig),
            ov.len() == orig.len(),
            forall|j: int| 0 <= j < orig.len() ==> #[trigger] ov[j] == item_view(orig[j]),
            out@.len() + rest@.len() == orig.len(),
            rest@ == orig.subrange(out@.len() as int, orig.len() as int),
            exp_codes(tv, ov.subrange(0, out@.len() as int)) == Some(items_view(out@)),
        decreases rest@.len(),
    {
        let i = out.len();
        let x = rest.remove(0);
        proof {
            assert(x == orig[i as int]);
            assert(ov.subrange(0, i + 1).drop_last() =~= ov.subrange(0, i as int));
            assert(ov.subrange(0, i + 1).last() == ov[i as int]);
        }
        let Spanned { node, span } = x;
        let r = expand_code(node, macros);
        match r {
            Ok(n) => {
                let sn = Spanned { node: n, span };
                proof {
                    lemma_items_view_push(out@, sn);
                }
                out.push(sn);
            },
            Err(e) => {
                proof {
                    assert(exp_codes(tv, ov.subrange(0, i + 1)) is None);
                    lemma_exp_codes_prefix(tv, ov, i + 1);
                }
                return Err(e);
            },
        }
        proof {
            assert(rest@ =~= orig.subrange(out@.len() as int, orig.len() as int));
        }
    }
    proof {
        assert(ov.subrange(0, ov.len() as int) =~= ov);
    }
    Ok(out)
}

/// One member of a module body expanded (see [`exp_member`]).
fn expand_member(m: Spanned<Item>, macros: &MacroTable) -> (r: Result<Vec<Spanned<Item>>, AeviaError>)
    ensures
        match r {
            Ok(v) => exp_member(table_view(*macros), item_view(m)) == Some(items_view(v@)),
            Err(_) => exp_member(table_view(*macros), item_view(m)) is None,
        },
    decreases m, 0int,
{
    let Spanned { node, span } = m;
    match node {
        Item::MacroCall { name, args } => match apply_macro_items(name.as_str(), args.as_str(), macros) {
            Ok(items) => expand_codes(items, macros),
            Err(e) => Err(e),
        },
        other => {
            proof {
                assert(decreases_to!(m => m.node));
            }
            match expand_item(other, macros) {
                Ok(n) => {
                    let mut v: Vec<Spanned<Item>> = Vec::new();
                    let sn = Spanned { node: n, span };
                    proof {
                        lemma_items_view_push(v@, sn);
                        assert(items_view(v@) =~= Seq::<Spanned<ItemView>>::empty());
                    }
                    v.push(sn);
                    proof {
                        assert(items_view(v@) =~= seq![item_view(sn)]);
                    }
                    Ok(v)
                },
                Err(e) => Err(e),
            }
        },
    }
}

/// The members of an inline module's body expanded (see [`exp_body`]).
#[verifier::loop_isolation(false)]
#[verifier::rlimit(100)]
pub(crate) fn expand_body(members: Vec<Spanned<Item>>, macros: &MacroTable) -> (r: Result<Vec<Spanned<Item>>, AeviaError>)
    ensures
        match r {
            Ok(v) => exp_body(table_view(*macros), items_view(members@)) == Some(items_view(v@)),
            Err(_) => exp_body(table_view(*macros), items_view(members@)) is None,
        },
    decreases members, 1int,
{
    let ghost tv = table_view(*macros);
    let ghost m0 = members;
    let ghost orig = members@;
    let ghost ov = items_view(orig);
    proof {
        lemma_items_view_index(orig);
        assert(ov.subrange(0, 0) =~= Seq::<Spanned<ItemView>>::empty());
        assert(items_view(Seq::<Spanned<Item>>::empty()) =~= Seq::<Spanned<ItemView>>::empty());
        assert(decreases_to!(m0 => m0@));
    }
    let mut rest = members;
    let mut out: Vec<Spanned<Item>> = Vec::new();
    let ghost mut done: int = 0;
    while rest.len() > 0
        invariant
            tv == table_view(*macros),
            ov == items_view(orig),
            ov.len() == orig.len(),
            m0@ == orig,
            forall|j: int| 0 <= j < orig.len() ==> #[trigger] ov[j] == item_view(orig[j]),
            0 <= done <= orig.len(),
            rest@ == orig.subrange(done, orig.len() as int),
            exp_body(tv, ov.subrange(0, done)) == Some(items_view(out@)),
        decreases rest@.len(),
    {
        let x = rest.remove(0);
        proof {
            assert(x == orig[done]);
            assert(decreases_to!(m0 => m0@));
            assert(decreases_to!(m0@ => m0@[done]));
        }
        let ghost xv = item_view(x);
        let more = expand_member(x, macros);
        match more {
            Ok(mut v) => {
                let ghost before = out@;
                let ghost mv = v@;
                proof {
                    lemma_exp_body_step(tv, ov, done, items_view(before), items_view(mv));
                }
                out.append(&mut v);
                proof {
                    assert(out@ =~= before + mv);
                    lemma_items_view_append(before, mv);
                }
            },
            Err(e) => {
                proof {
                    lemma_exp_body_fails(tv, ov, done);
                }
                return Err(e);
            },
        }
        proof {
            done = done + 1;
            assert(rest@ =~= orig.subrange(done, orig.len() as int));
        }
    }
    proof {
        assert(ov.subrange(0, ov.len() as int) =~= ov);
    }
    Ok(out)
}

} // verus!
