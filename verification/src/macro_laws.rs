//! What macro expansion leaves behind: when no macro expands to text that
//! itself holds an invocation, no invocation is left anywhere in the file.
use vstd::prelude::*;
use crate::ast::{ArmView, BodyView, ExprView, Item, ItemView, Spanned, StmtView, item_view};
use crate::macro_bodies::{exp_body, exp_codes, exp_member};
use crate::macro_expand::{
    exp_arms, exp_code, exp_e, exp_es, exp_fields, exp_item, exp_items, exp_sp, exp_st, exp_sts, expanded_items,
    invocation, invocation_items, items_have, splice, splice_one, table_of, TableView,
};

verus! {

/// Whether an expression holds no invocation.
pub open spec fn e_free(e: ExprView) -> bool
    decreases e,
{
    match e {
        ExprView::MacroCall(..) => false,
        ExprView::BinaryOp(_, l, r) => sp_free(*l) && sp_free(*r),
        ExprView::UnaryOp(_, x) => sp_free(*x),
        ExprView::Call(_, args) => es_free(args),
        ExprView::Block(stmts) => sts_free(stmts),
        ExprView::If(c, t, eb) => sp_free(*c) && sp_free(*t) && match eb {
            Some(b) => sp_free(*b),
            None => true,
        },
        ExprView::Loop(body) => sts_free(body),
        ExprView::While(c, body) => sp_free(*c) && sts_free(body),
        ExprView::For(_, st, en, body) => sp_free(*st) && sp_free(*en) && sts_free(body),
        ExprView::Match(scr, arms) => sp_free(*scr) && arms_free(arms),
        ExprView::UnsafeTransmute(x, _, _) => sp_free(*x),
        ExprView::Print(x) => sp_free(*x),
        ExprView::StructLit(_, fields) => fields_free(fields),
        ExprView::FieldAccess(x, _) => sp_free(*x),
        ExprView::Literal(..) | ExprView::Variable(_) | ExprView::Log(_) => true,
    }
}

/// Whether a spanned expression holds no invocation.
pub open spec fn sp_free(s: Spanned<ExprView>) -> bool
    decreases s,
{
    e_free(s.node)
}

/// Whether no expression of a list holds an invocation.
pub open spec fn es_free(v: Seq<Spanned<ExprView>>) -> bool
    decreases v,
{
    if v.len() == 0 { true } else { es_free(v.drop_last()) && sp_free(v.last()) }
}

/// Whether a statement holds no invocation.
pub open spec fn st_free(st: StmtView) -> bool
    decreases st,
{
    match st {
        StmtView::Let(_, _, init, _) => sp_free(init),
        StmtView::Assign(_, v) => sp_free(v),
        StmtView::Expr(e) => sp_free(e),
        StmtView::Break | StmtView::Continue => true,
    }
}

/// Whether no statement of a list holds an invocation.
pub open spec fn sts_free(v: Seq<Spanned<StmtView>>) -> bool
    decreases v,
{
    if v.len() == 0 { true } else { sts_free(v.drop_last()) && st_free(v.last().node) }
}

/// Whether no match arm's body holds an invocation.
pub open spec fn arms_free(v: Seq<ArmView>) -> bool
    decreases v,
{
    if v.len() == 0 { true } else { arms_free(v.drop_last()) && sp_free(v.last().body) }
}

/// Whether no field value of a struct literal holds an invocation.
pub open spec fn fields_free(v: Seq<(Seq<char>, Spanned<ExprView>)>) -> bool
    decreases v,
{
    if v.len() == 0 { true } else { fields_free(v.drop_last()) && sp_free(v.last().1) }
}

/// Whether an item is no invocation and holds none: in a function body, a
/// constant's value or an inline module's body.
pub open spec fn item_free(it: ItemView) -> bool
    decreases it, 1int,
{
    match it {
        ItemView::MacroCall(..) => false,
        ItemView::Function(_, _, _, body, _, _, _) => match body {
            BodyView::Expression(e) => sp_free(e),
            BodyView::Block(stmts) => sts_free(stmts),
        },
        ItemView::Const(_, _, value, _, _) => sp_free(value),
        ItemView::Module(_, Some(body), _, _) => items_free(body),
        _ => true,
    }
}

/// Whether no item of a list is or holds an invocation.
pub open spec fn items_free(v: Seq<Spanned<ItemView>>) -> bool
    decreases v, 0int,
{
    if v.len() == 0 { true } else { items_free(v.drop_last()) && item_free(v.last().node) }
}

/// Whether every text the macros of a table expand to, read as an
/// expression or as items, holds no invocation.
pub open spec fn expansions_free(tv: TableView) -> bool {
    &&& forall|n: Seq<char>, a: Seq<char>| #![trigger invocation(tv, n, a)]
        match invocation(tv, n, a) {
            Some(x) => e_free(x),
            None => true,
        }
    &&& forall|n: Seq<char>, a: Seq<char>| #![trigger invocation_items(tv, n, a)]
        match invocation_items(tv, n, a) {
            Some(v) => items_free(v),
            None => true,
        }
}

proof fn lemma_exp_e_free(tv: TableView, e: ExprView)
    requires
        expansions_free(tv),
    ensures
        match exp_e(tv, e) {
            Some(x) => e_free(x),
            None => true,
        },
    decreases e,
{
    match e {
        ExprView::MacroCall(n, a) => {
            assert(exp_e(tv, e) == invocation(tv, n, a));
        },
        ExprView::BinaryOp(_, l, r) => {
            lemma_exp_sp_free(tv, *l);
            lemma_exp_sp_free(tv, *r);
        },
        ExprView::UnaryOp(_, x) => lemma_exp_sp_free(tv, *x),
        ExprView::Call(_, args) => lemma_exp_es_free(tv, args),
        ExprView::Block(stmts) => lemma_exp_sts_free(tv, stmts),
        ExprView::If(c, t, eb) => {
            lemma_exp_sp_free(tv, *c);
            lemma_exp_sp_free(tv, *t);
            match eb {
                Some(b) => lemma_exp_sp_free(tv, *b),
                None => {},
            }
        },
        ExprView::Loop(body) => lemma_exp_sts_free(tv, body),
        ExprView::While(c, body) => {
            lemma_exp_sp_free(tv, *c);
            lemma_exp_sts_free(tv, body);
        },
        ExprView::For(_, st, en, body) => {
            lemma_exp_sp_free(tv, *st);
            lemma_exp_sp_free(tv, *en);
            lemma_exp_sts_free(tv, body);
        },
        ExprView::Match(scr, arms) => {
            lemma_exp_sp_free(tv, *scr);
            lemma_exp_arms_free(tv, arms);
        },
        ExprView::UnsafeTransmute(x, _, _) => lemma_exp_sp_free(tv, *x),
        ExprView::Print(x) => lemma_exp_sp_free(tv, *x),
        ExprView::StructLit(_, fields) => lemma_exp_fields_free(tv, fields),
        ExprView::FieldAccess(x, _) => lemma_exp_sp_free(tv, *x),
        ExprView::Literal(..) | ExprView::Variable(_) | ExprView::Log(_) => {},
    }
}

proof fn lemma_exp_sp_free(tv: TableView, s: Spanned<ExprView>)
    requires
        expansions_free(tv),
    ensures
        match exp_sp(tv, s) {
            Some(x) => sp_free(x),
            None => true,
        },
    decreases s,
{
    lemma_exp_e_free(tv, s.node);
}

proof fn lemma_exp_es_free(tv: TableView, v: Seq<Spanned<ExprView>>)
    requires
        expansions_free(tv),
    ensures
        match exp_es(tv, v) {
            Some(x) => es_free(x),
            None => true,
        },
    decreases v,
{
    if v.len() > 0 {
        lemma_exp_es_free(tv, v.drop_last());
        lemma_exp_sp_free(tv, v.last());
        match (exp_es(tv, v.drop_last()), exp_sp(tv, v.last())) {
            (Some(a), Some(b)) => {
                assert(a.push(b).drop_last() =~= a);
            },
            _ => {},
        }
    }
}

proof fn lemma_exp_st_free(tv: TableView, st: StmtView)
    requires
        expansions_free(tv),
    ensures
        match exp_st(tv, st) {
            Some(x) => st_free(x),
            None => true,
        },
    decreases st,
{
    match st {
        StmtView::Let(_, _, init, _) => lemma_exp_sp_free(tv, init),
        StmtView::Assign(_, v) => lemma_exp_sp_free(tv, v),
        StmtView::Expr(e) => lemma_exp_sp_free(tv, e),
        StmtView::Break | StmtView::Continue => {},
    }
}

proof fn lemma_exp_sts_free(tv: TableView, v: Seq<Spanned<StmtView>>)
    requires
        expansions_free(tv),
    ensures
        match exp_sts(tv, v) {
            Some(x) => sts_free(x),
            None => true,
        },
    decreases v,
{
    if v.len() > 0 {
        lemma_exp_sts_free(tv, v.drop_last());
        lemma_exp_st_free(tv, v.last().node);
        match (exp_sts(tv, v.drop_last()), exp_st(tv, v.last().node)) {
            (Some(a), Some(b)) => {
                let s = Spanned { node: b, span: v.last().span };
                assert(a.push(s).drop_last() =~= a);
            },
            _ => {},
        }
    }
}

proof fn lemma_exp_arms_free(tv: TableView, v: Seq<ArmView>)
    requires
        expansions_free(tv),
    ensures
        match exp_arms(tv, v) {
            Some(x) => arms_free(x),
            None => true,
        },
    decreases v,
{
    if v.len() > 0 {
        lemma_exp_arms_free(tv, v.drop_last());
        lemma_exp_sp_free(tv, v.last().body);
        match (exp_arms(tv, v.drop_last()), exp_sp(tv, v.last().body)) {
            (Some(a), Some(b)) => {
                let arm = ArmView { pattern: v.last().pattern, body: b };
                assert(a.push(arm).drop_last() =~= a);
            },
            _ => {},
        }
    }
}

proof fn lemma_exp_fields_free(tv: TableView, v: Seq<(Seq<char>, Spanned<ExprView>)>)
    requires
        expansions_free(tv),
    ensures
        match exp_fields(tv, v) {
            Some(x) => fields_free(x),
            None => true,
        },
    decreases v,
{
    if v.len() > 0 {
        lemma_exp_fields_free(tv, v.drop_last());
        lemma_exp_sp_free(tv, v.last().1);
        match (exp_fields(tv, v.drop_last()), exp_sp(tv, v.last().1)) {
            (Some(a), Some(b)) => {
                assert(a.push((v.last().0, b)).drop_last() =~= a);
            },
            _ => {},
        }
    }
}

/// An item that is no invocation expands, by [`exp_code`], to one that holds
/// none, provided an inline module among them holds none to begin with.
proof fn lemma_exp_code_free(tv: TableView, it: ItemView)
    requires
        expansions_free(tv),
        !(it is MacroCall),
        it is Module ==> item_free(it),
    ensures
        match exp_code(tv, it) {
            Some(x) => item_free(x),
            None => true,
        },
{
    match it {
        ItemView::Function(_, _, _, body, _, _, _) => match body {
            BodyView::Expression(e) => lemma_exp_sp_free(tv, e),
            BodyView::Block(stmts) => lemma_exp_sts_free(tv, stmts),
        },
        ItemView::Const(_, _, value, _, _) => lemma_exp_sp_free(tv, value),
        _ => {},
    }
}

proof fn lemma_exp_codes_free(tv: TableView, v: Seq<Spanned<ItemView>>)
    requires
        expansions_free(tv),
        items_free(v),
    ensures
        match exp_codes(tv, v) {
            Some(x) => items_free(x),
            None => true,
        },
    decreases v.len(),
{
    if v.len() > 0 {
        let front = v.drop_last();
        let it = v.last().node;
        assert(items_free(front) && item_free(it));
        lemma_exp_codes_free(tv, front);
        lemma_exp_code_free(tv, it);
        let ea = exp_codes(tv, front);
        let eb = exp_code(tv, it);
        if ea is Some && eb is Some {
            let a = ea->0;
            let s = Spanned { node: eb->0, span: v.last().span };
            assert(exp_codes(tv, v) == Some(a.push(s)));
            assert(a.push(s).drop_last() =~= a);
            assert(items_free(a.push(s)));
        } else {
            assert(exp_codes(tv, v) is None);
        }
    }
}

/// Two lists that hold no invocation, joined, hold none.
proof fn lemma_items_free_append(a: Seq<Spanned<ItemView>>, b: Seq<Spanned<ItemView>>)
    requires
        items_free(a),
        items_free(b),
    ensures
        items_free(a + b),
    decreases b.len(),
{
    if b.len() == 0 {
        assert(a + b =~= a);
    } else {
        lemma_items_free_append(a, b.drop_last());
        assert((a + b).drop_last() =~= a + b.drop_last());
        assert((a + b).last() == b.last());
    }
}

/// No item of a list that holds no invocation is one.
proof fn lemma_items_free_index(v: Seq<Spanned<ItemView>>, i: int)
    requires
        items_free(v),
        0 <= i < v.len(),
    ensures
        item_free(v[i].node),
    decreases v.len(),
{
    if i < v.len() - 1 {
        lemma_items_free_index(v.drop_last(), i);
        assert(v.drop_last()[i] == v[i]);
    }
}

proof fn lemma_exp_item_free(tv: TableView, it: ItemView)
    requires
        expansions_free(tv),
        !(it is MacroCall),
    ensures
        match exp_item(tv, it) {
            Some(x) => item_free(x),
            None => true,
        },
    decreases it, 2int,
{
    match it {
        ItemView::Module(_, Some(body), _, _) => lemma_exp_body_free(tv, body),
        _ => lemma_exp_code_free(tv, it),
    }
}

proof fn lemma_exp_body_free(tv: TableView, v: Seq<Spanned<ItemView>>)
    requires
        expansions_free(tv),
    ensures
        match exp_body(tv, v) {
            Some(x) => items_free(x),
            None => true,
        },
    decreases v, 1int,
{
    if v.len() > 0 {
        lemma_exp_body_free(tv, v.drop_last());
        lemma_exp_member_free(tv, v.last());
        match (exp_body(tv, v.drop_last()), exp_member(tv, v.last())) {
            (Some(a), Some(b)) => lemma_items_free_append(a, b),
            _ => {},
        }
    }
}

/// An item-level invocation inside a module body expands to items that hold
/// no invocation.
proof fn lemma_exp_invocation_member_free(tv: TableView, n: Seq<char>, a: Seq<char>)
    requires
        expansions_free(tv),
    ensures
        match invocation_items(tv, n, a) {
            Some(items) => match exp_codes(tv, items) {
                Some(x) => items_free(x),
                None => true,
            },
            None => true,
        },
{
    if let Some(items) = invocation_items(tv, n, a) {
        lemma_exp_codes_free(tv, items);
    }
}

/// A single item that holds no invocation makes a list that holds none.
proof fn lemma_items_free_one(s: Spanned<ItemView>)
    requires
        item_free(s.node),
    ensures
        items_free(seq![s]),
{
    let one = seq![s];
    assert(one.len() == 1);
    assert(one.drop_last() =~= Seq::<Spanned<ItemView>>::empty());
    assert(items_free(one.drop_last()));
    assert(one.last() == s);
}

#[verifier::spinoff_prover]
proof fn lemma_exp_member_free(tv: TableView, m: Spanned<ItemView>)
    requires
        expansions_free(tv),
    ensures
        match exp_member(tv, m) {
            Some(x) => items_free(x),
            None => true,
        },
    decreases m, 0int,
{
    if let ItemView::MacroCall(n, a) = m.node {
        lemma_exp_invocation_member_free(tv, n, a);
    } else {
        lemma_exp_item_free(tv, m.node);
        if let Some(x) = exp_item(tv, m.node) {
            lemma_items_free_one(Spanned { node: x, span: m.span });
        }
    }
}

proof fn lemma_exp_items_free(tv: TableView, v: Seq<Spanned<ItemView>>)
    requires
        expansions_free(tv),
        forall|i: int| 0 <= i < v.len() ==> !(#[trigger] v[i].node is MacroCall),
    ensures
        match exp_items(tv, v) {
            Some(x) => items_free(x),
            None => true,
        },
    decreases v.len(),
{
    if v.len() > 0 {
        assert(forall|i: int| 0 <= i < v.drop_last().len() ==> v.drop_last()[i] == v[i]);
        lemma_exp_items_free(tv, v.drop_last());
        assert(v.last() == v[v.len() - 1]);
        lemma_exp_item_free(tv, v.last().node);
        match (exp_items(tv, v.drop_last()), exp_item(tv, v.last().node)) {
            (Some(a), Some(b)) => {
                let s = Spanned { node: b, span: v.last().span };
                assert(a.push(s).drop_last() =~= a);
            },
            _ => {},
        }
    }
}

/// Splicing in the item-level expansions leaves no item that is an invocation.
proof fn lemma_splice_no_invocation(tv: TableView, items: Seq<Spanned<Item>>)
    requires
        expansions_free(tv),
    ensures
        match splice(tv, items) {
            Some(sp) => forall|i: int| 0 <= i < sp.len() ==> !(#[trigger] sp[i].node is MacroCall),
            None => true,
        },
    decreases items.len(),
{
    if items.len() > 0 {
        lemma_splice_no_invocation(tv, items.drop_last());
        let it = items.last();
        match (splice(tv, items.drop_last()), splice_one(tv, it)) {
            (Some(front), Some(more)) => {
                assert forall|i: int| 0 <= i < more.len() implies !(#[trigger] more[i].node is MacroCall) by {
                    match it.node {
                        Item::MacroCall { name, args } => {
                            assert(invocation_items(tv, name@, args@) == Some(more));
                            lemma_items_free_index(more, i);
                        },
                        _ => {
                            assert(more[i] == item_view(it));
                        },
                    }
                }
                assert forall|i: int| 0 <= i < (front + more).len() implies !(#[trigger] (front + more)[i].node is MacroCall) by {
                    if i < front.len() {
                        assert((front + more)[i] == front[i]);
                    } else {
                        assert((front + more)[i] == more[i - front.len()]);
                    }
                }
            },
            _ => {},
        }
    }
}

/// When no macro of a file expands to text that holds an invocation,
/// expanding a file that holds invocations, when it succeeds, leaves none
/// anywhere: not as an item, in a function body, in a constant's value, nor
/// in an inline module's body at any depth.  (A file that holds no
/// invocation is left as it is.)
pub proof fn lemma_no_invocation_remains(items: Seq<Spanned<Item>>)
    requires
        expansions_free(table_of(items)),
    ensures
        items_have(items, 0) ==> match expanded_items(items) {
            Some(out) => items_free(out),
            None => true,
        },
{
    let tv = table_of(items);
    if items_have(items, 0) {
        lemma_splice_no_invocation(tv, items);
        match splice(tv, items) {
            Some(sp) => lemma_exp_items_free(tv, sp),
            None => {},
        }
    }
}

} // verus!
