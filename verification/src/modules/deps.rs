//! The modules a source file depends on: those it declares with `mod name;`
//! and the first segments of its `use` paths, in text order without repeats.
use vstd::prelude::*;
use crate::ast::{Item, SourceFile, Spanned};
use crate::modules::resolve::texts;
use crate::text::{chars_of, copy_string};

verus! {

/// Lexicographic order of texts, character by character.
pub open spec fn text_lt(a: Seq<char>, b: Seq<char>) -> bool
    decreases a.len(),
{
    if a.len() == 0 {
        b.len() > 0
    } else if b.len() == 0 {
        false
    } else if a[0] != b[0] {
        (a[0] as u32) < (b[0] as u32)
    } else {
        text_lt(a.drop_first(), b.drop_first())
    }
}

/// Each text comes strictly before the next: ordered and without repeats.
pub open spec fn strictly_sorted(s: Seq<Seq<char>>) -> bool {
    forall|i: int, j: int| 0 <= i < j < s.len() ==> text_lt(s[i], s[j])
}

/// The module name an item brings in: a `mod name;` declaration without a
/// body, or the first segment of a `use` path.
pub open spec fn dep_of(item: Item) -> Option<Seq<char>> {
    match item {
        Item::Module { name, body: None, .. } => Some(name@),
        Item::Use { path, .. } => if path@.len() > 0 { Some(path@[0]@) } else { None },
        _ => None,
    }
}

/// The names that the items of a file bring in.
pub open spec fn dep_names(items: Seq<Spanned<Item>>) -> Set<Seq<char>> {
    Set::new(|s: Seq<char>| exists|i: int| 0 <= i < items.len() && dep_of(#[trigger] items[i].node) == Some(s))
}

proof fn lemma_lt_irreflexive(a: Seq<char>)
    ensures
        !text_lt(a, a),
    decreases a.len(),
{
    if a.len() > 0 {
        lemma_lt_irreflexive(a.drop_first());
    }
}

proof fn lemma_lt_total(a: Seq<char>, b: Seq<char>)
    ensures
        a == b || text_lt(a, b) || text_lt(b, a),
    decreases a.len(),
{
    if a.len() > 0 && b.len() > 0 && a[0] == b[0] {
        lemma_lt_total(a.drop_first(), b.drop_first());
        if a.drop_first() == b.drop_first() {
            assert(a =~= seq![a[0]] + a.drop_first());
            assert(b =~= seq![b[0]] + b.drop_first());
        }
    } else if a.len() == 0 && b.len() == 0 {
        assert(a =~= b);
    } else if a.len() > 0 && b.len() > 0 {
        vstd::utf8::char_u32_cast(a[0], a[0] as u32);
        vstd::utf8::char_u32_cast(b[0], b[0] as u32);
        assert((a[0] as u32) != (b[0] as u32));
    }
}

proof fn lemma_lt_transitive(a: Seq<char>, b: Seq<char>, c: Seq<char>)
    requires
        text_lt(a, b),
        text_lt(b, c),
    ensures
        text_lt(a, c),
    decreases a.len(),
{
    if a.len() > 0 && b.len() > 0 && c.len() > 0 && a[0] == b[0] && b[0] == c[0] {
        lemma_lt_transitive(a.drop_first(), b.drop_first(), c.drop_first());
    }
}

/// Whether `a` comes before `b` (see [`text_lt`]).
pub fn text_less(a: &str, b: &str) -> (r: bool)
    ensures
        r == text_lt(a@, b@),
{
    let va = chars_of(a);
    let vb = chars_of(b);
    proof {
        assert(a@.subrange(0, a@.len() as int) =~= a@);
        assert(b@.subrange(0, b@.len() as int) =~= b@);
    }
    let mut i: usize = 0;
    while i < va.len() && i < vb.len()
        invariant
            va@ == a@,
            vb@ == b@,
            i <= va@.len(),
            i <= vb@.len(),
            text_lt(a@, b@) == text_lt(a@.subrange(i as int, a@.len() as int), b@.subrange(i as int, b@.len() as int)),
        decreases va@.len() - i,
    {
        proof {
            let ra = a@.subrange(i as int, a@.len() as int);
            let rb = b@.subrange(i as int, b@.len() as int);
            assert(ra.drop_first() =~= a@.subrange(i + 1, a@.len() as int));
            assert(rb.drop_first() =~= b@.subrange(i + 1, b@.len() as int));
            assert(ra[0] == a@[i as int]);
            assert(rb[0] == b@[i as int]);
        }
        if va[i] != vb[i] {
            return (va[i] as u32) < (vb[i] as u32);
        }
        i = i + 1;
    }
    i == va.len() && i < vb.len()
}

/// Adds `name` to a strictly sorted list, keeping it strictly sorted.
fn insert_sorted(list: &mut Vec<String>, name: &str)
    requires
        strictly_sorted(texts(old(list)@)),
    ensures
        strictly_sorted(texts(final(list)@)),
        texts(final(list)@).to_set() == texts(old(list)@).to_set().insert(name@),
{
    let ghost l0 = texts(list@);
    let mut p: usize = 0;
    while p < list.len() && text_less(list[p].as_str(), name)
        invariant
            p <= list@.len(),
            l0 == texts(list@),
            forall|k: int| 0 <= k < p ==> text_lt(#[trigger] l0[k], name@),
        decreases list@.len() - p,
    {
        p = p + 1;
    }
    if p < list.len() && !text_less(name, list[p].as_str()) {
        proof {
            lemma_lt_total(l0[p as int], name@);
            assert(l0[p as int] == name@);
            assert(l0.to_set().insert(name@) =~= l0.to_set());
        }
        return;
    }
    let mut s = String::new();
    crate::text::push_str(&mut s, name);
    list.insert(p, s);
    proof {
        let l1 = texts(list@);
        assert(l1 =~= l0.insert(p as int, name@));
        assert forall|i: int, j: int| 0 <= i < j < l1.len() implies text_lt(l1[i], l1[j]) by {
            if j < p {
                assert(l1[i] == l0[i] && l1[j] == l0[j]);
            } else if j == p {
                assert(l1[i] == l0[i]);
            } else if i == p {
                assert(l1[j] == l0[j - 1]);
                if j - 1 > p {
                    lemma_lt_total(l0[p as int], name@);
                    lemma_lt_transitive(name@, l0[p as int], l0[j - 1]);
                } else {
                    lemma_lt_total(l0[p as int], name@);
                }
            } else if i < p {
                assert(l1[i] == l0[i] && l1[j] == l0[j - 1]);
            } else {
                assert(l1[i] == l0[i - 1] && l1[j] == l0[j - 1]);
            }
        }
        assert(l1.to_set() =~= l0.to_set().insert(name@)) by {
            assert forall|x: Seq<char>| l1.to_set().contains(x) implies l0.to_set().insert(name@).contains(x) by {
                let i = choose|i: int| 0 <= i < l1.len() && l1[i] == x;
                if i < p {
                    assert(l0[i] == x);
                } else if i > p {
                    assert(l0[i - 1] == x);
                }
            }
            assert forall|x: Seq<char>| l0.to_set().insert(name@).contains(x) implies l1.to_set().contains(x) by {
                if x == name@ {
                    assert(l1[p as int] == x);
                } else {
                    let i = choose|i: int| 0 <= i < l0.len() && l0[i] == x;
                    if i < p {
                        assert(l1[i] == x);
                    } else {
                        assert(l1[i + 1] == x);
                    }
                }
            }
        }
    }
}

/// The modules `file` depends on, ordered and without repeats.
pub fn module_deps(file: &SourceFile) -> (r: Vec<String>)
    ensures
        strictly_sorted(texts(r@)),
        texts(r@).to_set() == dep_names(file.items@),
{
    let mut out: Vec<String> = Vec::new();
    let mut i: usize = 0;
    proof {
        assert(texts(out@).to_set() =~= Set::<Seq<char>>::empty());
        assert(dep_names(file.items@.subrange(0, 0)) =~= Set::<Seq<char>>::empty());
    }
    while i < file.items.len()
        invariant
            i <= file.items@.len(),
            strictly_sorted(texts(out@)),
            texts(out@).to_set() == dep_names(file.items@.subrange(0, i as int)),
        decreases file.items@.len() - i,
    {
        let ghost items = file.items@;
        let ghost before = dep_names(items.subrange(0, i as int));
        let ghost after = dep_names(items.subrange(0, i + 1));
        match &file.items[i].node {
            Item::Module { name, body: None, .. } => {
                insert_sorted(&mut out, name.as_str());
            },
            Item::Use { path, .. } => {
                if path.len() > 0 {
                    insert_sorted(&mut out, path[0].as_str());
                }
            },
            _ => {},
        }
        proof {
            let pre = items.subrange(0, i + 1);
            assert forall|x: Seq<char>| after.contains(x) <==> (before.contains(x) || dep_of(items[i as int].node) == Some(x)) by {
                if after.contains(x) {
                    let k = choose|k: int| 0 <= k < pre.len() && dep_of(#[trigger] pre[k].node) == Some(x);
                    if k < i {
                        assert(items.subrange(0, i as int)[k] == pre[k]);
                    }
                }
                if before.contains(x) {
                    let k = choose|k: int| 0 <= k < i && dep_of(#[trigger] items.subrange(0, i as int)[k].node) == Some(x);
                    assert(pre[k] == items.subrange(0, i as int)[k]);
                }
                if dep_of(items[i as int].node) == Some(x) {
                    assert(pre[i as int] == items[i as int]);
                }
            }
            match dep_of(items[i as int].node) {
                Some(d) => assert(texts(out@).to_set() =~= after),
                None => assert(texts(out@).to_set() =~= after),
            }
        }
        i = i + 1;
    }
    proof {
        assert(file.items@.subrange(0, file.items@.len() as int) =~= file.items@);
    }
    out
}

} // verus!
