//! Formatting keeps the shape of a tensor annotation.
use vstd::prelude::*;
use crate::ast::{DimExpr, Spanned};
use crate::fmt::dim_expr_text;
use crate::parser::grammar::g_shape;
use crate::parser::lex::{ascii_digit, char_is, digit_end, digits_value, spec_is_whitespace, ws_end};
use crate::text::{digit_char, int_digits, nat_digits};
use crate::types::dim::shape_list;

verus! {

/// The number of ASCII digits at the end of `t`.
pub open spec fn trailing_digits(t: Seq<char>) -> nat
    decreases t.len(),
{
    if t.len() == 0 || !ascii_digit(t.last()) { 0 } else { 1 + trailing_digits(t.drop_last()) }
}

/// The decimal digits of a number are ASCII digits, at least one.
proof fn lemma_nat_digits_are_digits(n: nat)
    ensures
        nat_digits(n).len() >= 1,
        forall|i: int| 0 <= i < nat_digits(n).len() ==> ascii_digit(#[trigger] nat_digits(n)[i]),
    decreases n,
{
    if n >= 10 {
        lemma_nat_digits_are_digits((n / 10) as nat);
        let d = digit_char((n % 10) as int);
        assert(nat_digits(n) == nat_digits((n / 10) as nat).push(d));
        assert forall|i: int| 0 <= i < nat_digits(n).len() implies ascii_digit(#[trigger] nat_digits(n)[i]) by {
            if i < nat_digits(n).len() - 1 {
                assert(nat_digits(n)[i] == nat_digits((n / 10) as nat)[i]);
            }
        }
    }
}

/// A digit character stands for its value.
proof fn lemma_digit_char_value(d: int)
    requires
        0 <= d < 10,
    ensures
        digit_char(d) as int - '0' as int == d,
{
    if d == 0 {
        assert('0' as int - '0' as int == 0);
    } else if d == 1 {
        assert('1' as int - '0' as int == 1);
    } else if d == 2 {
        assert('2' as int - '0' as int == 2);
    } else if d == 3 {
        assert('3' as int - '0' as int == 3);
    } else if d == 4 {
        assert('4' as int - '0' as int == 4);
    } else if d == 5 {
        assert('5' as int - '0' as int == 5);
    } else if d == 6 {
        assert('6' as int - '0' as int == 6);
    } else if d == 7 {
        assert('7' as int - '0' as int == 7);
    } else if d == 8 {
        assert('8' as int - '0' as int == 8);
    } else {
        assert('9' as int - '0' as int == 9);
    }
}

/// The decimal digits of a number read back as that number.
proof fn lemma_nat_digits_value(n: nat)
    ensures
        digits_value(nat_digits(n)) == n,
    decreases n,
{
    if n < 10 {
        let t = nat_digits(n);
        assert(t.drop_last() =~= Seq::<char>::empty());
        assert(t.last() == digit_char(n as int));
        lemma_digit_char_value(n as int);
        assert(digits_value(t.drop_last()) == 0);
    } else {
        lemma_nat_digits_value((n / 10) as nat);
        let t = nat_digits(n);
        assert(t.drop_last() =~= nat_digits((n / 10) as nat));
        assert(t.last() == digit_char((n % 10) as int));
        lemma_digit_char_value((n % 10) as int);
        assert(n == 10 * (n / 10) + n % 10);
    }
}

/// Digits written after a text that does not end in a digit are exactly its
/// trailing digits.
proof fn lemma_trailing_digits_after(a: Seq<char>, d: Seq<char>)
    requires
        a.len() == 0 || !ascii_digit(a.last()),
        forall|i: int| 0 <= i < d.len() ==> ascii_digit(#[trigger] d[i]),
    ensures
        trailing_digits(a + d) == d.len(),
    decreases d.len(),
{
    if d.len() == 0 {
        assert(a + d =~= a);
    } else {
        assert((a + d).drop_last() =~= a + d.drop_last());
        assert((a + d).last() == d[d.len() - 1]);
        lemma_trailing_digits_after(a, d.drop_last());
    }
}

/// The text before the last dimension of a shape: nothing for one
/// dimension, else the earlier dimensions and `, `.
pub open spec fn shape_head(s: Seq<usize>) -> Seq<char> {
    if s.len() <= 1 { Seq::empty() } else { shape_list(s.drop_last()) + seq![',', ' '] }
}

/// A shape's text is its head and the digits of its last dimension, which
/// are its trailing digits.
proof fn lemma_shape_list_split(s: Seq<usize>)
    requires
        s.len() >= 1,
    ensures
        shape_list(s) == shape_head(s) + nat_digits(s.last() as nat),
        trailing_digits(shape_list(s)) == nat_digits(s.last() as nat).len(),
{
    lemma_nat_digits_are_digits(s.last() as nat);
    if s.len() == 1 {
        assert(shape_head(s) + nat_digits(s.last() as nat) =~= nat_digits(s[0] as nat));
    }
    let h = shape_head(s);
    if h.len() > 0 {
        assert(h.last() == ' ');
    }
    lemma_trailing_digits_after(h, nat_digits(s.last() as nat));
}

/// Different shapes have different texts.
pub proof fn lemma_shape_list_injective(s1: Seq<usize>, s2: Seq<usize>)
    requires
        shape_list(s1) == shape_list(s2),
    ensures
        s1 == s2,
    decreases s1.len(),
{
    let t = shape_list(s1);
    if s1.len() == 0 || s2.len() == 0 {
        if s1.len() > 0 {
            lemma_shape_list_split(s1);
            lemma_nat_digits_are_digits(s1.last() as nat);
        }
        if s2.len() > 0 {
            lemma_shape_list_split(s2);
            lemma_nat_digits_are_digits(s2.last() as nat);
        }
        assert(s1 =~= s2);
    } else {
        lemma_shape_list_split(s1);
        lemma_shape_list_split(s2);
        let d1 = nat_digits(s1.last() as nat);
        let d2 = nat_digits(s2.last() as nat);
        let h1 = shape_head(s1);
        let h2 = shape_head(s2);
        assert(d1.len() == d2.len());
        assert(h1.len() == h2.len());
        assert(d1 =~= t.subrange(h1.len() as int, t.len() as int));
        assert(d2 =~= t.subrange(h2.len() as int, t.len() as int));
        assert(h1 =~= t.subrange(0, h1.len() as int));
        assert(h2 =~= t.subrange(0, h2.len() as int));
        lemma_nat_digits_value(s1.last() as nat);
        lemma_nat_digits_value(s2.last() as nat);
        assert(s1.last() == s2.last());
        if s1.len() == 1 || s2.len() == 1 {
            assert(h1.len() == 0 && h2.len() == 0) by {
                if s1.len() > 1 {
                    assert(h1.len() >= 2);
                }
                if s2.len() > 1 {
                    assert(h2.len() >= 2);
                }
            }
            assert(s1.len() == 1 && s2.len() == 1) by {
                if s1.len() > 1 {
                    assert(h1.len() >= 2);
                }
                if s2.len() > 1 {
                    assert(h2.len() >= 2);
                }
            }
            assert(s1 =~= s2);
        } else {
            let f1 = shape_list(s1.drop_last());
            let f2 = shape_list(s2.drop_last());
            assert(f1 =~= h1.subrange(0, h1.len() - 2));
            assert(f2 =~= h2.subrange(0, h2.len() - 2));
            lemma_shape_list_injective(s1.drop_last(), s2.drop_last());
            assert(s1 =~= s1.drop_last().push(s1.last()));
            assert(s2 =~= s2.drop_last().push(s2.last()));
        }
    }
}

/// Formatting keeps a tensor annotation's shape: a tensor never formats
/// like its element unit alone, and two tensors over element units that
/// format alike format alike only when their shapes are equal.
pub proof fn lemma_tensor_text_keeps_shape(b1: Spanned<DimExpr>, s1: Vec<usize>, b2: Spanned<DimExpr>, s2: Vec<usize>)
    requires
        dim_expr_text(b1.node) == dim_expr_text(b2.node),
    ensures
        dim_expr_text(DimExpr::Tensor { base: Box::new(b1), shape: s1 }) != dim_expr_text(b1.node),
        dim_expr_text(DimExpr::Tensor { base: Box::new(b1), shape: s1 })
            == dim_expr_text(DimExpr::Tensor { base: Box::new(b2), shape: s2 }) ==> s1@ == s2@,
{
    reveal_strlit("[");
    reveal_strlit("]");
    let b = dim_expr_text(b1.node);
    let l1 = shape_list(s1@);
    let l2 = shape_list(s2@);
    let t1 = dim_expr_text(DimExpr::Tensor { base: Box::new(b1), shape: s1 });
    let t2 = dim_expr_text(DimExpr::Tensor { base: Box::new(b2), shape: s2 });
    assert(t1 == b + "["@ + l1 + "]"@);
    assert(t2 == b + "["@ + l2 + "]"@);
    assert(t1.len() == b.len() + l1.len() + 2);
    if t1 == t2 {
        assert(l1.len() == l2.len());
        assert(l1 =~= t1.subrange(b.len() + 1int, b.len() + 1int + l1.len()));
        assert(l2 =~= t2.subrange(b.len() + 1int, b.len() + 1int + l2.len()));
        lemma_shape_list_injective(s1@, s2@);
    }
}

/// A shape's text read from the front: the digits of the first dimension,
/// then `, ` and the text of the rest, if any.
proof fn lemma_shape_list_front(x: usize, r: Seq<usize>)
    ensures
        shape_list(seq![x] + r) == nat_digits(x as nat) + if r.len() == 0 {
            Seq::<char>::empty()
        } else {
            seq![',', ' '] + shape_list(r)
        },
    decreases r.len(),
{
    let s = seq![x] + r;
    if r.len() == 0 {
        assert(s =~= seq![x]);
        assert(nat_digits(x as nat) + Seq::<char>::empty() =~= nat_digits(x as nat));
    } else {
        assert(s.drop_last() =~= seq![x] + r.drop_last());
        assert(s.last() == r.last());
        lemma_shape_list_front(x, r.drop_last());
        if r.len() == 1 {
            assert(r.drop_last() =~= Seq::<usize>::empty());
            assert(shape_list(r) == nat_digits(r[0] as nat));
            assert(r[0] == r.last());
            assert(shape_list(s) =~= nat_digits(x as nat) + (seq![',', ' '] + shape_list(r)));
        } else {
            assert(shape_list(s) =~= nat_digits(x as nat) + (seq![',', ' '] + shape_list(r)));
        }
    }
}

/// Whether `char::is_whitespace`, as its documentation gives it, classes the
/// characters of a shape's text: a space is whitespace, and digits, `,` and
/// `]` are not.
pub open spec fn shape_chars_classed() -> bool {
    &&& spec_is_whitespace(' ')
    &&& !spec_is_whitespace(',')
    &&& !spec_is_whitespace(']')
    &&& forall|c: char| ascii_digit(c) ==> !spec_is_whitespace(c)
}

/// A run of `k` digits at `q`, followed by the end or by a non-digit, ends
/// at `q + k`.
proof fn lemma_digit_run_end(t: Seq<char>, q: int, k: int)
    requires
        0 <= q,
        0 <= k,
        q + k <= t.len(),
        forall|i: int| q <= i < q + k ==> ascii_digit(#[trigger] t[i]),
        q + k == t.len() || !ascii_digit(t[q + k]),
    ensures
        digit_end(t, q) == q + k,
    decreases k,
{
    if k > 0 {
        lemma_digit_run_end(t, q + 1, k - 1);
    }
}

/// One step of the shape reader: a number at `q` (after the whitespace
/// from `p`) ending at `e`, followed by `]` or `,`.
proof fn lemma_shape_step(t: Seq<char>, p: int, q: int, e: int, x: usize, acc: Seq<usize>)
    requires
        0 <= p <= q < e < t.len(),
        ws_end(t, p) == q,
        digit_end(t, q) == e,
        digits_value(t.subrange(q, e)) == x,
        ws_end(t, e) == e,
        t[e] == ']' || t[e] == ',',
    ensures
        t[e] == ']' ==> g_shape(t, p, acc) == Some((acc.push(x), e + 1)),
        t[e] == ',' ==> g_shape(t, p, acc) == g_shape(t, e + 1, acc.push(x)),
{
}

/// Where the parts of `w + d + rest + "]"`, standing at `p`, lie in `t`.
proof fn lemma_shape_layout(t: Seq<char>, p: int, w: Seq<char>, d: Seq<char>, rest: Seq<char>)
    requires
        0 <= p <= t.len(),
        t.subrange(p, t.len() as int) == w + d + rest + seq![']'],
    ensures
        t.len() == p + w.len() + d.len() + rest.len() + 1,
        forall|i: int| 0 <= i < w.len() ==> t[p + i] == #[trigger] w[i],
        forall|i: int| 0 <= i < d.len() ==> t[p + w.len() + i] == #[trigger] d[i],
        t.subrange(p + w.len(), p + w.len() + d.len()) == d,
        rest.len() == 0 ==> t[p + w.len() + d.len()] == ']',
        rest.len() > 0 ==> t[p + w.len() + d.len()] == rest[0],
        rest.len() > 0 ==> t.subrange(p + w.len() + d.len() + 1, t.len() as int) == rest.subrange(1, rest.len() as int) + seq![']'],
{
    let u = w + d + rest + seq![']'];
    assert(t.subrange(p, t.len() as int).len() == t.len() - p);
    assert(u.len() == t.len() - p);
    assert forall|i: int| 0 <= i < u.len() implies t[p + i] == #[trigger] u[i] by {
        assert(t.subrange(p, t.len() as int)[i] == t[p + i]);
    }
    assert forall|i: int| 0 <= i < w.len() implies t[p + i] == #[trigger] w[i] by {
        assert(u[i] == w[i]);
    }
    assert forall|i: int| 0 <= i < d.len() implies t[p + w.len() + i] == #[trigger] d[i] by {
        assert(u[w.len() + i] == d[i]);
    }
    let sd = t.subrange(p + w.len(), p + w.len() + d.len());
    assert forall|i: int| 0 <= i < d.len() implies sd[i] == d[i] by {
        assert(sd[i] == t[p + w.len() + i]);
        assert(u[w.len() + i] == d[i]);
    }
    assert(sd =~= d);
    let k: int = (w.len() + d.len()) as int;
    assert(u[k] == if rest.len() == 0 { ']' } else { rest[0] });
    if rest.len() > 0 {
        let v = rest.subrange(1, rest.len() as int) + seq![']'];
        assert forall|i: int| 0 <= i < v.len() implies t.subrange(p + k + 1, t.len() as int)[i] == v[i] by {
            assert(u[k + 1 + i] == v[i]);
        }
        assert(t.subrange(p + k + 1, t.len() as int) =~= v);
    }
}

/// The shape reader reads a formatted shape, after at most one space and
/// followed by `]` and the end of the text, back as that shape.
#[verifier::rlimit(40)]
proof fn lemma_shape_reads_back_at(t: Seq<char>, p: int, sp: bool, s: Seq<usize>, acc: Seq<usize>)
    requires
        shape_chars_classed(),
        s.len() >= 1,
        0 <= p <= t.len(),
        t.subrange(p, t.len() as int) == (if sp { seq![' '] } else { Seq::<char>::empty() }) + shape_list(s) + seq![']'],
    ensures
        g_shape(t, p, acc) == Some((acc + s, t.len() as int)),
    decreases s.len(),
{
    let x = s[0];
    let r = s.subrange(1, s.len() as int);
    assert(s =~= seq![x] + r);
    lemma_shape_list_front(x, r);
    let d = nat_digits(x as nat);
    lemma_nat_digits_are_digits(x as nat);
    lemma_nat_digits_value(x as nat);
    let w: Seq<char> = if sp { seq![' '] } else { Seq::<char>::empty() };
    let rest: Seq<char> = if r.len() == 0 { Seq::<char>::empty() } else { seq![',', ' '] + shape_list(r) };
    assert(w + shape_list(s) + seq![']'] =~= w + d + rest + seq![']']);
    lemma_shape_layout(t, p, w, d, rest);
    let q = p + w.len();
    let e = q + d.len();
    assert forall|i: int| q <= i < e implies ascii_digit(#[trigger] t[i]) by {
        assert(t[q + (i - q)] == d[i - q]);
    }
    assert(t[q] == d[0]);
    if r.len() > 0 {
        assert(rest[0] == ',');
    }
    assert(!ascii_digit(t[e]));
    if sp {
        assert(t[p] == w[0]);
        assert(ws_end(t, q) == q);
        assert(ws_end(t, p) == ws_end(t, q));
    } else {
        assert(ws_end(t, p) == p);
    }
    lemma_digit_run_end(t, q, d.len() as int);
    assert(ws_end(t, e) == e);
    lemma_shape_step(t, p, q, e, x, acc);
    if r.len() == 0 {
        assert(acc.push(x) =~= acc + s);
    } else {
        assert(rest.subrange(1, rest.len() as int) =~= seq![' '] + shape_list(r));
        assert(t.subrange(e + 1, t.len() as int) == seq![' '] + shape_list(r) + seq![']']);
        lemma_shape_reads_back_at(t, e + 1, true, r, acc.push(x));
        assert(acc.push(x) + r =~= acc + s);
    }
}

/// When `char::is_whitespace` classes the characters of a shape as it
/// documents, the parser reads the shape of a formatted tensor annotation
/// back: after the element unit's text comes `[`, and from there the shape
/// reader returns the tensor's shape and stops at the end of the text.  (A
/// tensor has at least one dimension.)
pub proof fn lemma_tensor_shape_reads_back(base: Spanned<DimExpr>, shape: Vec<usize>)
    requires
        shape_chars_classed(),
        shape@.len() >= 1,
    ensures
        char_is(dim_expr_text(DimExpr::Tensor { base: Box::new(base), shape }), dim_expr_text(base.node).len() as int, '['),
        g_shape(dim_expr_text(DimExpr::Tensor { base: Box::new(base), shape }), dim_expr_text(base.node).len() + 1int,
            Seq::empty()) == Some((shape@, dim_expr_text(DimExpr::Tensor { base: Box::new(base), shape }).len() as int)),
{
    reveal_strlit("[");
    reveal_strlit("]");
    let b = dim_expr_text(base.node);
    let t = dim_expr_text(DimExpr::Tensor { base: Box::new(base), shape });
    let l = shape_list(shape@);
    assert(t == b + "["@ + l + "]"@);
    assert(t[b.len() as int] == '[');
    assert(t.subrange(b.len() + 1int, t.len() as int) =~= Seq::<char>::empty() + l + seq![']']);
    lemma_shape_reads_back_at(t, b.len() + 1int, false, shape@, Seq::empty());
    assert(Seq::<usize>::empty() + shape@ =~= shape@);
}

/// Different integers have different decimal texts.
pub proof fn lemma_int_digits_injective(a: int, b: int)
    requires
        int_digits(a) == int_digits(b),
    ensures
        a == b,
{
    if a < 0 {
        lemma_nat_digits_are_digits((-a) as nat);
    } else {
        lemma_nat_digits_are_digits(a as nat);
    }
    if b < 0 {
        lemma_nat_digits_are_digits((-b) as nat);
    } else {
        lemma_nat_digits_are_digits(b as nat);
    }
    let t = int_digits(a);
    if a < 0 && b < 0 {
        assert(nat_digits((-a) as nat) =~= t.subrange(1, t.len() as int));
        assert(nat_digits((-b) as nat) =~= t.subrange(1, t.len() as int));
        lemma_nat_digits_value((-a) as nat);
        lemma_nat_digits_value((-b) as nat);
    } else if a >= 0 && b >= 0 {
        lemma_nat_digits_value(a as nat);
        lemma_nat_digits_value(b as nat);
    } else if a < 0 {
        assert(t[0] == '-');
        assert(ascii_digit(nat_digits(b as nat)[0]));
    } else {
        assert(int_digits(b)[0] == '-');
        assert(ascii_digit(nat_digits(a as nat)[0]));
    }
}

/// Formatting keeps an exponent: powers of units that format alike format
/// alike only when their exponents are equal.
pub proof fn lemma_power_text_keeps_exponent(b1: Spanned<DimExpr>, n1: i32, b2: Spanned<DimExpr>, n2: i32)
    requires
        dim_expr_text(b1.node) == dim_expr_text(b2.node),
        dim_expr_text(DimExpr::Power(Box::new(b1), n1)) == dim_expr_text(DimExpr::Power(Box::new(b2), n2)),
    ensures
        n1 == n2,
{
    reveal_strlit("^");
    let b = dim_expr_text(b1.node);
    let t = dim_expr_text(DimExpr::Power(Box::new(b1), n1));
    let d1 = int_digits(n1 as int);
    let d2 = int_digits(n2 as int);
    assert(t == b + "^"@ + d1);
    assert(t == b + "^"@ + d2);
    assert(d1 =~= t.subrange(b.len() + 1int, t.len() as int));
    assert(d2 =~= t.subrange(b.len() + 1int, t.len() as int));
    lemma_int_digits_injective(n1 as int, n2 as int);
}

/// A unit name formats as itself.
pub proof fn lemma_base_text(b: Spanned<DimExpr>, name: String)
    requires
        b.node == DimExpr::Base(name),
    ensures
        dim_expr_text(b.node) == name@,
{
}

/// A product and a quotient of the same units never format alike.
pub proof fn lemma_mul_div_texts_differ(a: Spanned<DimExpr>, b: Spanned<DimExpr>)
    ensures
        dim_expr_text(DimExpr::Mul(Box::new(a), Box::new(b))) != dim_expr_text(DimExpr::Div(Box::new(a), Box::new(b))),
{
    reveal_strlit(" * ");
    reveal_strlit(" / ");
    let k = dim_expr_text(a.node).len() as int;
    let tm = dim_expr_text(DimExpr::Mul(Box::new(a), Box::new(b)));
    let td = dim_expr_text(DimExpr::Div(Box::new(a), Box::new(b)));
    assert(tm[k + 1] == '*');
    assert(td[k + 1] == '/');
}

} // verus!
