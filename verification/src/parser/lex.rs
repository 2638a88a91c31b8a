//! Character classes and token scanning shared by the grammar.
use vstd::prelude::*;
use crate::text::{chars_of, string_from_range};

verus! {

/// Whether `char::is_alphabetic` holds of `c`.
pub uninterp spec fn spec_is_alphabetic(c: char) -> bool;

/// Whether `char::is_alphanumeric` holds of `c`.
pub uninterp spec fn spec_is_alphanumeric(c: char) -> bool;

/// Whether `char::is_whitespace` holds of `c`.
pub uninterp spec fn spec_is_whitespace(c: char) -> bool;

/// Whether `c` is an ASCII letter.
pub open spec fn ascii_letter(c: char) -> bool {
    ('a' <= c <= 'z') || ('A' <= c <= 'Z')
}

/// Whether `c` is an ASCII decimal digit.
pub open spec fn ascii_digit(c: char) -> bool {
    '0' <= c <= '9'
}

/// Unicode alphabetic test.
///
/// Trusted wrapper of `char::is_alphabetic`; ASCII letters are alphabetic
/// and ASCII digits are not, as its documentation states.
#[verifier::external_body]
pub fn is_alphabetic(c: char) -> (r: bool)
    ensures
        r == spec_is_alphabetic(c),
        ascii_letter(c) ==> r,
        ascii_digit(c) ==> !r,
{
    c.is_alphabetic()
}

/// Unicode alphanumeric test.
///
/// Trusted wrapper of `char::is_alphanumeric`: alphabetic or numeric, so
/// ASCII letters and digits are alphanumeric.
#[verifier::external_body]
pub fn is_alphanumeric(c: char) -> (r: bool)
    ensures
        r == spec_is_alphanumeric(c),
        ascii_letter(c) || ascii_digit(c) ==> r,
{
    c.is_alphanumeric()
}

/// Unicode whitespace test.
///
/// Trusted wrapper of `char::is_whitespace`; space, tab, line feed and
/// carriage return are whitespace and ASCII letters and digits are not.
#[verifier::external_body]
pub fn is_whitespace(c: char) -> (r: bool)
    ensures
        r == spec_is_whitespace(c),
        c == ' ' || c == '\t' || c == '\n' || c == '\r' ==> r,
        ascii_letter(c) || ascii_digit(c) ==> !r,
{
    c.is_whitespace()
}

/// ASCII digit test.
pub fn is_digit(c: char) -> (r: bool)
    ensures
        r == ascii_digit(c),
{
    '0' <= c && c <= '9'
}

/// First character of an identifier.
pub open spec fn ident_start(c: char) -> bool {
    spec_is_alphabetic(c) || c == '_'
}

/// Later character of an identifier.
pub open spec fn ident_cont(c: char) -> bool {
    spec_is_alphanumeric(c) || c == '_'
}

/// Whether `t` is an identifier: a start character followed by continuation characters.
pub open spec fn is_ident(t: Seq<char>) -> bool {
    t.len() > 0 && ident_start(t[0]) && forall|i: int| 1 <= i < t.len() ==> #[trigger] ident_cont(t[i])
}

/// The first position at or after `pos` that does not hold whitespace.
pub open spec fn ws_end(s: Seq<char>, pos: int) -> int
    decreases s.len() - pos,
{
    if 0 <= pos < s.len() && spec_is_whitespace(s[pos]) { ws_end(s, pos + 1) } else { pos }
}

/// The first position at or after `pos` that does not hold an ASCII digit.
pub open spec fn digit_end(s: Seq<char>, pos: int) -> int
    decreases s.len() - pos,
{
    if 0 <= pos < s.len() && ascii_digit(s[pos]) { digit_end(s, pos + 1) } else { pos }
}

/// The first position at or after `pos` that does not hold an identifier
/// continuation character.
pub open spec fn cont_end(s: Seq<char>, pos: int) -> int
    decreases s.len() - pos,
{
    if 0 <= pos < s.len() && ident_cont(s[pos]) { cont_end(s, pos + 1) } else { pos }
}

/// The end of the identifier starting at `pos`, when one does.
pub open spec fn ident_end(s: Seq<char>, pos: int) -> Option<int> {
    if 0 <= pos < s.len() && ident_start(s[pos]) { Some(cont_end(s, pos + 1)) } else { None }
}

/// Whether `s` holds `c` at `pos`.
pub open spec fn char_is(s: Seq<char>, pos: int, c: char) -> bool {
    0 <= pos < s.len() && s[pos] == c
}

/// Whether the text `w` stands at `pos`.
pub open spec fn lit_is(s: Seq<char>, pos: int, w: Seq<char>) -> bool {
    0 <= pos && pos + w.len() <= s.len() && s.subrange(pos, pos + w.len()) == w
}

/// Whether the keyword `w` stands at `pos`, not followed by an identifier
/// character.
pub open spec fn kw_is(s: Seq<char>, pos: int, w: Seq<char>) -> bool {
    lit_is(s, pos, w) && (pos + w.len() == s.len() || !ident_cont(s[pos + w.len()]))
}

/// The end of the number `digits[.digits]` starting at `pos`, when one
/// does; the fraction is taken only when a digit follows the point.
pub open spec fn number_end_at(s: Seq<char>, pos: int) -> Option<int> {
    let e = digit_end(s, pos);
    if e == pos {
        None
    } else if char_is(s, e, '.') && e + 1 < s.len() && ascii_digit(s[e + 1]) {
        Some(digit_end(s, e + 1))
    } else {
        Some(e)
    }
}

/// The scans stop within the text and not before their start.
pub proof fn lemma_scan_ends(s: Seq<char>, pos: int)
    requires
        0 <= pos <= s.len(),
    ensures
        pos <= ws_end(s, pos) <= s.len(),
        pos <= digit_end(s, pos) <= s.len(),
        pos <= cont_end(s, pos) <= s.len(),
    decreases s.len() - pos,
{
    if pos < s.len() {
        lemma_scan_ends(s, pos + 1);
    }
}

/// Position after the whitespace starting at `pos`.
pub fn skip_ws(s: &Vec<char>, pos: usize) -> (p: usize)
    requires
        pos <= s.len(),
    ensures
        pos <= p <= s.len(),
        p == ws_end(s@, pos as int),
        forall|i: int| pos <= i < p ==> spec_is_whitespace(#[trigger] s@[i]),
        p < s.len() ==> !spec_is_whitespace(s@[p as int]),
{
    let mut p = pos;
    while p < s.len() && is_whitespace(s[p])
        invariant
            pos <= p <= s.len(),
            ws_end(s@, p as int) == ws_end(s@, pos as int),
            forall|i: int| pos <= i < p ==> spec_is_whitespace(#[trigger] s@[i]),
        decreases s.len() - p,
    {
        p = p + 1;
    }
    p
}

/// Whether `s` holds the character `c` at `pos`.
pub fn char_at(s: &Vec<char>, pos: usize, c: char) -> (r: bool)
    ensures
        r == (pos < s.len() && s@[pos as int] == c),
        r == char_is(s@, pos as int, c),
{
    pos < s.len() && s[pos] == c
}

/// Whether the text `word` stands at `pos`.
pub fn lit_at(s: &Vec<char>, pos: usize, word: &str) -> (r: bool)
    requires
        pos <= s.len(),
    ensures
        r == (pos + word@.len() <= s.len() && s@.subrange(pos as int, pos + word@.len()) == word@),
        r == lit_is(s@, pos as int, word@),
{
    let w = chars_of(word);
    if w.len() > s.len() - pos {
        return false;
    }
    let mut i: usize = 0;
    while i < w.len()
        invariant
            pos + w@.len() <= s@.len(),
            pos <= s@.len(),
            s@.len() <= usize::MAX,
            i <= w@.len(),
            w@ == word@,
            forall|j: int| 0 <= j < i ==> s@[pos + j] == w@[j],
        decreases w@.len() - i,
    {
        if s[pos + i] != w[i] {
            proof {
                assert(s@.subrange(pos as int, pos + word@.len())[i as int] != word@[i as int]);
            }
            return false;
        }
        i = i + 1;
    }
    proof {
        assert(s@.subrange(pos as int, pos + word@.len()) =~= word@);
    }
    true
}

/// Whether the keyword `word` stands at `pos`, not followed by an identifier character.
pub fn kw_at(s: &Vec<char>, pos: usize, word: &str) -> (r: bool)
    requires
        pos <= s.len(),
    ensures
        r == kw_is(s@, pos as int, word@),
{
    if !lit_at(s, pos, word) {
        return false;
    }
    let w = chars_of(word);
    let end = pos + w.len();
    if end < s.len() {
        let c = s[end];
        !(is_alphanumeric(c) || c == '_')
    } else {
        true
    }
}

/// The identifier starting at `pos`, with the position after it.
pub fn ident_at(s: &Vec<char>, pos: usize) -> (r: Option<(String, usize)>)
    requires
        pos <= s.len(),
    ensures
        match r {
            Some((name, p)) => ident_end(s@, pos as int) == Some(p as int) && pos < p <= s.len()
                && name@ == s@.subrange(pos as int, p as int) && is_ident(name@),
            None => ident_end(s@, pos as int) is None,
        },
{
    if pos >= s.len() {
        return None;
    }
    let c = s[pos];
    if !(is_alphabetic(c) || c == '_') {
        return None;
    }
    let mut p = pos + 1;
    while p < s.len() && (is_alphanumeric(s[p]) || s[p] == '_')
        invariant
            pos < p <= s.len(),
            cont_end(s@, p as int) == cont_end(s@, pos + 1),
            forall|i: int| pos + 1 <= i < p ==> ident_cont(#[trigger] s@[i]),
        decreases s.len() - p,
    {
        p = p + 1;
    }
    let name = string_from_range(s, pos, p);
    proof {
        let t = s@.subrange(pos as int, p as int);
        assert forall|i: int| 1 <= i < t.len() implies #[trigger] ident_cont(t[i]) by {
            assert(t[i] == s@[pos + i]);
        }
    }
    Some((name, p))
}

/// End of the digit run starting at `pos` (equal to `pos` when there is none).
pub fn digits_end(s: &Vec<char>, pos: usize) -> (p: usize)
    requires
        pos <= s.len(),
    ensures
        pos <= p <= s.len(),
        p == digit_end(s@, pos as int),
        forall|i: int| pos <= i < p ==> ascii_digit(#[trigger] s@[i]),
        p < s.len() ==> !ascii_digit(s@[p as int]),
{
    let mut p = pos;
    while p < s.len() && is_digit(s[p])
        invariant
            pos <= p <= s.len(),
            digit_end(s@, p as int) == digit_end(s@, pos as int),
            forall|i: int| pos <= i < p ==> ascii_digit(#[trigger] s@[i]),
        decreases s.len() - p,
    {
        p = p + 1;
    }
    p
}

/// End of a number `digits[.digits]` starting at `pos`; the fraction is
/// taken only when a digit follows the point.
pub fn number_end(s: &Vec<char>, pos: usize) -> (r: Option<usize>)
    requires
        pos <= s.len(),
    ensures
        match r {
            Some(p) => number_end_at(s@, pos as int) == Some(p as int),
            None => number_end_at(s@, pos as int) is None,
        },
        match r {
            Some(p) => pos < p <= s.len(),
            None => pos >= s.len() || !ascii_digit(s@[pos as int]),
        },
{
    let e = digits_end(s, pos);
    if e == pos {
        return None;
    }
    if e < s.len() && s[e] == '.' && e + 1 < s.len() && is_digit(s[e + 1]) {
        Some(digits_end(s, e + 1))
    } else {
        Some(e)
    }
}

/// Value of the decimal digits `s[lo..hi]`, or `None` when it exceeds `max`.
pub open spec fn digits_value(t: Seq<char>) -> int
    decreases t.len(),
{
    if t.len() == 0 {
        0
    } else {
        10 * digits_value(t.drop_last()) + (t.last() as int - '0' as int)
    }
}

/// The value of the digit run `s[lo..hi]` when it is at most `max`.
pub fn parse_digits(s: &Vec<char>, lo: usize, hi: usize, max: u64) -> (r: Option<u64>)
    requires
        lo <= hi <= s.len(),
        forall|i: int| lo <= i < hi ==> ascii_digit(#[trigger] s@[i]),
    ensures
        match r {
            Some(v) => v == digits_value(s@.subrange(lo as int, hi as int)) && v <= max,
            None => digits_value(s@.subrange(lo as int, hi as int)) > max,
        },
{
    let mut v: u64 = 0;
    let mut i = lo;
    while i < hi
        invariant
            lo <= i <= hi <= s.len(),
            forall|k: int| lo <= k < hi ==> ascii_digit(#[trigger] s@[k]),
            v == digits_value(s@.subrange(lo as int, i as int)),
            v <= max,
        decreases hi - i,
    {
        let d = (s[i] as u32 - '0' as u32) as u64;
        proof {
            assert(ascii_digit(s@[i as int]));
            let t = s@.subrange(lo as int, i + 1);
            assert(t.drop_last() =~= s@.subrange(lo as int, i as int));
            assert(t.last() == s@[i as int]);
        }
        if d > max || v > (max - d) / 10 {
            proof {
                lemma_digits_grow(s@, lo as int, i as int + 1, hi as int);
                assert(10 * v + d > max) by (nonlinear_arith)
                    requires d > max || v > (max - d) / 10, d <= 9, v >= 0;
            }
            return None;
        }
        proof {
            assert(10 * v + d <= max) by (nonlinear_arith)
                requires v <= (max - d) / 10, d <= max;
        }
        v = 10 * v + d;
        i = i + 1;
    }
    Some(v)
}

proof fn lemma_digits_grow(s: Seq<char>, lo: int, mid: int, hi: int)
    requires
        0 <= lo <= mid <= hi <= s.len(),
        forall|k: int| lo <= k < hi ==> ascii_digit(#[trigger] s[k]),
    ensures
        digits_value(s.subrange(lo, hi)) >= digits_value(s.subrange(lo, mid)),
    decreases hi - mid,
{
    if hi > mid {
        lemma_digits_grow(s, lo, mid, hi - 1);
        let t = s.subrange(lo, hi);
        assert(t.drop_last() =~= s.subrange(lo, hi - 1));
        assert(ascii_digit(s[hi - 1]));
        lemma_digits_nonneg(s.subrange(lo, hi - 1));
    }
}

proof fn lemma_digits_nonneg(t: Seq<char>)
    requires
        forall|k: int| 0 <= k < t.len() ==> ascii_digit(#[trigger] t[k]),
    ensures
        digits_value(t) >= 0,
    decreases t.len(),
{
    if t.len() > 0 {
        assert(ascii_digit(t[t.len() - 1]));
        lemma_digits_nonneg(t.drop_last());
    }
}

} // verus!
