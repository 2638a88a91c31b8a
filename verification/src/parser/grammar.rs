//! The grammar as spec functions over the text: what each parsing function
//! returns, as a model of the tree and the position after it (`None` where
//! the parser refuses the input).
//!
//! A result always ends after its start; the definitions say so where they
//! use a nested result's end, so that they are well founded.
use vstd::prelude::*;
use crate::ast::{BinOp, DimView, ExprView, Span, Spanned, StmtView, PatternView, ArmView, UnOp, Number};
use crate::decimal::spec_decimal_parse;
use crate::parser::lex::{
    ascii_digit, char_is, cont_end, digit_end, digits_value, ident_end, ident_cont, kw_is, lemma_scan_ends, lit_is,
    number_end_at, spec_is_alphabetic, ws_end,
};

verus! {

/// The span of the text from `lo` to `hi`.
pub open spec fn span_of(lo: int, hi: int) -> Span {
    Span { offset: lo as usize, len: (hi - lo) as usize }
}

/// The span from `lo` to `hi`, empty when `hi` is before `lo`.
pub open spec fn span_from(lo: usize, hi: int) -> Span {
    Span { offset: lo, len: if hi >= lo { (hi - lo) as usize } else { 0 } }
}

// ── Units ───────────────────────────────────────────────────────────────────

/// The exponent written as `[-]digits` at `q..e` (`neg` for a minus sign):
/// its value when it fits an `i32`, the least `i32` for the one negative
/// value beyond, and 1 otherwise.
pub open spec fn exponent_value(s: Seq<char>, q: int, e: int, neg: bool) -> i32 {
    let v = digits_value(s.subrange(q, e));
    if v <= 2147483647 {
        (if neg { -v } else { v }) as i32
    } else if neg && v <= 2147483648 {
        i32::MIN
    } else {
        1
    }
}

/// A unit name or `1`, with an optional `^exp` written without spaces.
pub open spec fn g_unit(s: Seq<char>, pos: int) -> Option<(Spanned<DimView>, int)> {
    let head: Option<(Seq<char>, int)> = match ident_end(s, pos) {
        Some(p) => Some((s.subrange(pos, p), p)),
        None => if char_is(s, pos, '1') { Some((seq!['1'], pos + 1)) } else { None },
    };
    match head {
        None => None,
        Some((name, p)) => {
            let base = Spanned { node: DimView::Base(name), span: span_of(pos, p) };
            let neg = char_is(s, p + 1, '-');
            let q = if neg { p + 2 } else { p + 1 };
            let e = digit_end(s, q);
            if char_is(s, p, '^') && e > q {
                Some((Spanned { node: DimView::Power(Box::new(base), exponent_value(s, q, e, neg)), span: span_of(pos, e) }, e))
            } else {
                Some((base, p))
            }
        },
    }
}

/// `n (, n)* ]` from `p` on, with the dimensions `acc` read so far.
pub open spec fn g_shape(s: Seq<char>, p: int, acc: Seq<usize>) -> Option<(Seq<usize>, int)>
    decreases s.len() - p,
{
    if p < 0 || p > s.len() {
        None
    } else {
        let q = ws_end(s, p);
        let e = digit_end(s, q);
        proof {
            lemma_scan_ends(s, p);
        }
        if e <= q || e > s.len() {
            None
        } else {
            let v = digits_value(s.subrange(q, e));
            if v > usize::MAX {
                None
            } else {
                let q2 = ws_end(s, e);
                if char_is(s, q2, ',') {
                    if q2 + 1 <= p { None } else { g_shape(s, q2 + 1, acc.push(v as usize)) }
                } else if char_is(s, q2, ']') {
                    Some((acc.push(v as usize), q2 + 1))
                } else {
                    None
                }
            }
        }
    }
}

/// `unit ((*|/) unit)*` continued from `p`, then an optional tensor shape;
/// `acc` is the unit expression read so far, starting at `start`.
pub open spec fn g_dim_rest(s: Seq<char>, start: int, acc: Spanned<DimView>, p: int) -> Option<(Spanned<DimView>, int)>
    decreases s.len() - p,
{
    let q = ws_end(s, p);
    let is_mul = char_is(s, q, '*');
    let is_div = char_is(s, q, '/');
    let more = if is_mul || is_div { g_unit(s, ws_end(s, q + 1)) } else { None };
    match more {
        Some((rhs, np)) => if np <= p || np > s.len() {
            None
        } else {
            let sp = span_of(start, np);
            let node = if is_mul { DimView::Mul(Box::new(acc), Box::new(rhs)) } else { DimView::Div(Box::new(acc), Box::new(rhs)) };
            g_dim_rest(s, start, Spanned { node, span: sp }, np)
        },
        None => g_dim_tail(s, start, acc, p),
    }
}

/// An optional tensor shape `[n, ...]` at `p` after the unit expression
/// `acc`, which starts at `start`.
pub open spec fn g_dim_tail(s: Seq<char>, start: int, acc: Spanned<DimView>, p: int) -> Option<(Spanned<DimView>, int)> {
    if char_is(s, p, '[') {
        match g_shape(s, p + 1, Seq::empty()) {
            Some((shape, np)) => Some((Spanned { node: DimView::Tensor(Box::new(acc), shape), span: span_of(start, np) }, np)),
            None => None,
        }
    } else {
        Some((acc, p))
    }
}

/// `unit ((*|/) unit)* [ '[' n, ... ']' ]` after optional whitespace.
pub open spec fn g_dim(s: Seq<char>, pos: int) -> Option<(Spanned<DimView>, int)> {
    let start = ws_end(s, pos);
    match g_unit(s, start) {
        Some((acc, p)) => g_dim_rest(s, start, acc, p),
        None => None,
    }
}


// ── Expressions ─────────────────────────────────────────────────────────────

/// A parse result for an expression.
pub type GExpr = Option<(Spanned<ExprView>, int)>;

/// The number written at `lo..hi`, through the decimal parser (zero where
/// it refuses the text).
pub open spec fn number_value(s: Seq<char>, lo: int, hi: int) -> Number {
    match spec_decimal_parse(s.subrange(lo, hi)) {
        Some(v) => v,
        None => Number { mantissa: 0, scale: 0 },
    }
}

/// The first position at or after `e` that holds `"` (the end of the text
/// when none does).
pub open spec fn quote_end(s: Seq<char>, e: int) -> int
    decreases s.len() - e,
{
    if 0 <= e < s.len() && s[e] != '"' { quote_end(s, e + 1) } else { e }
}

/// The position of the `)` that closes the parenthesis open to depth
/// `depth` at `p`.
pub open spec fn paren_close(s: Seq<char>, p: int, depth: int) -> Option<int>
    decreases s.len() - p,
{
    if p < 0 || p >= s.len() {
        None
    } else if s[p] == '(' {
        if depth >= usize::MAX { None } else { paren_close(s, p + 1, depth + 1) }
    } else if s[p] == ')' {
        if depth == 1 { Some(p) } else { paren_close(s, p + 1, depth - 1) }
    } else {
        paren_close(s, p + 1, depth)
    }
}

/// The raw text between balanced parentheses, `pos` just after `(`.
pub open spec fn g_raw_parens(s: Seq<char>, pos: int) -> Option<(Seq<char>, int)> {
    match paren_close(s, pos, 1) {
        Some(p) => Some((s.subrange(pos, p), p + 1)),
        None => None,
    }
}

/// The binary operator of precedence `level` at `q`, with the position
/// after it: 3 comparisons, 2 sums, 1 products.
pub open spec fn g_op(s: Seq<char>, q: int, level: int) -> Option<(BinOp, int)> {
    if level == 3 {
        if lit_is(s, q, "=="@) {
            Some((BinOp::Eq, q + 2))
        } else if char_is(s, q, '<') {
            Some((BinOp::Lt, q + 1))
        } else if char_is(s, q, '>') {
            Some((BinOp::Gt, q + 1))
        } else {
            None
        }
    } else if level == 2 {
        if char_is(s, q, '+') {
            Some((BinOp::Add, q + 1))
        } else if char_is(s, q, '-') {
            Some((BinOp::Sub, q + 1))
        } else {
            None
        }
    } else if level == 1 {
        if char_is(s, q, '*') {
            Some((BinOp::Mul, q + 1))
        } else if char_is(s, q, '/') {
            Some((BinOp::Div, q + 1))
        } else if char_is(s, q, '%') {
            Some((BinOp::Mod, q + 1))
        } else {
            None
        }
    } else {
        None
    }
}

/// Whether an expression ends with a brace block.
pub open spec fn block_like_view(e: ExprView) -> bool {
    e is If || e is Loop || e is While || e is For || e is Match || e is Block
}

/// Whether `{ ident :` (not `::`) follows at `p`.
pub open spec fn struct_lit_ahead_at(s: Seq<char>, p: int) -> bool {
    let q = ws_end(s, p);
    char_is(s, q, '{') && match ident_end(s, ws_end(s, q + 1)) {
        Some(q3) => char_is(s, ws_end(s, q3), ':') && !char_is(s, ws_end(s, q3) + 1, ':'),
        None => false,
    }
}

/// `_`, a number, or `name [: unit]` at `pos`.
pub open spec fn g_pattern(s: Seq<char>, pos: int) -> Option<(PatternView, int)> {
    if char_is(s, pos, '_') && !(pos + 1 < s.len() && (spec_is_alphabetic(s[pos + 1]) || ascii_digit(s[pos + 1]) || s[pos + 1] == '_')) {
        Some((PatternView::Wildcard, pos + 1))
    } else {
        match number_end_at(s, pos) {
            Some(e) => Some((PatternView::Literal(number_value(s, pos, e)), e)),
            None => match ident_end(s, pos) {
                Some(p) => {
                    let q = ws_end(s, p);
                    if char_is(s, q, ':') {
                        match g_dim(s, q + 1) {
                            Some((d, np)) => Some((PatternView::Binding(s.subrange(pos, p), Some(d)), np)),
                            None => None,
                        }
                    } else {
                        Some((PatternView::Binding(s.subrange(pos, p), None), p))
                    }
                },
                None => None,
            },
        }
    }
}

/// The `key: value` options of a transmute after its `{`, from `p` on,
/// with the unit and layout read so far.
pub open spec fn g_transmute_opts(s: Seq<char>, p: int, unit: Option<Spanned<DimView>>, layout: Option<Seq<char>>)
    -> Option<(Option<Spanned<DimView>>, Option<Seq<char>>, int)>
    decreases s.len() - p,
{
    let q3 = ws_end(s, p);
    if char_is(s, q3, '}') {
        Some((unit, layout, q3 + 1))
    } else {
        match ident_end(s, q3) {
            None => None,
            Some(q4) => {
                let key = s.subrange(q3, q4);
                let q5 = ws_end(s, q4);
                if !char_is(s, q5, ':') {
                    None
                } else {
                    let q6 = ws_end(s, q5 + 1);
                    let step: Option<(Option<Spanned<DimView>>, Option<Seq<char>>, int)> =
                        if key == "assume_unit"@ {
                            match g_dim(s, q6) {
                                Some((d, e)) => Some((Some(d), layout, e)),
                                None => None,
                            }
                        } else if key == "assume_layout"@ {
                            match ident_end(s, q6) {
                                Some(e) => Some((unit, Some(s.subrange(q6, e)), e)),
                                None => None,
                            }
                        } else {
                            None
                        };
                    match step {
                        None => None,
                        Some((u, l, np)) => {
                            let q7 = ws_end(s, np);
                            if q7 + 1 <= p {
                                None
                            } else if char_is(s, q7, ',') {
                                g_transmute_opts(s, q7 + 1, u, l)
                            } else if char_is(s, q7, '}') {
                                Some((u, l, q7 + 1))
                            } else {
                                None
                            }
                        },
                    }
                }
            },
        }
    }
}

/// `.field` accesses after `acc`, from `p` on.
pub open spec fn g_postfix_rest(s: Seq<char>, acc: Spanned<ExprView>, p: int) -> GExpr
    decreases s.len() - p,
{
    if !char_is(s, p, '.') {
        Some((acc, p))
    } else {
        match ident_end(s, p + 1) {
            Some(np) => if np <= p || np > s.len() {
                None
            } else {
                g_postfix_rest(s, Spanned { node: ExprView::FieldAccess(Box::new(acc), s.subrange(p + 1, np)), span: span_from(acc.span.offset, np) }, np)
            },
            None => Some((acc, p)),
        }
    }
}

/// An expression: comparisons of sums of products of powers of unary terms.
pub open spec fn g_expr(s: Seq<char>, pos: int) -> GExpr
    decreases s.len() - pos, 8int,
{
    g_binary(s, pos, 3)
}

/// One precedence level: 3 comparisons, 2 sums, 1 products, 0 powers.
pub open spec fn g_binary(s: Seq<char>, pos: int, level: int) -> GExpr
    decreases s.len() - pos, 4 + level,
{
    if level < 0 || level > 3 {
        None
    } else if level == 0 {
        g_power(s, pos)
    } else {
        match g_binary(s, pos, level - 1) {
            Some((acc, p)) => if p <= pos || p > s.len() { None } else { g_binary_rest(s, level, acc, p) },
            None => None,
        }
    }
}

/// Operators of precedence `level` and their right operands after `acc`,
/// from `p` on; left-associative.
pub open spec fn g_binary_rest(s: Seq<char>, level: int, acc: Spanned<ExprView>, p: int) -> GExpr
    decreases s.len() - p, 0int,
{
    if p < 0 || p > s.len() || level <= 0 || level > 3 {
        None
    } else {
        let q = ws_end(s, p);
        proof {
            reveal_strlit("==");
            lemma_scan_ends(s, p);
        }
        match g_op(s, q, level) {
            None => Some((acc, p)),
            Some((op, w)) => match g_binary(s, w, level - 1) {
                Some((rhs, np)) => if np <= p || np > s.len() {
                    None
                } else {
                    g_binary_rest(s, level, Spanned { node: ExprView::BinaryOp(op, Box::new(acc), Box::new(rhs)), span: span_from(acc.span.offset, np) }, np)
                },
                None => None,
            },
        }
    }
}

/// `unary ('^' power)?`, right-associative.
pub open spec fn g_power(s: Seq<char>, pos: int) -> GExpr
    decreases s.len() - pos, 3int,
{
    match g_unary(s, pos) {
        Some((base, p)) => if p <= pos || p < 0 || p > s.len() {
            None
        } else {
            let q = ws_end(s, p);
            proof {
                lemma_scan_ends(s, p);
            }
            if char_is(s, q, '^') {
                match g_power(s, q + 1) {
                    Some((rhs, np)) => Some((Spanned { node: ExprView::BinaryOp(BinOp::Pow, Box::new(base), Box::new(rhs)), span: span_from(base.span.offset, np) }, np)),
                    None => None,
                }
            } else {
                Some((base, p))
            }
        },
        None => None,
    }
}

/// Leading `-` signs before a postfix term.
pub open spec fn g_unary(s: Seq<char>, pos: int) -> GExpr
    decreases s.len() - pos, 2int,
{
    if pos < 0 || pos > s.len() {
        None
    } else {
        let q = ws_end(s, pos);
        proof {
            lemma_scan_ends(s, pos);
        }
        if char_is(s, q, '-') {
            match g_unary(s, q + 1) {
                Some((inner, np)) => Some((Spanned { node: ExprView::UnaryOp(UnOp::Neg, Box::new(inner)), span: span_of(q, np) }, np)),
                None => None,
            }
        } else {
            g_postfix(s, pos)
        }
    }
}

/// An atom followed by `.field` accesses.
pub open spec fn g_postfix(s: Seq<char>, pos: int) -> GExpr
    decreases s.len() - pos, 1int,
{
    match g_atom(s, pos) {
        Some((acc, p)) => if p <= pos || p > s.len() { None } else { g_postfix_rest(s, acc, p) },
        None => None,
    }
}

/// The literal at `q`: a number with an optional `_unit` suffix.
pub open spec fn g_literal(s: Seq<char>, q: int, e: int) -> GExpr {
    let value = number_value(s, q, e);
    let suffixed = if char_is(s, e, '_') { g_dim(s, e + 1) } else { None };
    match suffixed {
        Some((d, np)) => Some((Spanned { node: ExprView::Literal(value, Some(d)), span: span_of(q, np) }, np)),
        None => Some((Spanned { node: ExprView::Literal(value, None), span: span_of(q, e) }, e)),
    }
}

/// A primary expression.
pub open spec fn g_atom(s: Seq<char>, pos: int) -> GExpr
    decreases s.len() - pos, 0int,
{
    if pos < 0 || pos > s.len() {
        None
    } else {
        let q = ws_end(s, pos);
        proof {
            reveal_strlit("if");
            reveal_strlit("loop");
            reveal_strlit("while");
            reveal_strlit("for");
            reveal_strlit("match");
            reveal_strlit("unsafe");
            lemma_scan_ends(s, pos);
        }
        if q >= s.len() {
            None
        } else if number_end_at(s, q) is Some {
            g_literal(s, q, number_end_at(s, q)->0)
        } else if char_is(s, q, '(') {
            g_paren(s, q)
        } else if char_is(s, q, '{') {
            g_block_expr(s, q)
        } else if kw_is(s, q, "if"@) {
            g_if_rest(s, q, q + 2)
        } else if kw_is(s, q, "loop"@) {
            g_loop_rest(s, q)
        } else if kw_is(s, q, "while"@) {
            g_while_rest(s, q)
        } else if kw_is(s, q, "for"@) {
            g_for_rest(s, q)
        } else if kw_is(s, q, "match"@) {
            g_match_rest(s, q)
        } else if kw_is(s, q, "unsafe"@) {
            g_unsafe_rest(s, q)
        } else {
            proof {
                lemma_scan_ends(s, q + 1);
            }
            match ident_end(s, q) {
                None => None,
                Some(p) => g_named(s, q, p),
            }
        }
    }
}

/// `( expr )` with `(` at `q`.
pub open spec fn g_paren(s: Seq<char>, q: int) -> GExpr
    decreases s.len() - (q + 1), 11int,
{
    match g_expr(s, q + 1) {
        Some((inner, p1)) => {
            let q1 = ws_end(s, p1);
            if char_is(s, q1, ')') { Some((inner, q1 + 1)) } else { None }
        },
        None => None,
    }
}

/// A block expression with `{` at `q`.
pub open spec fn g_block_expr(s: Seq<char>, q: int) -> GExpr
    decreases s.len() - (q + 1), 12int,
{
    match g_block_body(s, q + 1, Seq::empty()) {
        Some((stmts, np)) => Some((Spanned { node: ExprView::Block(stmts), span: span_of(q, np) }, np)),
        None => None,
    }
}

/// `loop { body }` with `loop` at `q`.
pub open spec fn g_loop_rest(s: Seq<char>, q: int) -> GExpr
    decreases s.len() - (q + 4), 12int,
{
    match g_brace_block(s, q + 4) {
        Some((body, np)) => Some((Spanned { node: ExprView::Loop(body), span: span_of(q, np) }, np)),
        None => None,
    }
}

/// `while cond { body }` with `while` at `q`.
pub open spec fn g_while_rest(s: Seq<char>, q: int) -> GExpr
    decreases s.len() - (q + 5), 12int,
{
    match g_expr(s, q + 5) {
        Some((cond, p1)) => if p1 <= q + 5 || p1 > s.len() {
            None
        } else {
            match g_brace_block(s, p1) {
                Some((body, np)) => Some((Spanned { node: ExprView::While(Box::new(cond), body), span: span_of(q, np) }, np)),
                None => None,
            }
        },
        None => None,
    }
}

/// `match scrutinee { arms }` with `match` at `q`.
pub open spec fn g_match_rest(s: Seq<char>, q: int) -> GExpr
    decreases s.len() - (q + 5), 12int,
{
    match g_expr(s, q + 5) {
        Some((scrutinee, p1)) => if p1 <= q + 5 || p1 < 0 || p1 > s.len() {
            None
        } else {
            let q1 = ws_end(s, p1);
            proof {
                lemma_scan_ends(s, p1);
            }
            if !char_is(s, q1, '{') {
                None
            } else {
                match g_match_arms(s, q1 + 1, Seq::empty()) {
                    Some((arms, np)) => Some((Spanned { node: ExprView::Match(Box::new(scrutinee), arms), span: span_of(q, np) }, np)),
                    None => None,
                }
            }
        },
        None => None,
    }
}

/// `unsafe transmute (...)` with `unsafe` at `q`.
pub open spec fn g_unsafe_rest(s: Seq<char>, q: int) -> GExpr
    decreases s.len() - (q + 6), 12int,
{
    if q < 0 || q + 6 > s.len() {
        None
    } else {
        let q1 = ws_end(s, q + 6);
        proof {
            reveal_strlit("transmute");
            lemma_scan_ends(s, q + 6);
        }
        if kw_is(s, q1, "transmute"@) { g_transmute_rest(s, q, q1 + 9) } else { None }
    }
}

/// `for var in start..end { body }` at `q`.
pub open spec fn g_for_rest(s: Seq<char>, q: int) -> GExpr
    decreases s.len() - (q + 3), 11int,
{
    if q < 0 || q + 3 > s.len() {
        None
    } else {
        let q1 = ws_end(s, q + 3);
        proof {
            reveal_strlit("in");
            reveal_strlit("..");
            lemma_scan_ends(s, q + 3);
        }
        match ident_end(s, q1) {
            None => None,
            Some(p1) => {
                let q2 = ws_end(s, p1);
                if p1 <= q1 || p1 > s.len() || !kw_is(s, q2, "in"@) {
                    None
                } else {
                    proof {
                        lemma_scan_ends(s, p1);
                    }
                    match g_expr(s, q2 + 2) {
                        Some((start, p2)) => if p2 <= q2 + 2 || p2 > s.len() {
                            None
                        } else {
                            let q3 = ws_end(s, p2);
                            proof {
                                lemma_scan_ends(s, p2);
                            }
                            if !lit_is(s, q3, ".."@) {
                                None
                            } else {
                                match g_expr(s, q3 + 2) {
                                    Some((end, p3)) => if p3 <= q3 + 2 || p3 > s.len() {
                                        None
                                    } else {
                                        match g_brace_block(s, p3) {
                                            Some((body, np)) => Some((Spanned {
                                                node: ExprView::For(s.subrange(q1, p1), Box::new(start), Box::new(end), body),
                                                span: span_of(q, np),
                                            }, np)),
                                            None => None,
                                        }
                                    },
                                    None => None,
                                }
                            }
                        },
                        None => None,
                    }
                }
            },
        }
    }
}

/// What follows a name at `q` (ending at `p`): a macro invocation, a `log`
/// message, a call (`print` with one argument prints), a struct literal,
/// or else the variable.
pub open spec fn g_named(s: Seq<char>, q: int, p: int) -> GExpr
    decreases s.len() - p, 11int,
{
    let name = s.subrange(q, p);
    let q1 = ws_end(s, p);
    if q < 0 || p <= q || p > s.len() {
        None
    } else if char_is(s, p, '!') && char_is(s, p + 1, '(') {
        match g_raw_parens(s, p + 2) {
            Some((args, np)) => Some((Spanned { node: ExprView::MacroCall(name, args), span: span_of(q, np) }, np)),
            None => None,
        }
    } else if char_is(s, q1, '(') {
        let q2 = ws_end(s, q1 + 1);
        let e = quote_end(s, q2 + 1);
        let q3 = ws_end(s, e + 1);
        proof {
            lemma_scan_ends(s, p);
        }
        if name == "log"@ && char_is(s, q2, '"') {
            if e >= s.len() || !char_is(s, q3, ')') {
                None
            } else {
                Some((Spanned { node: ExprView::Log(s.subrange(q2 + 1, e)), span: span_of(q, q3 + 1) }, q3 + 1))
            }
        } else {
            match g_call_args(s, q1 + 1) {
                Some((args, np)) => if args.len() == 1 && name == "print"@ {
                    Some((Spanned { node: ExprView::Print(Box::new(args[0])), span: span_of(q, np) }, np))
                } else {
                    Some((Spanned { node: ExprView::Call(name, args), span: span_of(q, np) }, np))
                },
                None => None,
            }
        }
    } else if 'A' <= s[q] <= 'Z' && char_is(s, q1, '{') && struct_lit_ahead_at(s, p) {
        proof {
            lemma_scan_ends(s, p);
        }
        match g_struct_fields(s, q1 + 1, Seq::empty()) {
            Some((fields, np)) => Some((Spanned { node: ExprView::StructLit(name, fields), span: span_of(q, np) }, np)),
            None => None,
        }
    } else {
        Some((Spanned { node: ExprView::Variable(name), span: span_of(q, p) }, p))
    }
}

/// `ident: expr, ...` of a struct literal from `p` on, up to `}`, with the
/// fields read so far.
pub open spec fn g_struct_fields(s: Seq<char>, p: int, acc: Seq<(Seq<char>, Spanned<ExprView>)>)
    -> Option<(Seq<(Seq<char>, Spanned<ExprView>)>, int)>
    decreases s.len() - p, 11int,
{
    if p < 0 || p > s.len() {
        None
    } else {
        let q = ws_end(s, p);
        proof {
            lemma_scan_ends(s, p);
        }
        if char_is(s, q, '}') {
            Some((acc, q + 1))
        } else {
            match ident_end(s, q) {
                None => None,
                Some(q2) => {
                    let q3 = ws_end(s, q2);
                    if q2 <= q || q2 > s.len() || !char_is(s, q3, ':') {
                        None
                    } else {
                        proof {
                            lemma_scan_ends(s, q2);
                        }
                        match g_expr(s, q3 + 1) {
                            None => None,
                            Some((value, q4)) => if q4 <= q3 + 1 || q4 > s.len() {
                                None
                            } else {
                                let q5 = ws_end(s, q4);
                                proof {
                                    lemma_scan_ends(s, q4);
                                }
                                let acc2 = acc.push((s.subrange(q, q2), value));
                                if char_is(s, q5, ',') {
                                    g_struct_fields(s, q5 + 1, acc2)
                                } else if char_is(s, q5, '}') {
                                    Some((acc2, q5 + 1))
                                } else {
                                    None
                                }
                            },
                        }
                    }
                },
            }
        }
    }
}

/// Call arguments after `(`, up to `)`.
pub open spec fn g_call_args(s: Seq<char>, pos: int) -> Option<(Seq<Spanned<ExprView>>, int)>
    decreases s.len() - pos, 11int,
{
    let q0 = ws_end(s, pos);
    if char_is(s, q0, ')') { Some((Seq::empty(), q0 + 1)) } else { g_args(s, pos, Seq::empty()) }
}

/// Comma-separated arguments from `p` on, up to `)`, with those read so far.
pub open spec fn g_args(s: Seq<char>, p: int, acc: Seq<Spanned<ExprView>>) -> Option<(Seq<Spanned<ExprView>>, int)>
    decreases s.len() - p, 10int,
{
    match g_expr(s, p) {
        None => None,
        Some((arg, q)) => if q <= p || q < 0 || q > s.len() {
            None
        } else {
            let q2 = ws_end(s, q);
            proof {
                lemma_scan_ends(s, q);
            }
            if char_is(s, q2, ',') {
                g_args(s, q2 + 1, acc.push(arg))
            } else if char_is(s, q2, ')') {
                Some((acc.push(arg), q2 + 1))
            } else {
                None
            }
        },
    }
}

/// A brace block as a branch: a block holding a single expression statement
/// is that expression.
pub open spec fn g_branch(s: Seq<char>, pos: int) -> GExpr
    decreases s.len() - pos, 11int,
{
    if pos < 0 || pos > s.len() {
        None
    } else {
        let q = ws_end(s, pos);
        proof {
            lemma_scan_ends(s, pos);
        }
        if !char_is(s, q, '{') {
            None
        } else {
            match g_block_body(s, q + 1, Seq::empty()) {
                Some((stmts, np)) => if stmts.len() == 1 && stmts[0].node is Expr {
                    Some((stmts[0].node->Expr_0, np))
                } else {
                    Some((Spanned { node: ExprView::Block(stmts), span: span_of(q, np) }, np))
                },
                None => None,
            }
        }
    }
}

/// `cond block (elseif cond block | else (block | if ...))?` after `if`,
/// which stands at `start`.
pub open spec fn g_if_rest(s: Seq<char>, start: int, pos: int) -> GExpr
    decreases s.len() - pos, 11int,
{
    match g_expr(s, pos) {
        None => None,
        Some((cond, p1)) => if p1 <= pos || p1 > s.len() {
            None
        } else {
            match g_branch(s, p1) {
                None => None,
                Some((then_branch, p2)) => if p2 <= p1 || p2 < 0 || p2 > s.len() {
                    None
                } else {
                    g_else(s, start, cond, then_branch, p2)
                },
            }
        },
    }
}

/// What follows an `if`'s branch ending at `p2`: `elseif ...`,
/// `else if ...`, `else { ... }`, or nothing.
pub open spec fn g_else(s: Seq<char>, start: int, cond: Spanned<ExprView>, then_branch: Spanned<ExprView>, p2: int) -> GExpr
    decreases s.len() - p2, 12int,
{
    if p2 < 0 || p2 > s.len() {
        None
    } else {
        let q = ws_end(s, p2);
        proof {
            reveal_strlit("elseif");
            reveal_strlit("else");
            reveal_strlit("if");
            lemma_scan_ends(s, p2);
        }
        let else_part: Option<(Spanned<ExprView>, int)> = if kw_is(s, q, "elseif"@) {
            g_if_rest(s, q, q + 6)
        } else if kw_is(s, q, "else"@) {
            let q2 = ws_end(s, q + 4);
            proof {
                lemma_scan_ends(s, q + 4);
            }
            if kw_is(s, q2, "if"@) { g_if_rest(s, q2, q2 + 2) } else { g_branch(s, q + 4) }
        } else {
            None
        };
        if kw_is(s, q, "elseif"@) || kw_is(s, q, "else"@) {
            match else_part {
                Some((e, np)) => Some((Spanned {
                    node: ExprView::If(Box::new(cond), Box::new(then_branch), Some(Box::new(e))),
                    span: span_of(start, np),
                }, np)),
                None => None,
            }
        } else {
            Some((Spanned { node: ExprView::If(Box::new(cond), Box::new(then_branch), None), span: span_of(start, p2) }, p2))
        }
    }
}

/// `{ stmts }` starting at the next non-space character.
pub open spec fn g_brace_block(s: Seq<char>, pos: int) -> Option<(Seq<Spanned<StmtView>>, int)>
    decreases s.len() - pos, 11int,
{
    if pos < 0 || pos > s.len() {
        None
    } else {
        let q = ws_end(s, pos);
        proof {
            lemma_scan_ends(s, pos);
        }
        if char_is(s, q, '{') { g_block_body(s, q + 1, Seq::empty()) } else { None }
    }
}

/// Match arms from `p` on, up to `}`, with the arms read so far.
pub open spec fn g_match_arms(s: Seq<char>, p: int, acc: Seq<ArmView>) -> Option<(Seq<ArmView>, int)>
    decreases s.len() - p, 11int,
{
    if p < 0 || p > s.len() {
        None
    } else {
        let q = ws_end(s, p);
        proof {
            reveal_strlit("=>");
            lemma_scan_ends(s, p);
        }
        if char_is(s, q, '}') {
            Some((acc, q + 1))
        } else {
            match g_pattern(s, q) {
                None => None,
                Some((pattern, q2)) => if q2 <= q || q2 > s.len() {
                    None
                } else {
                    let q3 = ws_end(s, q2);
                    proof {
                        lemma_scan_ends(s, q2);
                    }
                    if !lit_is(s, q3, "=>"@) {
                        None
                    } else {
                        match g_expr(s, q3 + 2) {
                            None => None,
                            Some((body, q4)) => if q4 <= q3 + 2 || q4 > s.len() {
                                None
                            } else {
                                let q5 = ws_end(s, q4);
                                proof {
                                    lemma_scan_ends(s, q4);
                                }
                                let acc2 = acc.push(ArmView { pattern, body });
                                if char_is(s, q5, ',') {
                                    g_match_arms(s, q5 + 1, acc2)
                                } else if char_is(s, q5, '}') {
                                    Some((acc2, q5 + 1))
                                } else {
                                    None
                                }
                            },
                        }
                    }
                },
            }
        }
    }
}

/// `(expr) [{ assume_unit: unit, assume_layout: ident }]` after
/// `unsafe transmute`, which starts at `start`.
pub open spec fn g_transmute_rest(s: Seq<char>, start: int, pos: int) -> GExpr
    decreases s.len() - pos, 11int,
{
    if pos < 0 || pos > s.len() {
        None
    } else {
        let q = ws_end(s, pos);
        proof {
            lemma_scan_ends(s, pos);
        }
        if !char_is(s, q, '(') {
            None
        } else {
            match g_expr(s, q + 1) {
                None => None,
                Some((inner, p1)) => {
                    let q1 = ws_end(s, p1);
                    let q2 = ws_end(s, q1 + 1);
                    if !char_is(s, q1, ')') {
                        None
                    } else if char_is(s, q2, '{') {
                        match g_transmute_opts(s, q2 + 1, None, None) {
                            Some((unit, layout, end)) => Some((Spanned {
                                node: ExprView::UnsafeTransmute(Box::new(inner), unit, layout),
                                span: span_of(start, end),
                            }, end)),
                            None => None,
                        }
                    } else {
                        Some((Spanned { node: ExprView::UnsafeTransmute(Box::new(inner), None, None), span: span_of(start, q1 + 1) }, q1 + 1))
                    }
                },
            }
        }
    }
}

// ── Statements ──────────────────────────────────────────────────────────────

/// Statements from `p` on, up to and including the closing `}`, with the
/// statements read so far.
pub open spec fn g_block_body(s: Seq<char>, p: int, acc: Seq<Spanned<StmtView>>) -> Option<(Seq<Spanned<StmtView>>, int)>
    decreases s.len() - p, 11int,
{
    if p < 0 || p > s.len() {
        None
    } else {
        let q = ws_end(s, p);
        proof {
            lemma_scan_ends(s, p);
        }
        if char_is(s, q, '}') {
            Some((acc, q + 1))
        } else if q >= s.len() {
            None
        } else {
            match g_stmt(s, q) {
                Some((st, np)) => if np <= q || np > s.len() { None } else { g_block_body(s, np, acc.push(st)) },
                None => None,
            }
        }
    }
}

/// The `;` that ends a statement at `q2`: the statement spans `q..q2+1`.
pub open spec fn semi_end(s: Seq<char>, q: int, node: StmtView, p: int) -> Option<(Spanned<StmtView>, int)> {
    let q2 = ws_end(s, p);
    if char_is(s, q2, ';') { Some((Spanned { node, span: span_of(q, q2 + 1) }, q2 + 1)) } else { None }
}

/// `let [mut] name [: unit] = expr;` with `let` at `q`.
pub open spec fn g_let(s: Seq<char>, q: int) -> Option<(Spanned<StmtView>, int)>
    decreases s.len() - q, 8int,
{
    if q < 0 || q + 3 > s.len() {
        None
    } else {
        let p0 = ws_end(s, q + 3);
        proof {
            reveal_strlit("mut");
            lemma_scan_ends(s, q + 3);
        }
        let is_mut = kw_is(s, p0, "mut"@);
        let p = if is_mut { ws_end(s, p0 + 3) } else { p0 };
        match ident_end(s, p) {
            None => None,
            Some(p1) => {
                let q1a = ws_end(s, p1);
                let decl: Option<(Option<Spanned<DimView>>, int)> = if char_is(s, q1a, ':') {
                    match g_dim(s, q1a + 1) {
                        Some((d, np)) => Some((Some(d), ws_end(s, np))),
                        None => None,
                    }
                } else {
                    Some((None, q1a))
                };
                match decl {
                    None => None,
                    Some((dt, q1)) => if q1 + 1 <= q || q1 + 1 > s.len() || !char_is(s, q1, '=') {
                        None
                    } else {
                        match g_expr(s, q1 + 1) {
                            Some((init, p2)) => semi_end(s, q, StmtView::Let(s.subrange(p, p1), dt, init, is_mut), p2),
                            None => None,
                        }
                    },
                }
            },
        }
    }
}

/// One statement at `pos`.
pub open spec fn g_stmt(s: Seq<char>, pos: int) -> Option<(Spanned<StmtView>, int)>
    decreases s.len() - pos, 10int,
{
    if pos < 0 || pos > s.len() {
        None
    } else {
        let q = ws_end(s, pos);
        proof {
            reveal_strlit("let");
            reveal_strlit("break");
            reveal_strlit("continue");
            lemma_scan_ends(s, pos);
        }
        let is_break = kw_is(s, q, "break"@);
        let is_continue = !is_break && kw_is(s, q, "continue"@);
        if kw_is(s, q, "let"@) {
            g_let(s, q)
        } else if is_break || is_continue {
            semi_end(s, q, if is_break { StmtView::Break } else { StmtView::Continue }, if is_break { q + 5 } else { q + 8 })
        } else {
            g_expr_stmt(s, q)
        }
    }
}

/// An assignment `name = expr;` or an expression statement at `q`.
pub open spec fn g_expr_stmt(s: Seq<char>, q: int) -> Option<(Spanned<StmtView>, int)>
    decreases s.len() - q, 9int,
{
    let assign: Option<int> = match ident_end(s, q) {
        Some(p) => {
            let q2 = ws_end(s, p);
            if char_is(s, q2, '=') && !char_is(s, q2 + 1, '=') { Some(p) } else { None }
        },
        None => None,
    };
    match assign {
        Some(p) => {
            let w = ws_end(s, p) + 1;
            if w <= q || w > s.len() {
                None
            } else {
                match g_expr(s, w) {
                    Some((value, p2)) => semi_end(s, q, StmtView::Assign(s.subrange(q, p), value), p2),
                    None => None,
                }
            }
        },
        None => match g_expr(s, q) {
            None => None,
            Some((e, p)) => {
                let q2 = ws_end(s, p);
                if char_is(s, q2, ';') {
                    Some((Spanned { node: StmtView::Expr(e), span: span_of(q, q2 + 1) }, q2 + 1))
                } else if block_like_view(e.node) || char_is(s, q2, '}') {
                    Some((Spanned { node: StmtView::Expr(e), span: span_of(q, p) }, p))
                } else {
                    None
                }
            },
        },
    }
}

} // verus!
