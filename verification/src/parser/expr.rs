//! Dimension expressions, computational expressions and statements.
use vstd::prelude::*;
use crate::ast::{BinOp, DimExpr, Expr, MatchArm, Number, Pattern, Span, Spanned, Stmt, UnOp};
use crate::decimal::{decimal_parse, spec_decimal_parse};
use crate::parser::lex::{
    char_at, digits_end, ident_at, is_alphabetic, kw_at, lit_at, number_end, parse_digits, skip_ws,
    ascii_digit, is_digit,
};
use crate::text::{push_str, string_from_range, usize_to_string, chars_of};
use crate::ast::{
    dim_view, expr_view, exprs_view, stmt_view, stmts_view, arms_view, pattern_view, opt_dim_view, opt_name_view,
    fields_view as ast_fields_view, lemma_exprs_view_push, lemma_stmts_view_push, lemma_arms_view_push,
    lemma_fields_view_push, lemma_exprs_view_index, lemma_stmts_view_index, DimView, ExprView,
};
use crate::parser::grammar::{
    g_dim, g_dim_rest, g_dim_tail, g_shape, g_unit, span_of, g_expr, g_op, g_binary, g_binary_rest, g_power, g_unary,
    g_postfix, g_postfix_rest, g_atom, g_named, g_raw_parens, paren_close, g_struct_fields, struct_lit_ahead_at,
    g_call_args, g_args, g_branch, g_if_rest, g_brace_block, g_match_arms, g_pattern, g_transmute_rest,
    g_transmute_opts, g_stmt, g_block_body, quote_end, GExpr, g_paren, g_block_expr, g_loop_rest,
    g_while_rest, g_for_rest, g_match_rest, g_unsafe_rest, g_else, g_let, g_expr_stmt,
};
use crate::parser::lex::{ident_end, ws_end, char_is};

verus! {

/// A parse result: the node and the position after it, or an error message.
pub type PResult<T> = Result<(T, usize), String>;

/// The result, when successful, ends after `pos` and within the input.
pub open spec fn advances<T>(r: PResult<T>, pos: int, len: int) -> bool {
    r matches Ok((_, p)) ==> pos < p <= len
}

/// An error message naming what was expected and where.
pub fn expected(what: &str, pos: usize) -> (e: String)
    ensures
        e@ == "expected "@ + what@ + " at offset "@ + crate::text::nat_digits(pos as nat),
{
    let mut e = String::new();
    push_str(&mut e, "expected ");
    push_str(&mut e, what);
    push_str(&mut e, " at offset ");
    let n = usize_to_string(pos);
    push_str(&mut e, n.as_str());
    e
}

pub fn span(lo: usize, hi: usize) -> (r: Span)
    requires
        lo <= hi,
    ensures
        r.offset == lo && r.len == hi - lo,
{
    Span::new(lo, hi - lo)
}

/// The number written at `s[lo..hi]`, through the decimal parser (zero when refused).
pub fn number_from(s: &Vec<char>, lo: usize, hi: usize) -> (n: Number)
    requires
        lo <= hi <= s.len(),
    ensures
        n == (match spec_decimal_parse(s@.subrange(lo as int, hi as int)) {
            Some(v) => v,
            None => Number { mantissa: 0, scale: 0 },
        }),
{
    let text = string_from_range(s, lo, hi);
    match decimal_parse(text.as_str()) {
        Some(v) => v,
        None => Number { mantissa: 0, scale: 0 },
    }
}

// ── Dimension expressions ───────────────────────────────────────────────────

/// Base unit name or `1`, with an optional `^exp` (no spaces around `^`).
fn unit_with_pow(s: &Vec<char>, pos: usize) -> (r: PResult<Spanned<DimExpr>>)
    requires
        pos <= s.len(),
    ensures
        advances(r, pos as int, s.len() as int),
        match r {
            Ok((d, p)) => g_unit(s@, pos as int) == Some((dim_view(d), p as int)),
            Err(_) => g_unit(s@, pos as int) is None,
        },
{
    let (name, p) = match ident_at(s, pos) {
        Some(x) => x,
        None => {
            if char_at(s, pos, '1') {
                let mut one = String::new();
                push_str(&mut one, "1");
                proof {
                    reveal_strlit("1");
                    assert(one@ =~= seq!['1']);
                }
                (one, pos + 1)
            } else {
                return Err(expected("unit", pos));
            }
        },
    };
    let base = Spanned::new(DimExpr::Base(name), span(pos, p));
    proof {
        assert(dim_view(base).node == DimView::Base(name@));
    }
    if char_at(s, p, '^') {
        let mut q = p + 1;
        let neg = char_at(s, q, '-');
        if neg {
            q = q + 1;
        }
        let e = digits_end(s, q);
        if e > q {
            let v = parse_digits(s, q, e, 2147483647);
            let exp: i32 = match v {
                Some(x) => if neg { -(x as i32) } else { x as i32 },
                None => if neg && parse_digits(s, q, e, 2147483648).is_some() { i32::MIN } else { 1 },
            };
            return Ok((Spanned::new(DimExpr::Power(Box::new(base), exp), span(pos, e)), e));
        }
    }
    Ok((base, p))
}

/// `unit ((*|/) unit)* [ '[' n, ... ']' ]`
pub fn dim_expr(s: &Vec<char>, pos: usize) -> (r: PResult<Spanned<DimExpr>>)
    requires
        pos <= s.len(),
    ensures
        advances(r, pos as int, s.len() as int),
        match r {
            Ok((d, p)) => g_dim(s@, pos as int) == Some((dim_view(d), p as int)),
            Err(_) => g_dim(s@, pos as int) is None,
        },
{
    let start = skip_ws(s, pos);
    let (mut acc, mut p) = match unit_with_pow(s, start) {
        Ok(x) => x,
        Err(e) => return Err(e),
    };
    loop
        invariant
            pos <= start < p <= s.len(),
            g_dim_rest(s@, start as int, dim_view(acc), p as int) == g_dim(s@, pos as int),
        ensures
            pos <= start < p <= s.len(),
            g_dim_rest(s@, start as int, dim_view(acc), p as int) == g_dim(s@, pos as int),
            g_dim_rest(s@, start as int, dim_view(acc), p as int) == g_dim_tail(s@, start as int, dim_view(acc), p as int),
        decreases s.len() - p,
    {
        let q = skip_ws(s, p);
        let is_mul = char_at(s, q, '*');
        let is_div = char_at(s, q, '/');
        if !(is_mul || is_div) {
            break;
        }
        let r2 = skip_ws(s, q + 1);
        match unit_with_pow(s, r2) {
            Ok((rhs, np)) => {
                let sp = span(start, np);
                acc = if is_mul {
                    Spanned::new(DimExpr::Mul(Box::new(acc), Box::new(rhs)), sp)
                } else {
                    Spanned::new(DimExpr::Div(Box::new(acc), Box::new(rhs)), sp)
                };
                p = np;
            },
            Err(_) => break,
        }
    }
    if char_at(s, p, '[') {
        match shape_list(s, p + 1) {
            Ok((shape, np)) => {
                let sp = span(start, np);
                return Ok((Spanned::new(DimExpr::Tensor { base: Box::new(acc), shape }, sp), np));
            },
            Err(e) => return Err(e),
        }
    }
    Ok((acc, p))
}

/// `n (, n)* ]` after a `[`.
fn shape_list(s: &Vec<char>, pos: usize) -> (r: PResult<Vec<usize>>)
    requires
        pos <= s.len(),
    ensures
        advances(r, pos as int, s.len() as int),
        match r {
            Ok((v, p)) => g_shape(s@, pos as int, Seq::empty()) == Some((v@, p as int)),
            Err(_) => g_shape(s@, pos as int, Seq::empty()) is None,
        },
{
    let mut out: Vec<usize> = Vec::new();
    let mut p = pos;
    loop
        invariant
            pos <= p <= s.len(),
            g_shape(s@, p as int, out@) == g_shape(s@, pos as int, Seq::empty()),
        decreases s.len() - p,
    {
        let q = skip_ws(s, p);
        let e = digits_end(s, q);
        if e == q {
            return Err(expected("tensor dimension", q));
        }
        match parse_digits(s, q, e, usize::MAX as u64) {
            Some(v) => out.push(v as usize),
            None => return Err(expected("tensor dimension that fits", q)),
        }
        let q2 = skip_ws(s, e);
        if char_at(s, q2, ',') {
            p = q2 + 1;
        } else if char_at(s, q2, ']') {
            return Ok((out, q2 + 1));
        } else {
            return Err(expected("`,` or `]`", q2));
        }
    }
}


// ── Expressions ─────────────────────────────────────────────────────────────

/// Whether the expression ends with a brace block, so that a statement made
/// of it needs no `;`.
pub open spec fn block_like(e: Expr) -> bool {
    e is If || e is Loop || e is While || e is For || e is Match || e is Block
}

fn is_block_like(e: &Expr) -> (r: bool)
    ensures
        r == block_like(*e),
{
    match e {
        Expr::If { .. } | Expr::Loop { .. } | Expr::While { .. } | Expr::For { .. }
        | Expr::Match { .. } | Expr::Block(_) => true,
        _ => false,
    }
}

/// The parse result `r` is the grammar's result `g`, by models.
pub open spec fn parsed_expr(r: PResult<Spanned<Expr>>, g: GExpr) -> bool {
    match r {
        Ok((e, p)) => g == Some((expr_view(e), p as int)),
        Err(_) => g is None,
    }
}

/// An expression: comparisons of sums of products of powers of unary terms.
pub fn expr_at(s: &Vec<char>, pos: usize) -> (r: PResult<Spanned<Expr>>)
    requires
        pos <= s.len(),
    ensures
        advances(r, pos as int, s.len() as int),
        parsed_expr(r, g_expr(s@, pos as int)),
    decreases s.len() - pos, 8nat,
{
    parse_binary(s, pos, 3)
}

fn op_at(s: &Vec<char>, q: usize, level: u8) -> (r: Option<(BinOp, usize)>)
    requires
        q <= s.len(),
    ensures
        r matches Some((_, w)) ==> q < w <= s.len(),
        match r {
            Some((op, w)) => g_op(s@, q as int, level as int) == Some((op, w as int)),
            None => g_op(s@, q as int, level as int) is None,
        },
{
    proof {
        reveal_strlit("==");
    }
    if level == 3 {
        if lit_at(s, q, "==") {
            Some((BinOp::Eq, q + 2))
        } else if char_at(s, q, '<') {
            Some((BinOp::Lt, q + 1))
        } else if char_at(s, q, '>') {
            Some((BinOp::Gt, q + 1))
        } else {
            None
        }
    } else if level == 2 {
        if char_at(s, q, '+') {
            Some((BinOp::Add, q + 1))
        } else if char_at(s, q, '-') {
            Some((BinOp::Sub, q + 1))
        } else {
            None
        }
    } else if level == 1 {
        if char_at(s, q, '*') {
            Some((BinOp::Mul, q + 1))
        } else if char_at(s, q, '/') {
            Some((BinOp::Div, q + 1))
        } else if char_at(s, q, '%') {
            Some((BinOp::Mod, q + 1))
        } else {
            None
        }
    } else {
        None
    }
}

/// One precedence level: 3 comparisons, 2 sums, 1 products, 0 powers.
fn parse_binary(s: &Vec<char>, pos: usize, level: u8) -> (r: PResult<Spanned<Expr>>)
    requires
        pos <= s.len(),
        level <= 3,
    ensures
        advances(r, pos as int, s.len() as int),
        parsed_expr(r, g_binary(s@, pos as int, level as int)),
    decreases s.len() - pos, 4nat + level as nat,
{
    if level == 0 {
        return parse_power(s, pos);
    }
    let (mut acc, mut p) = match parse_binary(s, pos, level - 1) {
        Ok(x) => x,
        Err(e) => return Err(e),
    };
    loop
        invariant
            pos < p <= s.len(),
            1 <= level <= 3,
            g_binary_rest(s@, level as int, expr_view(acc), p as int) == g_binary(s@, pos as int, level as int),
        ensures
            pos < p <= s.len(),
            g_binary_rest(s@, level as int, expr_view(acc), p as int) == g_binary(s@, pos as int, level as int),
            g_binary_rest(s@, level as int, expr_view(acc), p as int) == Some((expr_view(acc), p as int)),
        decreases s.len() - p,
    {
        let q = skip_ws(s, p);
        let (op, w) = match op_at(s, q, level) {
            Some(x) => x,
            None => break,
        };
        match parse_binary(s, w, level - 1) {
            Ok((rhs, np)) => {
                let sp = Span::new(acc.span.offset, if np >= acc.span.offset { np - acc.span.offset } else { 0 });
                acc = Spanned::new(Expr::BinaryOp { op, lhs: Box::new(acc), rhs: Box::new(rhs) }, sp);
                p = np;
            },
            Err(e) => return Err(e),
        }
    }
    Ok((acc, p))
}

/// `unary ('^' unary)*`, right-associative.
fn parse_power(s: &Vec<char>, pos: usize) -> (r: PResult<Spanned<Expr>>)
    requires
        pos <= s.len(),
    ensures
        advances(r, pos as int, s.len() as int),
        parsed_expr(r, g_power(s@, pos as int)),
    decreases s.len() - pos, 3nat,
{
    let (base, p) = match parse_unary(s, pos) {
        Ok(x) => x,
        Err(e) => return Err(e),
    };
    let q = skip_ws(s, p);
    if char_at(s, q, '^') {
        match parse_power(s, q + 1) {
            Ok((rhs, np)) => {
                let sp = Span::new(base.span.offset, if np >= base.span.offset { np - base.span.offset } else { 0 });
                Ok((Spanned::new(Expr::BinaryOp { op: BinOp::Pow, lhs: Box::new(base), rhs: Box::new(rhs) }, sp), np))
            },
            Err(e) => Err(e),
        }
    } else {
        Ok((base, p))
    }
}

/// Leading `-` signs before a postfix term.
fn parse_unary(s: &Vec<char>, pos: usize) -> (r: PResult<Spanned<Expr>>)
    requires
        pos <= s.len(),
    ensures
        advances(r, pos as int, s.len() as int),
        parsed_expr(r, g_unary(s@, pos as int)),
    decreases s.len() - pos, 2nat,
{
    let q = skip_ws(s, pos);
    if char_at(s, q, '-') {
        match parse_unary(s, q + 1) {
            Ok((inner, np)) => {
                let sp = span(q, np);
                Ok((Spanned::new(Expr::UnaryOp { op: UnOp::Neg, expr: Box::new(inner) }, sp), np))
            },
            Err(e) => Err(e),
        }
    } else {
        parse_postfix(s, pos)
    }
}

/// An atom followed by `.field` accesses.
fn parse_postfix(s: &Vec<char>, pos: usize) -> (r: PResult<Spanned<Expr>>)
    requires
        pos <= s.len(),
    ensures
        advances(r, pos as int, s.len() as int),
        parsed_expr(r, g_postfix(s@, pos as int)),
    decreases s.len() - pos, 1nat,
{
    let (mut acc, mut p) = match parse_atom(s, pos) {
        Ok(x) => x,
        Err(e) => return Err(e),
    };
    loop
        invariant
            pos < p <= s.len(),
            g_postfix_rest(s@, expr_view(acc), p as int) == g_postfix(s@, pos as int),
        ensures
            pos < p <= s.len(),
            g_postfix_rest(s@, expr_view(acc), p as int) == g_postfix(s@, pos as int),
            g_postfix_rest(s@, expr_view(acc), p as int) == Some((expr_view(acc), p as int)),
        decreases s.len() - p,
    {
        if !char_at(s, p, '.') {
            break;
        }
        match ident_at(s, p + 1) {
            Some((field, np)) => {
                let sp = Span::new(acc.span.offset, if np >= acc.span.offset { np - acc.span.offset } else { 0 });
                acc = Spanned::new(Expr::FieldAccess { expr: Box::new(acc), field }, sp);
                p = np;
            },
            None => break,
        }
    }
    Ok((acc, p))
}

/// The raw text between balanced parentheses; `pos` is just after `(`.
pub fn raw_parens(s: &Vec<char>, pos: usize) -> (r: PResult<String>)
    requires
        pos <= s.len(),
    ensures
        advances(r, pos as int, s.len() as int),
        match r {
            Ok((t, p)) => g_raw_parens(s@, pos as int) == Some((t@, p as int)),
            Err(_) => g_raw_parens(s@, pos as int) is None,
        },
{
    let mut depth: usize = 1;
    let mut p = pos;
    while p < s.len()
        invariant
            pos <= p <= s.len(),
            depth >= 1,
            paren_close(s@, p as int, depth as int) == paren_close(s@, pos as int, 1),
        decreases s.len() - p,
    {
        let c = s[p];
        if c == '(' {
            if depth == usize::MAX {
                return Err(expected("shallower nesting", p));
            }
            depth = depth + 1;
        } else if c == ')' {
            if depth == 1 {
                let text = string_from_range(s, pos, p);
                return Ok((text, p + 1));
            }
            depth = depth - 1;
        }
        p = p + 1;
    }
    Err(expected("`)`", p))
}

/// `ident: expr, ...` inside a struct literal, up to `}`.
fn struct_fields(s: &Vec<char>, pos: usize) -> (r: PResult<Vec<(String, Spanned<Expr>)>>)
    requires
        pos <= s.len(),
    ensures
        advances(r, pos as int, s.len() as int),
        match r {
            Ok((v, p)) => g_struct_fields(s@, pos as int, Seq::empty()) == Some((ast_fields_view(v@), p as int)),
            Err(_) => g_struct_fields(s@, pos as int, Seq::empty()) is None,
        },
    decreases s.len() - pos, 11nat,
{
    let mut fields: Vec<(String, Spanned<Expr>)> = Vec::new();
    let mut p = pos;
    loop
        invariant
            pos <= p <= s.len(),
            g_struct_fields(s@, p as int, ast_fields_view(fields@)) == g_struct_fields(s@, pos as int, Seq::empty()),
        decreases s.len() - p,
    {
        let q = skip_ws(s, p);
        if char_at(s, q, '}') {
            return Ok((fields, q + 1));
        }
        let (name, q2) = match ident_at(s, q) {
            Some(x) => x,
            None => return Err(expected("field name", q)),
        };
        let q3 = skip_ws(s, q2);
        if !char_at(s, q3, ':') {
            return Err(expected("`:`", q3));
        }
        let (value, q4) = match expr_at(s, q3 + 1) {
            Ok(x) => x,
            Err(e) => return Err(e),
        };
        proof {
            lemma_fields_view_push(fields@, (name, value));
        }
        fields.push((name, value));
        let q5 = skip_ws(s, q4);
        if char_at(s, q5, ',') {
            p = q5 + 1;
        } else if char_at(s, q5, '}') {
            return Ok((fields, q5 + 1));
        } else {
            return Err(expected("`,` or `}`", q5));
        }
    }
}

/// Whether `{ ident :` (not `::`) follows at `p`: the start of a struct literal.
fn struct_lit_ahead(s: &Vec<char>, p: usize) -> (r: bool)
    requires
        p <= s.len(),
    ensures
        r == struct_lit_ahead_at(s@, p as int),
{
    let q = skip_ws(s, p);
    if !char_at(s, q, '{') {
        return false;
    }
    let q2 = skip_ws(s, q + 1);
    match ident_at(s, q2) {
        Some((_, q3)) => {
            let q4 = skip_ws(s, q3);
            char_at(s, q4, ':') && !char_at(s, q4 + 1, ':')
        },
        None => false,
    }
}

fn is_upper(c: char) -> (r: bool)
    ensures
        r == ('A' <= c <= 'Z'),
{
    'A' <= c && c <= 'Z'
}

/// Call arguments after `(`, up to `)`.
fn call_args(s: &Vec<char>, pos: usize) -> (r: PResult<Vec<Spanned<Expr>>>)
    requires
        pos <= s.len(),
    ensures
        advances(r, pos as int, s.len() as int),
        match r {
            Ok((v, p)) => g_call_args(s@, pos as int) == Some((exprs_view(v@), p as int)),
            Err(_) => g_call_args(s@, pos as int) is None,
        },
    decreases s.len() - pos, 11nat,
{
    let mut args: Vec<Spanned<Expr>> = Vec::new();
    let q0 = skip_ws(s, pos);
    if char_at(s, q0, ')') {
        return Ok((args, q0 + 1));
    }
    let mut p = pos;
    loop
        invariant
            pos <= p <= s.len(),
            g_args(s@, p as int, exprs_view(args@)) == g_call_args(s@, pos as int),
        decreases s.len() - p,
    {
        let (arg, q) = match expr_at(s, p) {
            Ok(x) => x,
            Err(e) => return Err(e),
        };
        proof {
            lemma_exprs_view_push(args@, arg);
        }
        args.push(arg);
        let q2 = skip_ws(s, q);
        if char_at(s, q2, ',') {
            p = q2 + 1;
        } else if char_at(s, q2, ')') {
            return Ok((args, q2 + 1));
        } else {
            return Err(expected("`,` or `)`", q2));
        }
    }
}

/// A brace block as a branch: a block holding a single expression
/// statement is that expression, any other block is a block expression.
fn branch(s: &Vec<char>, pos: usize) -> (r: PResult<Spanned<Expr>>)
    requires
        pos <= s.len(),
    ensures
        advances(r, pos as int, s.len() as int),
        parsed_expr(r, g_branch(s@, pos as int)),
    decreases s.len() - pos, 11nat,
{
    let q = skip_ws(s, pos);
    if !char_at(s, q, '{') {
        return Err(expected("`{`", q));
    }
    let (mut stmts, np) = match parse_block_body(s, q + 1) {
        Ok(x) => x,
        Err(e) => return Err(e),
    };
    let ghost whole = stmts@;
    proof {
        lemma_stmts_view_index(whole);
    }
    if stmts.len() == 1 {
        let only = stmts.pop().unwrap();
        proof {
            assert(only == whole[0]);
        }
        match only.node {
            Stmt::Expr(e) => return Ok((e, np)),
            other => {
                let sp = only.span;
                stmts.push(Spanned::new(other, sp));
                proof {
                    assert(stmts@ =~= whole);
                }
            },
        }
    }
    Ok((Spanned::new(Expr::Block(stmts), span(q, np)), np))
}

/// `cond block (elseif cond block)* [else (block | if ...)]` after `if`.
fn if_rest(s: &Vec<char>, start: usize, pos: usize) -> (r: PResult<Spanned<Expr>>)
    requires
        start <= pos <= s.len(),
    ensures
        advances(r, pos as int, s.len() as int),
        parsed_expr(r, g_if_rest(s@, start as int, pos as int)),
    decreases s.len() - pos, 11nat,
{
    let (cond, p1) = match expr_at(s, pos) {
        Ok(x) => x,
        Err(e) => return Err(e),
    };
    let (then_branch, p2) = match branch(s, p1) {
        Ok(x) => x,
        Err(e) => return Err(e),
    };
    else_rest(s, start, cond, then_branch, p2)
}

/// What follows an `if`'s branch ending at `p2`: `elseif ...`,
/// `else if ...`, `else { ... }`, or nothing.
fn else_rest(s: &Vec<char>, start: usize, cond: Spanned<Expr>, then_branch: Spanned<Expr>, p2: usize) -> (r: PResult<Spanned<Expr>>)
    requires
        start < p2 <= s.len(),
    ensures
        advances(r, start as int, s.len() as int),
        r matches Ok((_, p)) ==> p2 <= p,
        parsed_expr(r, g_else(s@, start as int, expr_view(cond), expr_view(then_branch), p2 as int)),
    decreases s.len() - p2, 12nat,
{
    proof {
        reveal_strlit("elseif");
        reveal_strlit("else");
        reveal_strlit("if");
    }
    let q = skip_ws(s, p2);
    let mut else_branch: Option<Box<Spanned<Expr>>> = None;
    let mut end = p2;
    if kw_at(s, q, "elseif") {
        match if_rest(s, q, q + 6) {
            Ok((e, np)) => {
                else_branch = Some(Box::new(e));
                end = np;
            },
            Err(e) => return Err(e),
        }
    } else if kw_at(s, q, "else") {
        let q2 = skip_ws(s, q + 4);
        if kw_at(s, q2, "if") {
            match if_rest(s, q2, q2 + 2) {
                Ok((e, np)) => {
                    else_branch = Some(Box::new(e));
                    end = np;
                },
                Err(e) => return Err(e),
            }
        } else {
            match branch(s, q + 4) {
                Ok((e, np)) => {
                    else_branch = Some(Box::new(e));
                    end = np;
                },
                Err(e) => return Err(e),
            }
        }
    }
    Ok((Spanned::new(Expr::If { cond: Box::new(cond), then_branch: Box::new(then_branch), else_branch }, span(start, end)), end))
}

/// `{ stmts }` starting at the next non-space character.
fn brace_block(s: &Vec<char>, pos: usize) -> (r: PResult<Vec<Spanned<Stmt>>>)
    requires
        pos <= s.len(),
    ensures
        advances(r, pos as int, s.len() as int),
        match r {
            Ok((v, p)) => g_brace_block(s@, pos as int) == Some((stmts_view(v@), p as int)),
            Err(_) => g_brace_block(s@, pos as int) is None,
        },
    decreases s.len() - pos, 11nat,
{
    let q = skip_ws(s, pos);
    if !char_at(s, q, '{') {
        return Err(expected("`{`", q));
    }
    parse_block_body(s, q + 1)
}

/// Match arms after `{`, up to `}`.
fn match_arms(s: &Vec<char>, pos: usize) -> (r: PResult<Vec<MatchArm>>)
    requires
        pos <= s.len(),
    ensures
        advances(r, pos as int, s.len() as int),
        match r {
            Ok((v, p)) => g_match_arms(s@, pos as int, Seq::empty()) == Some((arms_view(v@), p as int)),
            Err(_) => g_match_arms(s@, pos as int, Seq::empty()) is None,
        },
    decreases s.len() - pos, 11nat,
{
    proof {
        reveal_strlit("=>");
    }
    let mut arms: Vec<MatchArm> = Vec::new();
    let mut p = pos;
    loop
        invariant
            pos <= p <= s.len(),
            g_match_arms(s@, p as int, arms_view(arms@)) == g_match_arms(s@, pos as int, Seq::empty()),
        decreases s.len() - p,
    {
        let q = skip_ws(s, p);
        if char_at(s, q, '}') {
            return Ok((arms, q + 1));
        }
        let (pattern, q2) = match parse_pattern(s, q) {
            Ok(x) => x,
            Err(e) => return Err(e),
        };
        let q3 = skip_ws(s, q2);
        proof {
            reveal_strlit("=>");
        }
        if !lit_at(s, q3, "=>") {
            return Err(expected("`=>`", q3));
        }
        let (body, q4) = match expr_at(s, q3 + 2) {
            Ok(x) => x,
            Err(e) => return Err(e),
        };
        let arm = MatchArm { pattern, body };
        proof {
            lemma_arms_view_push(arms@, arm);
        }
        arms.push(arm);
        let q5 = skip_ws(s, q4);
        if char_at(s, q5, ',') {
            p = q5 + 1;
        } else if char_at(s, q5, '}') {
            return Ok((arms, q5 + 1));
        } else {
            return Err(expected("`,` or `}`", q5));
        }
    }
}

/// `_`, a number, or `name [: dim]`.
fn parse_pattern(s: &Vec<char>, pos: usize) -> (r: PResult<Pattern>)
    requires
        pos <= s.len(),
    ensures
        advances(r, pos as int, s.len() as int),
        match r {
            Ok((pt, p)) => g_pattern(s@, pos as int) == Some((pattern_view(pt), p as int)),
            Err(_) => g_pattern(s@, pos as int) is None,
        },
{
    if char_at(s, pos, '_') && !(pos + 1 < s.len() && (is_alphabetic(s[pos + 1]) || is_digit(s[pos + 1]) || s[pos + 1] == '_')) {
        return Ok((Pattern::Wildcard, pos + 1));
    }
    match number_end(s, pos) {
        Some(e) => return Ok((Pattern::Literal(number_from(s, pos, e)), e)),
        None => {},
    }
    match ident_at(s, pos) {
        Some((name, p)) => {
            let q = skip_ws(s, p);
            if char_at(s, q, ':') {
                match dim_expr(s, q + 1) {
                    Ok((d, np)) => Ok((Pattern::Binding { name, type_guard: Some(d) }, np)),
                    Err(e) => Err(e),
                }
            } else {
                Ok((Pattern::Binding { name, type_guard: None }, p))
            }
        },
        None => Err(expected("pattern", pos)),
    }
}

/// `(expr) [{ assume_unit: dim, assume_layout: ident }]` after `unsafe transmute`.
fn transmute_rest(s: &Vec<char>, start: usize, pos: usize) -> (r: PResult<Spanned<Expr>>)
    requires
        start <= pos <= s.len(),
    ensures
        advances(r, pos as int, s.len() as int),
        parsed_expr(r, g_transmute_rest(s@, start as int, pos as int)),
    decreases s.len() - pos, 11nat,
{
    proof {
        reveal_strlit("assume_unit");
        reveal_strlit("assume_layout");
    }
    let q = skip_ws(s, pos);
    if !char_at(s, q, '(') {
        return Err(expected("`(`", q));
    }
    let (inner, p1) = match expr_at(s, q + 1) {
        Ok(x) => x,
        Err(e) => return Err(e),
    };
    let q1 = skip_ws(s, p1);
    if !char_at(s, q1, ')') {
        return Err(expected("`)`", q1));
    }
    let mut end = q1 + 1;
    let mut assume_unit: Option<Spanned<DimExpr>> = None;
    let mut assume_layout: Option<String> = None;
    let q2 = skip_ws(s, end);
    if char_at(s, q2, '{') {
        let ghost opts = g_transmute_opts(s@, q2 + 1, None, None);
        assert(opts is None ==> g_transmute_rest(s@, start as int, pos as int) is None);
        let mut p = q2 + 1;
        let mut closed = false;
        while !closed
            invariant
                pos < end <= s.len(),
                pos < p <= s.len(),
                opts == g_transmute_opts(s@, q2 + 1, None, None),
                opts is None ==> g_transmute_rest(s@, start as int, pos as int) is None,
                !closed ==> g_transmute_opts(s@, p as int, opt_dim_view(assume_unit), opt_name_view(assume_layout)) == opts,
                closed ==> opts == Some((opt_dim_view(assume_unit), opt_name_view(assume_layout), end as int)),
            decreases s.len() - p, if closed { 0nat } else { 1nat },
        {
            let q3 = skip_ws(s, p);
            if char_at(s, q3, '}') {
                end = q3 + 1;
                closed = true;
            } else {
                let (key, q4) = match ident_at(s, q3) {
                    Some(x) => x,
                    None => return Err(expected("`assume_unit` or `assume_layout`", q3)),
                };
                let q5 = skip_ws(s, q4);
                if !char_at(s, q5, ':') {
                    return Err(expected("`:`", q5));
                }
                let q6 = skip_ws(s, q5 + 1);
                let mut np = q6;
                if crate::text::str_eq(key.as_str(), "assume_unit") {
                    match dim_expr(s, q6) {
                        Ok((d, e)) => {
                            assume_unit = Some(d);
                            np = e;
                        },
                        Err(e) => return Err(e),
                    }
                } else if crate::text::str_eq(key.as_str(), "assume_layout") {
                    match ident_at(s, q6) {
                        Some((l, e)) => {
                            assume_layout = Some(l);
                            np = e;
                        },
                        None => return Err(expected("layout name", q6)),
                    }
                } else {
                    return Err(expected("`assume_unit` or `assume_layout`", q3));
                }
                let q7 = skip_ws(s, np);
                if char_at(s, q7, ',') {
                    p = q7 + 1;
                } else if char_at(s, q7, '}') {
                    end = q7 + 1;
                    closed = true;
                } else {
                    return Err(expected("`,` or `}`", q7));
                }
            }
        }
    }
    Ok((Spanned::new(Expr::UnsafeTransmute { expr: Box::new(inner), assume_unit, assume_layout }, span(start, end)), end))
}

/// `( expr )` with `(` at `q`.
fn paren_expr(s: &Vec<char>, q: usize) -> (r: PResult<Spanned<Expr>>)
    requires
        q < s.len(),
    ensures
        advances(r, q as int, s.len() as int),
        parsed_expr(r, g_paren(s@, q as int)),
    decreases s.len() - (q + 1), 11nat,
{
    let (inner, p1) = match expr_at(s, q + 1) {
        Ok(x) => x,
        Err(e) => return Err(e),
    };
    let q1 = skip_ws(s, p1);
    if !char_at(s, q1, ')') {
        return Err(expected("`)`", q1));
    }
    Ok((inner, q1 + 1))
}

/// A block expression with `{` at `q`.
fn block_expr(s: &Vec<char>, q: usize) -> (r: PResult<Spanned<Expr>>)
    requires
        q < s.len(),
    ensures
        advances(r, q as int, s.len() as int),
        parsed_expr(r, g_block_expr(s@, q as int)),
    decreases s.len() - (q + 1), 12nat,
{
    match parse_block_body(s, q + 1) {
        Ok((stmts, np)) => Ok((Spanned::new(Expr::Block(stmts), span(q, np)), np)),
        Err(e) => Err(e),
    }
}

/// `loop { body }` with `loop` at `q`.
fn loop_rest(s: &Vec<char>, q: usize) -> (r: PResult<Spanned<Expr>>)
    requires
        q + 4 <= s.len(),
    ensures
        advances(r, q as int, s.len() as int),
        parsed_expr(r, g_loop_rest(s@, q as int)),
    decreases s.len() - (q + 4), 12nat,
{
    match brace_block(s, q + 4) {
        Ok((body, np)) => Ok((Spanned::new(Expr::Loop { body }, span(q, np)), np)),
        Err(e) => Err(e),
    }
}

/// `while cond { body }` with `while` at `q`.
fn while_rest(s: &Vec<char>, q: usize) -> (r: PResult<Spanned<Expr>>)
    requires
        q + 5 <= s.len(),
    ensures
        advances(r, q as int, s.len() as int),
        parsed_expr(r, g_while_rest(s@, q as int)),
    decreases s.len() - (q + 5), 12nat,
{
    let (cond, p1) = match expr_at(s, q + 5) {
        Ok(x) => x,
        Err(e) => return Err(e),
    };
    match brace_block(s, p1) {
        Ok((body, np)) => Ok((Spanned::new(Expr::While { cond: Box::new(cond), body }, span(q, np)), np)),
        Err(e) => Err(e),
    }
}

/// `for var in start..end { body }` with `for` at `q`.
fn for_rest(s: &Vec<char>, q: usize) -> (r: PResult<Spanned<Expr>>)
    requires
        q + 3 <= s.len(),
    ensures
        advances(r, q as int, s.len() as int),
        parsed_expr(r, g_for_rest(s@, q as int)),
    decreases s.len() - (q + 3), 11nat,
{
    proof {
        reveal_strlit("in");
        reveal_strlit("..");
    }
    let q1 = skip_ws(s, q + 3);
    let (var, p1) = match ident_at(s, q1) {
        Some(x) => x,
        None => return Err(expected("loop variable", q1)),
    };
    let q2 = skip_ws(s, p1);
    if !kw_at(s, q2, "in") {
        return Err(expected("`in`", q2));
    }
    let (start, p2) = match expr_at(s, q2 + 2) {
        Ok(x) => x,
        Err(e) => return Err(e),
    };
    let q3 = skip_ws(s, p2);
    if !lit_at(s, q3, "..") {
        return Err(expected("`..`", q3));
    }
    let (end, p3) = match expr_at(s, q3 + 2) {
        Ok(x) => x,
        Err(e) => return Err(e),
    };
    match brace_block(s, p3) {
        Ok((body, np)) => Ok((
            Spanned::new(Expr::For { var, start: Box::new(start), end: Box::new(end), body }, span(q, np)),
            np,
        )),
        Err(e) => Err(e),
    }
}

/// `match scrutinee { arms }` with `match` at `q`.
fn match_rest(s: &Vec<char>, q: usize) -> (r: PResult<Spanned<Expr>>)
    requires
        q + 5 <= s.len(),
    ensures
        advances(r, q as int, s.len() as int),
        parsed_expr(r, g_match_rest(s@, q as int)),
    decreases s.len() - (q + 5), 12nat,
{
    let (scrutinee, p1) = match expr_at(s, q + 5) {
        Ok(x) => x,
        Err(e) => return Err(e),
    };
    let q1 = skip_ws(s, p1);
    if !char_at(s, q1, '{') {
        return Err(expected("`{`", q1));
    }
    match match_arms(s, q1 + 1) {
        Ok((arms, np)) => Ok((Spanned::new(Expr::Match { scrutinee: Box::new(scrutinee), arms }, span(q, np)), np)),
        Err(e) => Err(e),
    }
}

/// `unsafe transmute (...)` with `unsafe` at `q`.
fn unsafe_rest(s: &Vec<char>, q: usize) -> (r: PResult<Spanned<Expr>>)
    requires
        q + 6 <= s.len(),
    ensures
        advances(r, q as int, s.len() as int),
        parsed_expr(r, g_unsafe_rest(s@, q as int)),
    decreases s.len() - (q + 6), 12nat,
{
    proof {
        reveal_strlit("transmute");
    }
    let q1 = skip_ws(s, q + 6);
    if !kw_at(s, q1, "transmute") {
        return Err(expected("`transmute`", q1));
    }
    transmute_rest(s, q, q1 + 9)
}

/// A primary expression.
fn parse_atom(s: &Vec<char>, pos: usize) -> (r: PResult<Spanned<Expr>>)
    requires
        pos <= s.len(),
    ensures
        advances(r, pos as int, s.len() as int),
        parsed_expr(r, g_atom(s@, pos as int)),
    decreases s.len() - pos, 0nat,
{
    proof {
        reveal_strlit("if");
        reveal_strlit("loop");
        reveal_strlit("while");
        reveal_strlit("for");
        reveal_strlit("match");
        reveal_strlit("unsafe");
    }
    let q = skip_ws(s, pos);
    if q >= s.len() {
        return Err(expected("expression", q));
    }
    // Number literal with an optional unit suffix.
    match number_end(s, q) {
        Some(e) => {
            let value = number_from(s, q, e);
            if char_at(s, e, '_') {
                match dim_expr(s, e + 1) {
                    Ok((d, np)) => {
                        return Ok((Spanned::new(Expr::Literal { value, suffix: Some(d) }, span(q, np)), np));
                    },
                    Err(_) => {},
                }
            }
            return Ok((Spanned::new(Expr::Literal { value, suffix: None }, span(q, e)), e));
        },
        None => {},
    }
    if char_at(s, q, '(') {
        return paren_expr(s, q);
    }
    if char_at(s, q, '{') {
        return block_expr(s, q);
    }
    if kw_at(s, q, "if") {
        return if_rest(s, q, q + 2);
    }
    if kw_at(s, q, "loop") {
        return loop_rest(s, q);
    }
    if kw_at(s, q, "while") {
        return while_rest(s, q);
    }
    if kw_at(s, q, "for") {
        return for_rest(s, q);
    }
    if kw_at(s, q, "match") {
        return match_rest(s, q);
    }
    if kw_at(s, q, "unsafe") {
        return unsafe_rest(s, q);
    }
    let (name, p) = match ident_at(s, q) {
        Some(x) => x,
        None => return Err(expected("expression", q)),
    };
    named(s, q, name, p)
}

/// What follows a name: a macro invocation `name!(args)`, a `log("...")`
/// message, a call (`print` with one argument prints), a struct literal,
/// or else the variable.
fn named(s: &Vec<char>, q: usize, name: String, p: usize) -> (r: PResult<Spanned<Expr>>)
    requires
        q < p <= s.len(),
        name@ == s@.subrange(q as int, p as int),
    ensures
        advances(r, q as int, s.len() as int),
        parsed_expr(r, g_named(s@, q as int, p as int)),
    decreases s.len() - p, 11nat,
{
    proof {
        reveal_strlit("log");
        reveal_strlit("print");
    }
    // Macro invocation `name!(args)`.
    if char_at(s, p, '!') && char_at(s, p + 1, '(') {
        match raw_parens(s, p + 2) {
            Ok((args, np)) => return Ok((Spanned::new(Expr::MacroCall { name, args }, span(q, np)), np)),
            Err(e) => return Err(e),
        }
    }
    let q1 = skip_ws(s, p);
    if char_at(s, q1, '(') {
        if crate::text::str_eq(name.as_str(), "log") {
            let q2 = skip_ws(s, q1 + 1);
            if char_at(s, q2, '"') {
                let mut e = q2 + 1;
                while e < s.len() && s[e] != '"'
                    invariant
                        q2 < e <= s.len(),
                        quote_end(s@, e as int) == quote_end(s@, q2 + 1),
                    decreases s.len() - e,
                {
                    e = e + 1;
                }
                if e >= s.len() {
                    return Err(expected("closing `\"`", e));
                }
                let message = string_from_range(s, q2 + 1, e);
                let q3 = skip_ws(s, e + 1);
                if !char_at(s, q3, ')') {
                    return Err(expected("`)`", q3));
                }
                return Ok((Spanned::new(Expr::Log { message }, span(q, q3 + 1)), q3 + 1));
            }
        }
        let (mut args, np) = match call_args(s, q1 + 1) {
            Ok(x) => x,
            Err(e) => return Err(e),
        };
        let ghost whole = args@;
        proof {
            lemma_exprs_view_index(whole);
        }
        if args.len() == 1 && crate::text::str_eq(name.as_str(), "print") {
            let arg = args.pop().unwrap();
            proof {
                assert(arg == whole[0]);
            }
            return Ok((Spanned::new(Expr::Print { expr: Box::new(arg) }, span(q, np)), np));
        }
        return Ok((Spanned::new(Expr::Call { func: name, args }, span(q, np)), np));
    }
    let q2 = skip_ws(s, p);
    if is_upper(s[q]) && char_at(s, q2, '{') && struct_lit_ahead(s, p) {
        match struct_fields(s, q2 + 1) {
            Ok((fields, np)) => return Ok((Spanned::new(Expr::StructLit { name, fields }, span(q, np)), np)),
            Err(e) => return Err(e),
        }
    }
    Ok((Spanned::new(Expr::Variable(name), span(q, p)), p))
}

// ── Statements ──────────────────────────────────────────────────────────────

/// Whether `name =` (not `==`) stands at `q`: an assignment.
fn assign_ahead(s: &Vec<char>, q: usize) -> (r: Option<(String, usize)>)
    requires
        q <= s.len(),
    ensures
        r matches Some((_, w)) ==> q < w <= s.len(),
        match r {
            Some((name, w)) => ident_end(s@, q as int) matches Some(p) && name@ == s@.subrange(q as int, p)
                && w == ws_end(s@, p) + 1 && char_is(s@, ws_end(s@, p), '=') && !char_is(s@, ws_end(s@, p) + 1, '='),
            None => !(ident_end(s@, q as int) matches Some(p) && char_is(s@, ws_end(s@, p), '=')
                && !char_is(s@, ws_end(s@, p) + 1, '=')),
        },
{
    match ident_at(s, q) {
        Some((name, p)) => {
            let q2 = skip_ws(s, p);
            if char_at(s, q2, '=') && !char_at(s, q2 + 1, '=') {
                Some((name, q2 + 1))
            } else {
                None
            }
        },
        None => None,
    }
}

/// `let [mut] name [: unit] = expr;` with `let` at `q`.
fn let_stmt(s: &Vec<char>, q: usize) -> (r: PResult<Spanned<Stmt>>)
    requires
        q + 3 <= s.len(),
    ensures
        advances(r, q as int, s.len() as int),
        match r {
            Ok((st, p)) => g_let(s@, q as int) == Some((stmt_view(st), p as int)),
            Err(_) => g_let(s@, q as int) is None,
        },
    decreases s.len() - q, 8nat,
{
    proof {
        reveal_strlit("mut");
    }
    let mut p = skip_ws(s, q + 3);
    let is_mut = kw_at(s, p, "mut");
    if is_mut {
        p = skip_ws(s, p + 3);
    }
    let (name, p1) = match ident_at(s, p) {
        Some(x) => x,
        None => return Err(expected("variable name", p)),
    };
    let mut q1 = skip_ws(s, p1);
    let mut declared_type: Option<Spanned<DimExpr>> = None;
    if char_at(s, q1, ':') {
        match dim_expr(s, q1 + 1) {
            Ok((d, np)) => {
                declared_type = Some(d);
                q1 = skip_ws(s, np);
            },
            Err(e) => return Err(e),
        }
    }
    if !char_at(s, q1, '=') {
        return Err(expected("`=`", q1));
    }
    let (init, p2) = match expr_at(s, q1 + 1) {
        Ok(x) => x,
        Err(e) => return Err(e),
    };
    let q2 = skip_ws(s, p2);
    if !char_at(s, q2, ';') {
        return Err(expected("`;`", q2));
    }
    Ok((Spanned::new(Stmt::Let { name, declared_type, init, is_mut }, span(q, q2 + 1)), q2 + 1))
}

/// One statement.  A statement that ends a block, or whose expression ends
/// with a brace block, may omit its `;`.
pub fn parse_stmt(s: &Vec<char>, pos: usize) -> (r: PResult<Spanned<Stmt>>)
    requires
        pos <= s.len(),
    ensures
        advances(r, pos as int, s.len() as int),
        match r {
            Ok((st, p)) => g_stmt(s@, pos as int) == Some((stmt_view(st), p as int)),
            Err(_) => g_stmt(s@, pos as int) is None,
        },
    decreases s.len() - pos, 10nat,
{
    proof {
        reveal_strlit("let");
        reveal_strlit("break");
        reveal_strlit("continue");
    }
    let q = skip_ws(s, pos);
    if kw_at(s, q, "let") {
        return let_stmt(s, q);
    }
    let is_break = kw_at(s, q, "break");
    let is_continue = !is_break && kw_at(s, q, "continue");
    if is_break || is_continue {
        let w: usize = if is_break { 5 } else { 8 };
        let q2 = skip_ws(s, q + w);
        if !char_at(s, q2, ';') {
            return Err(expected("`;`", q2));
        }
        let st = if is_break { Stmt::Break } else { Stmt::Continue };
        return Ok((Spanned::new(st, span(q, q2 + 1)), q2 + 1));
    }
    expr_stmt(s, q)
}

/// An assignment `name = expr;` or an expression statement at `q`.
fn expr_stmt(s: &Vec<char>, q: usize) -> (r: PResult<Spanned<Stmt>>)
    requires
        q <= s.len(),
    ensures
        advances(r, q as int, s.len() as int),
        match r {
            Ok((st, p)) => g_expr_stmt(s@, q as int) == Some((stmt_view(st), p as int)),
            Err(_) => g_expr_stmt(s@, q as int) is None,
        },
    decreases s.len() - q, 9nat,
{
    match assign_ahead(s, q) {
        Some((target, w)) => {
            let (value, p2) = match expr_at(s, w) {
                Ok(x) => x,
                Err(e) => return Err(e),
            };
            let q2 = skip_ws(s, p2);
            if !char_at(s, q2, ';') {
                return Err(expected("`;`", q2));
            }
            return Ok((Spanned::new(Stmt::Assign { target, value }, span(q, q2 + 1)), q2 + 1));
        },
        None => {},
    }
    let (e, p) = match expr_at(s, q) {
        Ok(x) => x,
        Err(e) => return Err(e),
    };
    let q2 = skip_ws(s, p);
    if char_at(s, q2, ';') {
        Ok((Spanned::new(Stmt::Expr(e), span(q, q2 + 1)), q2 + 1))
    } else if is_block_like(&e.node) || char_at(s, q2, '}') {
        Ok((Spanned::new(Stmt::Expr(e), span(q, p)), p))
    } else {
        Err(expected("`;`", q2))
    }
}

/// Statements after `{`, up to and including the closing `}`.
pub fn parse_block_body(s: &Vec<char>, pos: usize) -> (r: PResult<Vec<Spanned<Stmt>>>)
    requires
        pos <= s.len(),
    ensures
        advances(r, pos as int, s.len() as int),
        match r {
            Ok((v, p)) => g_block_body(s@, pos as int, Seq::empty()) == Some((stmts_view(v@), p as int)),
            Err(_) => g_block_body(s@, pos as int, Seq::empty()) is None,
        },
    decreases s.len() - pos, 11nat,
{
    let mut stmts: Vec<Spanned<Stmt>> = Vec::new();
    let mut p = pos;
    loop
        invariant
            pos <= p <= s.len(),
            g_block_body(s@, p as int, stmts_view(stmts@)) == g_block_body(s@, pos as int, Seq::empty()),
        decreases s.len() - p,
    {
        let q = skip_ws(s, p);
        if char_at(s, q, '}') {
            return Ok((stmts, q + 1));
        }
        if q >= s.len() {
            return Err(expected("`}`", q));
        }
        match parse_stmt(s, q) {
            Ok((st, np)) => {
                proof {
                    lemma_stmts_view_push(stmts@, st);
                }
                stmts.push(st);
                p = np;
            },
            Err(e) => return Err(e),
        }
    }
}

/// An expression taking the whole text, surrounding whitespace aside.
pub open spec fn g_whole_expr(s: Seq<char>) -> Option<Spanned<ExprView>> {
    match g_expr(s, 0) {
        Some((e, p)) => if ws_end(s, p) == s.len() { Some(e) } else { None },
        None => None,
    }
}

/// Parse a whole string as one expression (surrounding whitespace allowed).
pub fn parse_expr(input: &str) -> (r: Result<Spanned<Expr>, String>)
    ensures
        match r {
            Ok(e) => g_whole_expr(input@) == Some(expr_view(e)),
            Err(_) => g_whole_expr(input@) is None,
        },
{
    let s = chars_of(input);
    match expr_at(&s, 0) {
        Ok((e, p)) => {
            let q = skip_ws(&s, p);
            if q == s.len() {
                Ok(e)
            } else {
                Err(expected("end of input", q))
            }
        },
        Err(e) => Err(e),
    }
}

} // verus!
