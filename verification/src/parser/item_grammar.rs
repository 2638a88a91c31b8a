//! The grammar of items as spec functions over the text, in the manner of
//! the expression grammar: what each parsing function returns, as a model,
//! with the position after it (`None` where the parser refuses the input).
use vstd::prelude::*;
use crate::ast::{
    ArmView, BodyView, DimView, ExprView, ItemView, Number, PropsView, Span, Spanned, StmtView, Visibility,
};
use crate::decimal::spec_decimal_parse;
use crate::parser::grammar::{g_block_body, g_dim, g_expr, g_raw_parens, span_of};
use crate::parser::docs::prep;
use crate::ast::view_with_doc;
use crate::parser::lex::{ascii_digit, char_is, ident_end, kw_is, lemma_scan_ends, lit_is, ws_end};

verus! {

/// The position after the character `c`, which must follow optional whitespace.
pub open spec fn g_expect(s: Seq<char>, pos: int, c: char) -> Option<int> {
    let q = ws_end(s, pos);
    if char_is(s, q, c) { Some(q + 1) } else { None }
}

/// An identifier after optional whitespace.
pub open spec fn g_ident_ws(s: Seq<char>, pos: int) -> Option<(Seq<char>, int)> {
    let q = ws_end(s, pos);
    match ident_end(s, q) {
        Some(p) => Some((s.subrange(q, p), p)),
        None => None,
    }
}

/// `pub(crate)`, `pub` or nothing, after optional whitespace.
pub open spec fn g_visibility(s: Seq<char>, pos: int) -> (Visibility, int) {
    let q = ws_end(s, pos);
    if lit_is(s, q, "pub(crate)"@) {
        (Visibility::Crate, q + 10)
    } else if kw_is(s, q, "pub"@) {
        (Visibility::Public, q + 3)
    } else {
        (Visibility::Private, pos)
    }
}

/// Attribute arguments `arg, ... )` from `p` on, with those read so far.
pub open spec fn g_attr_args(s: Seq<char>, p: int, acc: Seq<Seq<char>>) -> Option<(Seq<Seq<char>>, int)>
    decreases s.len() - p,
{
    match g_ident_ws(s, p) {
        None => None,
        Some((arg, np)) => {
            let q2 = ws_end(s, np);
            if q2 + 1 <= p || q2 + 1 > s.len() {
                None
            } else if char_is(s, q2, ',') {
                g_attr_args(s, q2 + 1, acc.push(arg))
            } else if char_is(s, q2, ')') {
                Some((acc.push(arg), q2 + 1))
            } else {
                None
            }
        },
    }
}

/// `#[name]` or `#[name(arg, ...)]`, with `#` at `pos`.
pub open spec fn g_attribute(s: Seq<char>, pos: int) -> Option<((Seq<char>, Seq<Seq<char>>), int)> {
    match g_expect(s, pos + 1, '[') {
        None => None,
        Some(p0) => match g_ident_ws(s, p0) {
            None => None,
            Some((name, p1)) => {
                let q = ws_end(s, p1);
                let q1 = ws_end(s, q + 1);
                let args: Option<(Seq<Seq<char>>, int)> = if !char_is(s, q, '(') {
                    Some((Seq::empty(), p1))
                } else if char_is(s, q1, ')') {
                    Some((Seq::empty(), q1 + 1))
                } else {
                    g_attr_args(s, q + 1, Seq::empty())
                };
                match args {
                    None => None,
                    Some((a, p)) => match g_expect(s, p, ']') {
                        Some(e) => Some(((name, a), e)),
                        None => None,
                    },
                }
            },
        },
    }
}

/// The `::segment` continuations of a `use` path from `p` on: the segments,
/// whether it ends with `::*`, and the position after it.
pub open spec fn g_use_path(s: Seq<char>, p: int, acc: Seq<Seq<char>>) -> Option<(Seq<Seq<char>>, bool, int)>
    decreases s.len() - p,
{
    if !lit_is(s, p, "::"@) {
        Some((acc, false, p))
    } else if char_is(s, p + 2, '*') {
        Some((acc, true, p + 3))
    } else {
        match ident_end(s, p + 2) {
            Some(np) => if np <= p || np > s.len() { None } else { g_use_path(s, np, acc.push(s.subrange(p + 2, np))) },
            None => None,
        }
    }
}

/// `use a::b::c [as d];` or `use a::b::*;`, `pos` just after `use`, which
/// stands at `start`.
pub open spec fn g_use(s: Seq<char>, start: int, pos: int) -> Option<(Spanned<ItemView>, int)> {
    match g_ident_ws(s, pos) {
        None => None,
        Some((first, p0)) => match g_use_path(s, p0, seq![first]) {
            None => None,
            Some((path, glob, p1)) => {
                let q = ws_end(s, p1);
                let alias: Option<(Option<Seq<char>>, int)> = if !glob && kw_is(s, q, "as"@) {
                    match g_ident_ws(s, q + 2) {
                        Some((a, np)) => Some((Some(a), np)),
                        None => None,
                    }
                } else {
                    Some((None, p1))
                };
                match alias {
                    None => None,
                    Some((al, p)) => match g_expect(s, p, ';') {
                        Some(e) => Some((Spanned { node: ItemView::Use(path, al, glob), span: span_of(start, e) }, e)),
                        None => None,
                    },
                }
            },
        },
    }
}

/// `type Name = unit;`, `pos` just after `type`.
pub open spec fn g_type_alias(s: Seq<char>, start: int, pos: int) -> Option<(Spanned<ItemView>, int)> {
    match g_ident_ws(s, pos) {
        None => None,
        Some((name, p)) => match g_expect(s, p, '=') {
            None => None,
            Some(p2) => match g_dim(s, p2) {
                None => None,
                Some((d, p3)) => match g_expect(s, p3, ';') {
                    Some(e) => Some((Spanned { node: ItemView::TypeAlias(name, d, None), span: span_of(start, e) }, e)),
                    None => None,
                },
            },
        },
    }
}

/// `[pub] name: unit`
pub open spec fn g_field(s: Seq<char>, pos: int) -> Option<((Seq<char>, Spanned<DimView>, Visibility), int)> {
    let (vis, p) = g_visibility(s, pos);
    match g_ident_ws(s, p) {
        None => None,
        Some((name, p1)) => match g_expect(s, p1, ':') {
            None => None,
            Some(p2) => match g_dim(s, p2) {
                Some((d, e)) => Some(((name, d, vis), e)),
                None => None,
            },
        },
    }
}

/// Struct fields from `p` on, up to `}`, with those read so far.
pub open spec fn g_struct_body(s: Seq<char>, p: int, acc: Seq<(Seq<char>, Spanned<DimView>, Visibility)>)
    -> Option<(Seq<(Seq<char>, Spanned<DimView>, Visibility)>, int)>
    decreases s.len() - p,
{
    let q = ws_end(s, p);
    if char_is(s, q, '}') {
        Some((acc, q + 1))
    } else {
        match g_field(s, q) {
            None => None,
            Some((f, np)) => {
                let q2 = ws_end(s, np);
                if q2 <= p || q2 > s.len() {
                    None
                } else if char_is(s, q2, ',') {
                    g_struct_body(s, q2 + 1, acc.push(f))
                } else if char_is(s, q2, '}') {
                    g_struct_body(s, q2, acc.push(f))
                } else {
                    None
                }
            },
        }
    }
}

/// `struct Name { field, ... }`, `pos` just after `struct`.
pub open spec fn g_struct(s: Seq<char>, start: int, pos: int, vis: Visibility) -> Option<(Spanned<ItemView>, int)> {
    match g_ident_ws(s, pos) {
        None => None,
        Some((name, p)) => match g_expect(s, p, '{') {
            None => None,
            Some(p2) => match g_struct_body(s, p2, Seq::empty()) {
                Some((fields, e)) => Some((Spanned { node: ItemView::Struct(name, fields, vis, None), span: span_of(start, e) }, e)),
                None => None,
            },
        },
    }
}

/// `[mut] name: unit`
pub open spec fn g_param(s: Seq<char>, pos: int) -> Option<((Seq<char>, Spanned<DimView>, bool), int)> {
    let p0 = ws_end(s, pos);
    let is_mut = kw_is(s, p0, "mut"@);
    let p = if is_mut { p0 + 3 } else { p0 };
    match g_ident_ws(s, p) {
        None => None,
        Some((name, p1)) => match g_expect(s, p1, ':') {
            None => None,
            Some(p2) => match g_dim(s, p2) {
                Some((d, e)) => Some(((name, d, is_mut), e)),
                None => None,
            },
        },
    }
}

/// Parameters from `p` on, up to `)`, with those read so far.
pub open spec fn g_params(s: Seq<char>, p: int, acc: Seq<(Seq<char>, Spanned<DimView>, bool)>)
    -> Option<(Seq<(Seq<char>, Spanned<DimView>, bool)>, int)>
    decreases s.len() - p,
{
    let q = ws_end(s, p);
    if char_is(s, q, ')') {
        Some((acc, q + 1))
    } else {
        match g_param(s, q) {
            None => None,
            Some((prm, np)) => {
                let q2 = ws_end(s, np);
                if q2 <= p || q2 > s.len() {
                    None
                } else if char_is(s, q2, ',') {
                    g_params(s, q2 + 1, acc.push(prm))
                } else if char_is(s, q2, ')') {
                    g_params(s, q2, acc.push(prm))
                } else {
                    None
                }
            },
        }
    }
}

/// `fn name(params) [-> unit] (:= expr; | { stmts })`, `pos` just after
/// `fn`, with the item's visibility and attributes.
pub open spec fn g_fn(s: Seq<char>, start: int, pos: int, vis: Visibility, attrs: Seq<(Seq<char>, Seq<Seq<char>>)>)
    -> Option<(Spanned<ItemView>, int)>
{
    match g_ident_ws(s, pos) {
        None => None,
        Some((name, p)) => match g_expect(s, p, '(') {
            None => None,
            Some(p2) => match g_params(s, p2, Seq::empty()) {
                None => None,
                Some((params, p3)) => {
                    let q = ws_end(s, p3);
                    let ret: Option<(Option<Spanned<DimView>>, int)> = if lit_is(s, q, "->"@) {
                        match g_dim(s, q + 2) {
                            Some((d, np)) => Some((Some(d), np)),
                            None => None,
                        }
                    } else {
                        Some((None, p3))
                    };
                    match ret {
                        None => None,
                        Some((rt, p4)) => {
                            let q2 = ws_end(s, p4);
                            let body: Option<(BodyView, int)> = if lit_is(s, q2, ":="@) {
                                match g_expr(s, q2 + 2) {
                                    Some((e, np)) => match g_expect(s, np, ';') {
                                        Some(e2) => Some((BodyView::Expression(e), e2)),
                                        None => None,
                                    },
                                    None => None,
                                }
                            } else if char_is(s, q2, '{') {
                                match g_block_body(s, q2 + 1, Seq::empty()) {
                                    Some((stmts, e2)) => Some((BodyView::Block(stmts), e2)),
                                    None => None,
                                }
                            } else {
                                None
                            };
                            match body {
                                Some((b, e)) => Some((Spanned {
                                    node: ItemView::Function(name, params, rt, b, vis, attrs, None),
                                    span: span_of(start, e),
                                }, e)),
                                None => None,
                            }
                        },
                    }
                },
            },
        },
    }
}

/// `true` or `false` after optional whitespace.
pub open spec fn g_bool(s: Seq<char>, pos: int) -> Option<(bool, int)> {
    let q = ws_end(s, pos);
    if lit_is(s, q, "true"@) {
        Some((true, q + 4))
    } else if lit_is(s, q, "false"@) {
        Some((false, q + 5))
    } else {
        None
    }
}

/// The end of the run of digits and points starting at `p`.
pub open spec fn cost_end(s: Seq<char>, p: int) -> int
    decreases s.len() - p,
{
    if 0 <= p < s.len() && (ascii_digit(s[p]) || s[p] == '.') { cost_end(s, p + 1) } else { p }
}

/// The cost written at `lo..hi`: the decimal it spells, or one.
pub open spec fn cost_number(s: Seq<char>, lo: int, hi: int) -> Number {
    match spec_decimal_parse(s.subrange(lo, hi)) {
        Some(v) => v,
        None => Number { mantissa: 1, scale: 0 },
    }
}

/// The flags and cost of a `properties` block.
pub type Flags = (bool, bool, bool, Option<Number>);

/// One flag `name[: bool]` at `q` (`which` 1 vectorizable, 2 commutative,
/// 3 associative): the flags with it set, and the position after it.
pub open spec fn g_flag(s: Seq<char>, q: int, which: int, f: Flags) -> Option<(Flags, int)> {
    let np0 = q + if which == 1 { 12int } else { 11int };
    let c = ws_end(s, np0);
    let value: Option<(bool, int)> = if char_is(s, c, ':') { g_bool(s, c + 1) } else { Some((true, np0)) };
    match value {
        None => None,
        Some((b, np)) => Some((
            if which == 1 { (b, f.1, f.2, f.3) } else if which == 2 { (f.0, b, f.2, f.3) } else { (f.0, f.1, b, f.3) },
            np,
        )),
    }
}

/// The entries of a `properties` block from `p` on, up to `}`, with the
/// flags read so far.
pub open spec fn g_props(s: Seq<char>, p: int, f: Flags) -> Option<(Flags, int)>
    decreases s.len() - p,
{
    let q = ws_end(s, p);
    if char_is(s, q, '}') {
        Some((f, q + 1))
    } else {
        let entry: Option<(Flags, int)> = if lit_is(s, q, "cost"@) {
            match g_expect(s, q + 4, ':') {
                None => None,
                Some(c) => {
                    let lo = ws_end(s, c);
                    let hi = cost_end(s, lo);
                    if hi == lo { None } else { Some(((f.0, f.1, f.2, Some(cost_number(s, lo, hi))), hi)) }
                },
            }
        } else if lit_is(s, q, "vectorizable"@) {
            g_flag(s, q, 1, f)
        } else if lit_is(s, q, "commutative"@) {
            g_flag(s, q, 2, f)
        } else if lit_is(s, q, "associative"@) {
            g_flag(s, q, 3, f)
        } else {
            None
        };
        match entry {
            None => None,
            Some((f2, np)) => {
                let q2 = ws_end(s, np);
                let next = if char_is(s, q2, ',') { q2 + 1 } else { np };
                if next <= p || next > s.len() { None } else { g_props(s, next, f2) }
            },
        }
    }
}

/// A `properties { ... }` block, `pos` just after `properties`.
pub open spec fn g_properties(s: Seq<char>, pos: int) -> Option<(Flags, int)> {
    match g_expect(s, pos, '{') {
        Some(p) => g_props(s, p, (false, false, false, None)),
        None => None,
    }
}

/// `pattern (=>|->) replacement`
pub open spec fn g_rewrite(s: Seq<char>, pos: int) -> Option<((Spanned<ExprView>, Spanned<ExprView>), int)> {
    match g_expr(s, pos) {
        None => None,
        Some((pattern, p)) => {
            let q = ws_end(s, p);
            if !(lit_is(s, q, "=>"@) || lit_is(s, q, "->"@)) {
                None
            } else {
                match g_expr(s, q + 2) {
                    Some((replacement, e)) => Some(((pattern, replacement), e)),
                    None => None,
                }
            }
        },
    }
}

/// The rules of a section from `p` on, up to `}`, with those read so far:
/// simplification rules, or (when `egraph`) `[after] rewrite` rules.
pub open spec fn g_rules(
    s: Seq<char>,
    p: int,
    egraph: bool,
    simp: Seq<(Spanned<ExprView>, Spanned<ExprView>)>,
    eg: Seq<(Spanned<ExprView>, Spanned<ExprView>, bool)>,
) -> Option<(Seq<(Spanned<ExprView>, Spanned<ExprView>)>, Seq<(Spanned<ExprView>, Spanned<ExprView>, bool)>, int)>
    decreases s.len() - p,
{
    let q = ws_end(s, p);
    if char_is(s, q, '}') {
        Some((simp, eg, q + 1))
    } else {
        let after = egraph && kw_is(s, q, "after"@);
        let rq0 = if after { ws_end(s, q + 5) } else { q };
        if egraph && !kw_is(s, rq0, "rewrite"@) {
            None
        } else {
            let rq = if egraph { rq0 + 7 } else { q };
            match g_rewrite(s, rq) {
                None => None,
                Some(((pat, rep), np)) => {
                    let q2 = ws_end(s, np);
                    let next = if char_is(s, q2, ',') { q2 + 1 } else { np };
                    if next <= p || next > s.len() {
                        None
                    } else if egraph {
                        g_rules(s, next, egraph, simp, eg.push((pat, rep, after)))
                    } else {
                        g_rules(s, next, egraph, simp.push((pat, rep)), eg)
                    }
                },
            }
        }
    }
}

/// A `simplify { ... }` or `egraph { ... }` section, `pos` just after its keyword.
pub open spec fn g_rules_block(s: Seq<char>, pos: int, egraph: bool)
    -> Option<(Seq<(Spanned<ExprView>, Spanned<ExprView>)>, Seq<(Spanned<ExprView>, Spanned<ExprView>, bool)>, int)>
{
    match g_expect(s, pos, '{') {
        Some(p) => g_rules(s, p, egraph, Seq::empty(), Seq::empty()),
        None => None,
    }
}

/// Simplification rules, as models.
pub type SimpRules = Seq<(Spanned<ExprView>, Spanned<ExprView>)>;

/// E-graph rules, as models.
pub type EgRules = Seq<(Spanned<ExprView>, Spanned<ExprView>, bool)>;

/// One section of an op's body at `q`: the flags and rules after it, and
/// the position after it.
pub open spec fn g_op_step(s: Seq<char>, q: int, f: Flags, simp: SimpRules, eg: EgRules) -> Option<(Flags, SimpRules, EgRules, int)> {
    if kw_is(s, q, "properties"@) {
        match g_properties(s, q + 10) {
            Some((f2, np)) => Some((f2, simp, eg, np)),
            None => None,
        }
    } else if kw_is(s, q, "simplify"@) {
        match g_rules_block(s, q + 8, false) {
            Some((rules, _, np)) => Some((f, rules, eg, np)),
            None => None,
        }
    } else if kw_is(s, q, "egraph"@) {
        match g_rules_block(s, q + 6, true) {
            Some((_, rules, np)) => Some((f, simp, rules, np)),
            None => None,
        }
    } else {
        None
    }
}

/// The sections of an op's body from `p` on, up to `}`, with the flags and
/// rules read so far; a later section of a kind replaces an earlier one.
pub open spec fn g_op_sections(s: Seq<char>, p: int, f: Flags, simp: SimpRules, eg: EgRules) -> Option<(Flags, SimpRules, EgRules, int)>
    decreases s.len() - p,
{
    let q = ws_end(s, p);
    if char_is(s, q, '}') {
        Some((f, simp, eg, q + 1))
    } else {
        let step = g_op_step(s, q, f, simp, eg);
        match step {
            None => None,
            Some((f2, simp2, eg2, np)) => if np <= p || np > s.len() { None } else { g_op_sections(s, np, f2, simp2, eg2) },
        }
    }
}

/// `{ properties {..} simplify {..} egraph {..} }`, each section optional.
pub open spec fn g_op_body(s: Seq<char>, pos: int) -> Option<(PropsView, int)> {
    match g_expect(s, pos, '{') {
        Some(p) => match g_op_sections(s, p, (false, false, false, None), Seq::empty(), Seq::empty()) {
            Some((f, simp, eg, e)) => Some((PropsView {
                vectorizable: f.0,
                commutative: f.1,
                associative: f.2,
                cost: f.3,
                simplify: simp,
                egraph: eg,
            }, e)),
            None => None,
        },
        None => None,
    }
}

/// `op name(param: unit -> unit) { ... }`, `pos` just after `op`.
pub open spec fn g_op(s: Seq<char>, start: int, pos: int, vis: Visibility) -> Option<(Spanned<ItemView>, int)> {
    match g_ident_ws(s, pos) {
        None => None,
        Some((name, p1)) => match g_expect(s, p1, '(') {
            None => None,
            Some(p2) => match g_ident_ws(s, p2) {
                None => None,
                Some((param, p3)) => match g_expect(s, p3, ':') {
                    None => None,
                    Some(p4) => match g_dim(s, p4) {
                        None => None,
                        Some((input, p5)) => {
                            let q = ws_end(s, p5);
                            if !lit_is(s, q, "->"@) {
                                None
                            } else {
                                match g_dim(s, q + 2) {
                                    None => None,
                                    Some((output, p6)) => match g_expect(s, p6, ')') {
                                        None => None,
                                        Some(p7) => match g_op_body(s, p7) {
                                            Some((props, e)) => Some((Spanned {
                                                node: ItemView::CustomOp(name, param, input, output, vis, props, None),
                                                span: span_of(start, e),
                                            }, e)),
                                            None => None,
                                        },
                                    },
                                }
                            }
                        },
                    },
                },
            },
        },
    }
}

/// `const NAME [: unit] = expr;`, `pos` just after `const`.
pub open spec fn g_const(s: Seq<char>, start: int, pos: int, vis: Visibility) -> Option<(Spanned<ItemView>, int)> {
    match g_ident_ws(s, pos) {
        None => None,
        Some((name, p)) => {
            let q = ws_end(s, p);
            let dim: Option<(Option<Spanned<DimView>>, int)> = if char_is(s, q, ':') {
                match g_dim(s, q + 1) {
                    Some((d, np)) => Some((Some(d), np)),
                    None => None,
                }
            } else {
                Some((None, p))
            };
            match dim {
                None => None,
                Some((d, p1)) => match g_expect(s, p1, '=') {
                    None => None,
                    Some(p2) => match g_expr(s, p2) {
                        None => None,
                        Some((value, p3)) => match g_expect(s, p3, ';') {
                            Some(e) => Some((Spanned { node: ItemView::Const(name, d, value, vis, None), span: span_of(start, e) }, e)),
                            None => None,
                        },
                    },
                },
            }
        },
    }
}

/// Whether `c` is ASCII whitespace.
pub open spec fn ascii_space(c: char) -> bool {
    c == ' ' || c == '\t' || c == '\n' || c == '\r' || c == '\x0C'
}

/// The first index in `i..hi` not holding ASCII whitespace (`hi` if none).
pub open spec fn aws_end(s: Seq<char>, i: int, hi: int) -> int
    decreases hi - i,
{
    if i < hi && ascii_space(s[i]) { aws_end(s, i + 1, hi) } else { i }
}

/// The end of `lo..hi` once trailing ASCII whitespace is removed.
pub open spec fn aws_back(s: Seq<char>, lo: int, hi: int) -> int
    decreases hi - lo,
{
    if hi > lo && ascii_space(s[hi - 1]) { aws_back(s, lo, hi - 1) } else { hi }
}

/// The text `lo..hi` without leading and trailing ASCII whitespace.
pub open spec fn trimmed_text(s: Seq<char>, lo: int, hi: int) -> Seq<char> {
    let a = aws_end(s, lo, hi);
    s.subrange(a, aws_back(s, a, hi))
}

/// The index of the `close` that balances the `open`s, `depth` deep, from
/// `i` on, below `hi`.
pub open spec fn balanced_end(s: Seq<char>, i: int, hi: int, open: char, close: char, depth: int) -> Option<int>
    decreases hi - i,
{
    if i >= hi {
        None
    } else if s[i] == open {
        if depth >= usize::MAX { None } else { balanced_end(s, i + 1, hi, open, close, depth + 1) }
    } else if s[i] == close {
        if depth == 1 { Some(i) } else { balanced_end(s, i + 1, hi, open, close, depth - 1) }
    } else {
        balanced_end(s, i + 1, hi, open, close, depth)
    }
}

/// The `(pattern) => { replacement }` rules in `i..hi`, after those read
/// so far; reading stops at the first text that is not such a rule.
pub open spec fn g_macro_rules(s: Seq<char>, i: int, hi: int, acc: Seq<(Seq<char>, Seq<char>)>) -> Seq<(Seq<char>, Seq<char>)>
    decreases hi - i,
{
    let a = aws_end(s, i, hi);
    if i >= hi || a >= hi || s[a] != '(' {
        acc
    } else {
        match balanced_end(s, a + 1, hi, '(', ')', 1) {
            None => acc,
            Some(pe) => {
                let b0 = aws_end(s, pe + 1, hi);
                let b1 = if b0 < hi && b0 + 1 < hi && s[b0] == '=' && s[b0 + 1] == '>' { b0 + 2 } else { b0 };
                let c = aws_end(s, b1, hi);
                if c >= hi || s[c] != '{' {
                    acc
                } else {
                    match balanced_end(s, c + 1, hi, '{', '}', 1) {
                        None => acc,
                        Some(re) => if re + 1 <= i || re >= hi {
                            acc
                        } else {
                            g_macro_rules(s, re + 1, hi, acc.push((trimmed_text(s, a + 1, pe), trimmed_text(s, c + 1, re))))
                        },
                    }
                }
            },
        }
    }
}

/// `macro_rules! name { rules }`, `pos` just after `macro_rules!`.
pub open spec fn g_macro_def(s: Seq<char>, start: int, pos: int) -> Option<(Spanned<ItemView>, int)> {
    match g_ident_ws(s, pos) {
        None => None,
        Some((name, p)) => match g_expect(s, p, '{') {
            None => None,
            Some(p2) => match balanced_end(s, p2, s.len() as int, '{', '}', 1) {
                Some(e) => Some((Spanned {
                    node: ItemView::MacroDef(name, g_macro_rules(s, p2, e, Seq::empty())),
                    span: span_of(start, e + 1),
                }, e + 1)),
                None => None,
            },
        },
    }
}

/// `name!(args);` at item level, `name` at `pos`.
pub open spec fn g_macro_call(s: Seq<char>, pos: int) -> Option<(Spanned<ItemView>, int)> {
    match ident_end(s, pos) {
        None => None,
        Some(p) => if !char_is(s, p, '!') {
            None
        } else {
            match g_expect(s, p + 1, '(') {
                None => None,
                Some(p2) => match g_raw_parens(s, p2) {
                    None => None,
                    Some((args, p3)) => match g_expect(s, p3, ';') {
                        Some(e) => Some((Spanned { node: ItemView::MacroCall(s.subrange(pos, p), args), span: span_of(pos, e) }, e)),
                        None => None,
                    },
                },
            }
        },
    }
}

/// Attributes from `p` on, with those read so far, and the position after them.
pub open spec fn g_attrs(s: Seq<char>, p: int, acc: Seq<(Seq<char>, Seq<Seq<char>>)>) -> Option<(Seq<(Seq<char>, Seq<Seq<char>>)>, int)>
    decreases s.len() - p,
{
    let q = ws_end(s, p);
    if !char_is(s, q, '#') {
        Some((acc, p))
    } else {
        match g_attribute(s, q) {
            Some((a, np)) => if np <= p || np > s.len() { None } else { g_attrs(s, np, acc.push(a)) },
            None => None,
        }
    }
}

/// One item after optional whitespace.
pub open spec fn g_item(s: Seq<char>, pos: int) -> Option<(Spanned<ItemView>, int)>
    decreases s.len() - pos, 1int,
{
    if pos < 0 || pos > s.len() {
        None
    } else {
        let start = ws_end(s, pos);
        proof {
            lemma_scan_ends(s, pos);
            reveal_strlit("mod");
        }
        match g_attrs(s, start, Seq::empty()) {
            None => None,
            Some((attrs, p0)) => {
                let (vis, p) = g_visibility(s, p0);
                let q = ws_end(s, p);
                let plain = attrs.len() == 0 && vis == Visibility::Private;
                if kw_is(s, q, "fn"@) {
                    g_fn(s, start, q + 2, vis, attrs)
                } else if attrs.len() > 0 {
                    None
                } else if kw_is(s, q, "struct"@) {
                    g_struct(s, start, q + 6, vis)
                } else if kw_is(s, q, "op"@) {
                    g_op(s, start, q + 2, vis)
                } else if kw_is(s, q, "const"@) {
                    g_const(s, start, q + 5, vis)
                } else if kw_is(s, q, "mod"@) {
                    match g_ident_ws(s, q + 3) {
                        None => None,
                        Some((name, p1)) => {
                            let q1 = ws_end(s, p1);
                            if char_is(s, q1, ';') {
                                Some((Spanned { node: ItemView::Module(name, None, vis, None), span: span_of(start, q1 + 1) }, q1 + 1))
                            } else if !char_is(s, q1, '{') || q1 + 1 <= pos {
                                None
                            } else {
                                match g_items_until_brace(s, q1 + 1, Seq::empty()) {
                                    Some((items, e)) => Some((Spanned {
                                        node: ItemView::Module(name, Some(items), vis, None),
                                        span: span_of(start, e),
                                    }, e)),
                                    None => None,
                                }
                            }
                        },
                    }
                } else if !plain {
                    None
                } else if kw_is(s, q, "use"@) {
                    g_use(s, start, q + 3)
                } else if kw_is(s, q, "type"@) {
                    g_type_alias(s, start, q + 4)
                } else if lit_is(s, q, "macro_rules!"@) {
                    g_macro_def(s, start, q + 12)
                } else {
                    g_macro_call(s, q)
                }
            },
        }
    }
}

/// Items from `p` on, up to and including a module's closing `}`, with
/// those read so far.
pub open spec fn g_items_until_brace(s: Seq<char>, p: int, acc: Seq<Spanned<ItemView>>) -> Option<(Seq<Spanned<ItemView>>, int)>
    decreases s.len() - p, 2int,
{
    if p < 0 || p > s.len() {
        None
    } else {
        let q = ws_end(s, p);
        proof {
            lemma_scan_ends(s, p);
        }
        if char_is(s, q, '}') {
            Some((acc, q + 1))
        } else if q >= s.len() {
            None
        } else {
            match g_item(s, q) {
                Some((it, np)) => if np <= q || np > s.len() { None } else { g_items_until_brace(s, np, acc.push(it)) },
                None => None,
            }
        }
    }
}

/// All items from `p` on to the end of the text, with those read so far.
pub open spec fn g_items(s: Seq<char>, p: int, acc: Seq<Spanned<ItemView>>) -> Option<Seq<Spanned<ItemView>>>
    decreases s.len() - p,
{
    if p < 0 || p > s.len() {
        None
    } else {
        let q = ws_end(s, p);
        proof {
            lemma_scan_ends(s, p);
        }
        if q >= s.len() {
            Some(acc)
        } else {
            match g_item(s, q) {
                Some((it, np)) => if np <= q || np > s.len() { None } else { g_items(s, np, acc.push(it)) },
                None => None,
            }
        }
    }
}


/// Where [`g_items`] from `p` stops on an item it cannot read: the start of
/// that item (the end of the text when every item reads).
pub open spec fn g_items_fail(s: Seq<char>, p: int) -> int
    decreases s.len() - p,
{
    if p < 0 || p > s.len() {
        p
    } else {
        let q = ws_end(s, p);
        proof {
            lemma_scan_ends(s, p);
        }
        if q >= s.len() {
            q
        } else {
            match g_item(s, q) {
                Some((it, np)) => if np <= q || np > s.len() { q } else { g_items_fail(s, np) },
                None => q,
            }
        }
    }
}

/// The error of a text whose items do not parse: the line of the
/// comment-free code at which the first unreadable item starts.
pub open spec fn source_error(input: Seq<char>) -> Seq<char> {
    let code = prep(input).code;
    let q = g_items_fail(code, 0);
    "cannot parse the item starting `"@ + code.subrange(q, crate::parser::docs::nl_index(code, q)) + "`"@
}

/// The items with their doc comments: item `i` takes the doc `docs[i]`
/// where there is one.
pub open spec fn with_docs(vs: Seq<Spanned<ItemView>>, docs: Seq<Option<Seq<char>>>) -> Seq<Spanned<ItemView>> {
    Seq::new(vs.len(), |i: int| if i < docs.len() { Spanned { node: view_with_doc(vs[i].node, docs[i]), span: vs[i].span } } else { vs[i] })
}

/// The items of a source text: its code, doc comments taken out, read as
/// items to the end, each taking the `///` doc that preceded it.
pub open spec fn g_source(input: Seq<char>) -> Option<Seq<Spanned<ItemView>>> {
    match g_items(prep(input).code, 0, Seq::empty()) {
        Some(v) => Some(with_docs(v, prep(input).item_docs)),
        None => None,
    }
}

} // verus!
