//! Top-level items: `use`, `type`, `struct`, `fn`, `op`, `mod`, `const`,
//! `macro_rules!` and item-level macro invocations.
use vstd::prelude::*;
use crate::ast::{
    Attribute, DimExpr, EGraphRule, Field, FunctionBody, Item, MacroRule, Number, OpProperties,
    Param, SimplifyRule, SourceFile, Span, Spanned, Expr, Visibility,
};
use crate::decimal::{decimal_parse, spec_decimal_parse};
use crate::parser::docs::{attach_item_docs, find_nl, joined, name_opt, nl_index, prep, prepare_source};
use crate::parser::expr::{
    advances, dim_expr, expected, parse_block_body, expr_at, raw_parens, span, PResult,
};
use crate::parser::lex::{char_at, ident_at, is_digit, kw_at, lit_at, skip_ws};
use crate::text::{chars_of, push_char, string_from_range};
use crate::ast::{
    attr_view, dim_view, expr_view, field_view, item_view, items_view, names_view, opt_dim_view, param_view,
    props_view, simplify_view, egraph_view, stmts_view, field_list_view, params_view, attrs_view, simp_list_view,
    eg_list_view, macro_rules_view, lemma_items_view_index, lemma_items_view_push, BodyView, DimView, ExprView, ItemView,
    PropsView,
};
use crate::parser::grammar::{g_block_body, g_dim, g_expr, g_raw_parens, span_of};
use crate::parser::item_grammar::{
    aws_back, aws_end, ascii_space, balanced_end, cost_end, cost_number, g_attr_args, g_attribute, g_attrs, g_bool,
    g_const, g_expect, g_field, g_fn, g_ident_ws, g_item, g_items, g_items_until_brace, g_macro_call, g_macro_def,
    g_macro_rules, g_op, g_op_body, g_op_sections, g_param, g_params, g_properties, g_props, g_rewrite, g_rules,
    g_rules_block, g_op_step, g_source, g_items_fail, source_error, with_docs, g_struct, g_struct_body, g_type_alias, g_use, g_use_path, g_visibility, trimmed_text,
};
use crate::parser::lex::{ident_end, kw_is, lit_is, ws_end, char_is, ascii_digit};

verus! {

/// The position after the character `c`, which must follow optional whitespace.
fn expect_char(s: &Vec<char>, pos: usize, c: char, what: &str) -> (r: Result<usize, String>)
    requires
        pos <= s.len(),
    ensures
        r matches Ok(q) ==> pos < q <= s.len() && s@[q - 1] == c,
        match r {
            Ok(q) => g_expect(s@, pos as int, c) == Some(q as int),
            Err(_) => g_expect(s@, pos as int, c) is None,
        },
{
    let q = skip_ws(s, pos);
    if char_at(s, q, c) {
        Ok(q + 1)
    } else {
        Err(expected(what, q))
    }
}

/// An identifier after optional whitespace.
fn ident_ws(s: &Vec<char>, pos: usize, what: &str) -> (r: PResult<String>)
    requires
        pos <= s.len(),
    ensures
        advances(r, pos as int, s.len() as int),
        match r {
            Ok((n, p)) => g_ident_ws(s@, pos as int) == Some((n@, p as int)),
            Err(_) => g_ident_ws(s@, pos as int) is None,
        },
{
    let q = skip_ws(s, pos);
    match ident_at(s, q) {
        Some(x) => Ok(x),
        None => Err(expected(what, q)),
    }
}

/// `pub(crate)`, `pub` or nothing.
fn visibility(s: &Vec<char>, pos: usize) -> (r: (Visibility, usize))
    requires
        pos <= s.len(),
    ensures
        pos <= r.1 <= s.len(),
        r.0 == Visibility::Private ==> r.1 == pos,
        g_visibility(s@, pos as int) == (r.0, r.1 as int),
{
    proof {
        reveal_strlit("pub(crate)");
        reveal_strlit("pub");
    }
    let q = skip_ws(s, pos);
    if lit_at(s, q, "pub(crate)") {
        proof { reveal_strlit("pub(crate)"); }
        (Visibility::Crate, q + 10)
    } else if kw_at(s, q, "pub") {
        proof { reveal_strlit("pub"); }
        (Visibility::Public, q + 3)
    } else {
        (Visibility::Private, pos)
    }
}

/// `#[name]` or `#[name(arg, ...)]`; `pos` is at `#`.
fn attribute(s: &Vec<char>, pos: usize) -> (r: PResult<Attribute>)
    requires
        pos < s.len(),
    ensures
        advances(r, pos as int, s.len() as int),
        match r {
            Ok((a, p)) => g_attribute(s@, pos as int) == Some((attr_view(a), p as int)),
            Err(_) => g_attribute(s@, pos as int) is None,
        },
{
    let p = match expect_char(s, pos + 1, '[', "`[`") {
        Ok(p) => p,
        Err(e) => return Err(e),
    };
    let (name, mut p) = match ident_ws(s, p, "attribute name") {
        Ok(x) => x,
        Err(e) => return Err(e),
    };
    let ghost p1 = p;
    let mut args: Vec<String> = Vec::new();
    let q = skip_ws(s, p);
    let ghost gargs: Option<(Seq<Seq<char>>, int)> = if !char_is(s@, q as int, '(') {
        Some((Seq::empty(), p1 as int))
    } else if char_is(s@, ws_end(s@, q + 1), ')') {
        Some((Seq::empty(), ws_end(s@, q + 1) + 1))
    } else {
        g_attr_args(s@, q + 1, Seq::empty())
    };
    proof {
        assert(names_view(args@) =~= Seq::<Seq<char>>::empty());
        assert(gargs is None ==> g_attribute(s@, pos as int) is None);
    }
    if char_at(s, q, '(') {
        p = q + 1;
        let q1 = skip_ws(s, p);
        if char_at(s, q1, ')') {
            p = q1 + 1;
        } else {
            loop
                invariant_except_break
                    g_attr_args(s@, p as int, names_view(args@)) == gargs,
                invariant
                    pos < p <= s.len(),
                    gargs == g_attr_args(s@, q + 1, Seq::empty()),
                    gargs is None ==> g_attribute(s@, pos as int) is None,
                ensures
                    pos < p <= s.len(),
                    gargs == Some((names_view(args@), p as int)),
                decreases s.len() - p,
            {
                let (arg, np) = match ident_ws(s, p, "attribute argument") {
                    Ok(x) => x,
                    Err(e) => return Err(e),
                };
                let ghost before = args@;
                args.push(arg);
                proof {
                    assert(names_view(args@) =~= names_view(before).push(arg@));
                }
                let q2 = skip_ws(s, np);
                if char_at(s, q2, ',') {
                    p = q2 + 1;
                } else if char_at(s, q2, ')') {
                    p = q2 + 1;
                    break;
                } else {
                    return Err(expected("`,` or `)`", q2));
                }
            }
        }
    }
    proof {
        assert(gargs == Some((names_view(args@), p as int)));
    }
    match expect_char(s, p, ']', "`]`") {
        Ok(e) => Ok((Attribute { name, args }, e)),
        Err(e) => Err(e),
    }
}

/// `use a::b::c [as d];` or `use a::b::*;`; `pos` is just after `use`.
fn use_item(s: &Vec<char>, start: usize, pos: usize) -> (r: PResult<Spanned<Item>>)
    requires
        start <= pos <= s.len(),
    ensures
        advances(r, pos as int, s.len() as int),
        match r {
            Ok((it, p)) => g_use(s@, start as int, pos as int) == Some((item_view(it), p as int)),
            Err(_) => g_use(s@, start as int, pos as int) is None,
        },
{
    proof {
        reveal_strlit("::");
        reveal_strlit("as");
    }
    let (first, mut p) = match ident_ws(s, pos, "module path") {
        Ok(x) => x,
        Err(e) => return Err(e),
    };
    let mut path: Vec<String> = Vec::new();
    path.push(first);
    let ghost gpath = g_use_path(s@, p as int, seq![first@]);
    proof {
        assert(names_view(path@) =~= seq![first@]);
    }
    let mut glob = false;
    proof {
        assert(gpath is None ==> g_use(s@, start as int, pos as int) is None);
    }
    loop
        invariant_except_break
            !glob,
            gpath == g_use_path(s@, p as int, names_view(path@)),
        invariant
            pos < p <= s.len(),
            "::"@.len() == 2,
            gpath is None ==> g_use(s@, start as int, pos as int) is None,
        ensures
            pos < p <= s.len(),
            gpath == Some((names_view(path@), glob, p as int)),
        decreases s.len() - p,
    {
        if !lit_at(s, p, "::") {
            break;
        }
        if char_at(s, p + 2, '*') {
            glob = true;
            p = p + 3;
            break;
        }
        match ident_at(s, p + 2) {
            Some((seg, np)) => {
                let ghost before = path@;
                path.push(seg);
                proof {
                    assert(names_view(path@) =~= names_view(before).push(seg@));
                }
                p = np;
            },
            None => return Err(expected("path segment", p + 2)),
        }
    }
    let ghost p_path = p;
    let mut alias: Option<String> = None;
    if !glob {
        let q = skip_ws(s, p);
        if kw_at(s, q, "as") {
            match ident_ws(s, q + 2, "alias") {
                Ok((a, np)) => {
                    alias = Some(a);
                    p = np;
                },
                Err(e) => return Err(e),
            }
        }
    }
    match expect_char(s, p, ';', "`;`") {
        Ok(e) => Ok((Spanned::new(Item::Use { path, alias, glob }, span(start, e)), e)),
        Err(e) => Err(e),
    }
}

/// `type Name = dim;`; `pos` is just after `type`.
fn type_alias_item(s: &Vec<char>, start: usize, pos: usize) -> (r: PResult<Spanned<Item>>)
    requires
        start <= pos <= s.len(),
    ensures
        advances(r, pos as int, s.len() as int),
        match r {
            Ok((it, p)) => g_type_alias(s@, start as int, pos as int) == Some((item_view(it), p as int)),
            Err(_) => g_type_alias(s@, start as int, pos as int) is None,
        },
{
    let (name, p) = match ident_ws(s, pos, "type name") {
        Ok(x) => x,
        Err(e) => return Err(e),
    };
    let p = match expect_char(s, p, '=', "`=`") {
        Ok(p) => p,
        Err(e) => return Err(e),
    };
    let (dimension_expr, p) = match dim_expr(s, p) {
        Ok(x) => x,
        Err(e) => return Err(e),
    };
    match expect_char(s, p, ';', "`;`") {
        Ok(e) => Ok((Spanned::new(Item::TypeAlias { name, dimension_expr, doc: None }, span(start, e)), e)),
        Err(e) => Err(e),
    }
}

/// `[pub] name: dim`
fn field(s: &Vec<char>, pos: usize) -> (r: PResult<Field>)
    requires
        pos <= s.len(),
    ensures
        advances(r, pos as int, s.len() as int),
        match r {
            Ok((f, p)) => g_field(s@, pos as int) == Some((field_view(f), p as int)),
            Err(_) => g_field(s@, pos as int) is None,
        },
{
    let (visibility, p) = visibility(s, pos);
    let (name, p) = match ident_ws(s, p, "field name") {
        Ok(x) => x,
        Err(e) => return Err(e),
    };
    let p = match expect_char(s, p, ':', "`:`") {
        Ok(p) => p,
        Err(e) => return Err(e),
    };
    match dim_expr(s, p) {
        Ok((dim, e)) => Ok((Field { name, dim, visibility }, e)),
        Err(e) => Err(e),
    }
}

/// `struct Name { field, ... }`; `pos` is just after `struct`.
fn struct_item(s: &Vec<char>, start: usize, pos: usize, visibility: Visibility) -> (r: PResult<Spanned<Item>>)
    requires
        start <= pos <= s.len(),
    ensures
        advances(r, pos as int, s.len() as int),
        match r {
            Ok((it, p)) => g_struct(s@, start as int, pos as int, visibility) == Some((item_view(it), p as int)),
            Err(_) => g_struct(s@, start as int, pos as int, visibility) is None,
        },
{
    let (name, p) = match ident_ws(s, pos, "struct name") {
        Ok(x) => x,
        Err(e) => return Err(e),
    };
    let mut p = match expect_char(s, p, '{', "`{`") {
        Ok(p) => p,
        Err(e) => return Err(e),
    };
    let ghost body = g_struct_body(s@, p as int, Seq::empty());
    let mut fields: Vec<Field> = Vec::new();
    proof {
        assert(field_list_view(fields@) =~= Seq::<(Seq<char>, Spanned<DimView>, Visibility)>::empty());
    }
    loop
        invariant
            start <= pos < p <= s.len(),
            g_struct_body(s@, p as int, field_list_view(fields@)) == body,
            g_struct(s@, start as int, pos as int, visibility) == (match body {
                Some((fs, e)) => Some((Spanned { node: ItemView::Struct(name@, fs, visibility, None), span: span_of(start as int, e) }, e)),
                None => None,
            }),
        decreases s.len() - p,
    {
        let q = skip_ws(s, p);
        if char_at(s, q, '}') {
            let e = q + 1;
            return Ok((Spanned::new(Item::Struct { name, fields, visibility, doc: None }, span(start, e)), e));
        }
        let (f, np) = match field(s, q) {
            Ok(x) => x,
            Err(e) => return Err(e),
        };
        let ghost before = fields@;
        fields.push(f);
        proof {
            assert(field_list_view(fields@) =~= field_list_view(before).push(field_view(f)));
        }
        let q2 = skip_ws(s, np);
        if char_at(s, q2, ',') {
            p = q2 + 1;
        } else if char_at(s, q2, '}') {
            p = q2;
        } else {
            return Err(expected("`,` or `}`", q2));
        }
    }
}

/// `[mut] name: dim`
fn param(s: &Vec<char>, pos: usize) -> (r: PResult<Param>)
    requires
        pos <= s.len(),
    ensures
        advances(r, pos as int, s.len() as int),
        match r {
            Ok((pm, p)) => g_param(s@, pos as int) == Some((param_view(pm), p as int)),
            Err(_) => g_param(s@, pos as int) is None,
        },
{
    proof {
        reveal_strlit("mut");
    }
    let mut p = skip_ws(s, pos);
    let is_mut = kw_at(s, p, "mut");
    if is_mut {
        p = p + 3;
    }
    let (name, p) = match ident_ws(s, p, "parameter name") {
        Ok(x) => x,
        Err(e) => return Err(e),
    };
    let p = match expect_char(s, p, ':', "`:`") {
        Ok(p) => p,
        Err(e) => return Err(e),
    };
    match dim_expr(s, p) {
        Ok((dim, e)) => Ok((Param { name, dim, is_mut }, e)),
        Err(e) => Err(e),
    }
}

/// The parameter list after `(`, up to and including `)`.
fn params_list(s: &Vec<char>, pos: usize) -> (r: PResult<Vec<Param>>)
    requires
        pos <= s.len(),
    ensures
        advances(r, pos as int, s.len() as int),
        match r {
            Ok((v, p)) => g_params(s@, pos as int, Seq::empty()) == Some((params_view(v@), p as int)),
            Err(_) => g_params(s@, pos as int, Seq::empty()) is None,
        },
{
    let mut p = pos;
    let mut params: Vec<Param> = Vec::new();
    proof {
        assert(params_view(params@) =~= Seq::<(Seq<char>, Spanned<DimView>, bool)>::empty());
    }
    loop
        invariant
            pos <= p <= s.len(),
            g_params(s@, p as int, params_view(params@)) == g_params(s@, pos as int, Seq::empty()),
        decreases s.len() - p,
    {
        let q = skip_ws(s, p);
        if char_at(s, q, ')') {
            return Ok((params, q + 1));
        }
        let (prm, np) = match param(s, q) {
            Ok(x) => x,
            Err(e) => return Err(e),
        };
        let ghost before = params@;
        params.push(prm);
        proof {
            assert(params_view(params@) =~= params_view(before).push(param_view(prm)));
        }
        let q2 = skip_ws(s, np);
        if char_at(s, q2, ',') {
            p = q2 + 1;
        } else if char_at(s, q2, ')') {
            p = q2;
        } else {
            return Err(expected("`,` or `)`", q2));
        }
    }
}

/// `fn name(params) [-> dim] (:= expr; | { stmts })`; `pos` is just after `fn`.
fn fn_item(
    s: &Vec<char>,
    start: usize,
    pos: usize,
    visibility: Visibility,
    attributes: Vec<Attribute>,
) -> (r: PResult<Spanned<Item>>)
    requires
        start <= pos <= s.len(),
    ensures
        advances(r, pos as int, s.len() as int),
        match r {
            Ok((it, p)) => g_fn(s@, start as int, pos as int, visibility, attrs_view(attributes@))
                == Some((item_view(it), p as int)),
            Err(_) => g_fn(s@, start as int, pos as int, visibility, attrs_view(attributes@)) is None,
        },
{
    proof {
        reveal_strlit("->");
        reveal_strlit(":=");
    }
    let (name, p) = match ident_ws(s, pos, "function name") {
        Ok(x) => x,
        Err(e) => return Err(e),
    };
    let p = match expect_char(s, p, '(', "`(`") {
        Ok(p) => p,
        Err(e) => return Err(e),
    };
    let (params, mut p) = match params_list(s, p) {
        Ok(x) => x,
        Err(e) => return Err(e),
    };
    let mut return_type: Option<Spanned<DimExpr>> = None;
    let q = skip_ws(s, p);
    if lit_at(s, q, "->") {
        match dim_expr(s, q + 2) {
            Ok((d, np)) => {
                return_type = Some(d);
                p = np;
            },
            Err(e) => return Err(e),
        }
    }
    let q = skip_ws(s, p);
    if lit_at(s, q, ":=") {
        let (body, np) = match expr_at(s, q + 2) {
            Ok(x) => x,
            Err(e) => return Err(e),
        };
        match expect_char(s, np, ';', "`;`") {
            Ok(e) => {
                let item = Item::Function {
                    name,
                    params,
                    return_type,
                    body: FunctionBody::Expression(body),
                    visibility,
                    attributes,
                    doc: None,
                };
                Ok((Spanned::new(item, span(start, e)), e))
            },
            Err(e) => Err(e),
        }
    } else if char_at(s, q, '{') {
        match parse_block_body(s, q + 1) {
            Ok((stmts, e)) => {
                let item = Item::Function {
                    name,
                    params,
                    return_type,
                    body: FunctionBody::Block(stmts),
                    visibility,
                    attributes,
                    doc: None,
                };
                Ok((Spanned::new(item, span(start, e)), e))
            },
            Err(e) => Err(e),
        }
    } else {
        Err(expected("`:=` or `{`", q))
    }
}

/// `true` or `false`.
fn bool_lit(s: &Vec<char>, pos: usize) -> (r: PResult<bool>)
    requires
        pos <= s.len(),
    ensures
        advances(r, pos as int, s.len() as int),
        match r {
            Ok((b, p)) => g_bool(s@, pos as int) == Some((b, p as int)),
            Err(_) => g_bool(s@, pos as int) is None,
        },
{
    proof {
        reveal_strlit("true");
        reveal_strlit("false");
    }
    let q = skip_ws(s, pos);
    if lit_at(s, q, "true") {
        Ok((true, q + 4))
    } else if lit_at(s, q, "false") {
        Ok((false, q + 5))
    } else {
        Err(expected("`true` or `false`", q))
    }
}

/// The value of a cost written as a run of digits and points: the decimal
/// it spells, or one when the decimal parser refuses it.
fn cost_value(s: &Vec<char>, lo: usize, hi: usize) -> (n: Number)
    requires
        lo <= hi <= s.len(),
    ensures
        n == cost_number(s@, lo as int, hi as int),
{
    let text = string_from_range(s, lo, hi);
    match decimal_parse(text.as_str()) {
        Some(v) => v,
        None => Number { mantissa: 1, scale: 0 },
    }
}

/// `{ vectorizable[: bool], commutative[: bool], associative[: bool], cost: n }`;
/// `pos` is just after `properties`.  Returns the three flags and the cost.
fn properties_block(s: &Vec<char>, pos: usize) -> (r: PResult<(bool, bool, bool, Option<Number>)>)
    requires
        pos <= s.len(),
    ensures
        advances(r, pos as int, s.len() as int),
        match r {
            Ok((f, p)) => g_properties(s@, pos as int) == Some((f, p as int)),
            Err(_) => g_properties(s@, pos as int) is None,
        },
{
    proof {
        reveal_strlit("cost");
        reveal_strlit("vectorizable");
        reveal_strlit("commutative");
        reveal_strlit("associative");
    }
    let mut p = match expect_char(s, pos, '{', "`{`") {
        Ok(p) => p,
        Err(e) => return Err(e),
    };
    let mut vectorizable = false;
    let mut commutative = false;
    let mut associative = false;
    let mut cost: Option<Number> = None;
    loop
        invariant
            pos < p <= s.len(),
            g_props(s@, p as int, (vectorizable, commutative, associative, cost)) == g_properties(s@, pos as int),
            "cost"@.len() == 4,
            "vectorizable"@.len() == 12,
            "commutative"@.len() == 11,
            "associative"@.len() == 11,
        decreases s.len() - p,
    {
        let q = skip_ws(s, p);
        if char_at(s, q, '}') {
            return Ok(((vectorizable, commutative, associative, cost), q + 1));
        }
        let mut np: usize;
        if lit_at(s, q, "cost") {
            let c = match expect_char(s, q + 4, ':', "`:`") {
                Ok(c) => c,
                Err(e) => return Err(e),
            };
            let lo = skip_ws(s, c);
            let mut hi = lo;
            while hi < s.len() && (is_digit(s[hi]) || s[hi] == '.')
                invariant
                    lo <= hi <= s.len(),
                    cost_end(s@, hi as int) == cost_end(s@, lo as int),
                decreases s.len() - hi,
            {
                hi = hi + 1;
            }
            if hi == lo {
                return Err(expected("cost value", lo));
            }
            cost = Some(cost_value(s, lo, hi));
            np = hi;
        } else {
            let which: u8 = if lit_at(s, q, "vectorizable") {
                1
            } else if lit_at(s, q, "commutative") {
                2
            } else if lit_at(s, q, "associative") {
                3
            } else {
                return Err(expected("property", q));
            };
            let w: usize = if which == 1 { 12 } else { 11 };
            np = q + w;
            let mut value = true;
            let c = skip_ws(s, np);
            if char_at(s, c, ':') {
                match bool_lit(s, c + 1) {
                    Ok((b, e)) => {
                        value = b;
                        np = e;
                    },
                    Err(e) => return Err(e),
                }
            }
            if which == 1 {
                vectorizable = value;
            } else if which == 2 {
                commutative = value;
            } else {
                associative = value;
            }
        }
        let q2 = skip_ws(s, np);
        if char_at(s, q2, ',') {
            p = q2 + 1;
        } else {
            p = np;
        }
    }
}

/// `pattern (=>|->) replacement`
fn rewrite_rule(s: &Vec<char>, pos: usize) -> (r: PResult<(Spanned<Expr>, Spanned<Expr>)>)
    requires
        pos <= s.len(),
    ensures
        advances(r, pos as int, s.len() as int),
        match r {
            Ok(((a, b), p)) => g_rewrite(s@, pos as int) == Some(((expr_view(a), expr_view(b)), p as int)),
            Err(_) => g_rewrite(s@, pos as int) is None,
        },
{
    proof {
        reveal_strlit("=>");
        reveal_strlit("->");
    }
    let (pattern, p) = match expr_at(s, pos) {
        Ok(x) => x,
        Err(e) => return Err(e),
    };
    let q = skip_ws(s, p);
    if !(lit_at(s, q, "=>") || lit_at(s, q, "->")) {
        return Err(expected("`=>`", q));
    }
    match expr_at(s, q + 2) {
        Ok((replacement, e)) => Ok(((pattern, replacement), e)),
        Err(e) => Err(e),
    }
}

/// `{ rule [,] ... }` of a `simplify` (when `egraph` is false) or `egraph`
/// section; `pos` is just after the section keyword.
#[verifier::rlimit(60)]
fn rules_block(s: &Vec<char>, pos: usize, egraph: bool) -> (r: PResult<(Vec<SimplifyRule>, Vec<EGraphRule>)>)
    requires
        pos <= s.len(),
    ensures
        advances(r, pos as int, s.len() as int),
        r matches Ok(((simp, eg), _)) ==> (egraph ==> simp@.len() == 0) && (!egraph ==> eg@.len() == 0),
        match r {
            Ok(((simp, eg), p)) => g_rules_block(s@, pos as int, egraph) == Some((
                simp_list_view(simp@),
                eg_list_view(eg@),
                p as int,
            )),
            Err(_) => g_rules_block(s@, pos as int, egraph) is None,
        },
{
    proof {
        reveal_strlit("after");
        reveal_strlit("rewrite");
    }
    let mut p = match expect_char(s, pos, '{', "`{`") {
        Ok(p) => p,
        Err(e) => return Err(e),
    };
    let mut simp: Vec<SimplifyRule> = Vec::new();
    let mut eg: Vec<EGraphRule> = Vec::new();
    proof {
        assert(simp_list_view(simp@) =~= Seq::<(Spanned<ExprView>, Spanned<ExprView>)>::empty());
        assert(eg_list_view(eg@) =~= Seq::<(Spanned<ExprView>, Spanned<ExprView>, bool)>::empty());
    }
    loop
        invariant
            pos < p <= s.len(),
            egraph ==> simp@.len() == 0,
            !egraph ==> eg@.len() == 0,
            "after"@.len() == 5,
            "rewrite"@.len() == 7,
            g_rules(s@, p as int, egraph, simp_list_view(simp@),
                eg_list_view(eg@)) == g_rules_block(s@, pos as int, egraph),
        decreases s.len() - p,
    {
        let q = skip_ws(s, p);
        if char_at(s, q, '}') {
            return Ok(((simp, eg), q + 1));
        }
        let mut after_builtins = false;
        let mut rq = q;
        if egraph {
            if kw_at(s, q, "after") {
                after_builtins = true;
                rq = skip_ws(s, q + 5);
            }
            if !kw_at(s, rq, "rewrite") {
                return Err(expected("`rewrite`", rq));
            }
            rq = rq + 7;
        }
        let ((pattern, replacement), np) = match rewrite_rule(s, rq) {
            Ok(x) => x,
            Err(e) => return Err(e),
        };
        if egraph {
            let ghost before = eg@;
            let rule = EGraphRule { pattern, replacement, after_builtins };
            eg.push(rule);
            proof {
                assert(eg_list_view(eg@) =~= eg_list_view(before).push(egraph_view(rule)));
            }
        } else {
            let ghost before = simp@;
            let rule = SimplifyRule { pattern, replacement };
            simp.push(rule);
            proof {
                assert(simp_list_view(simp@) =~= simp_list_view(before).push(simplify_view(rule)));
            }
        }
        let q2 = skip_ws(s, np);
        if char_at(s, q2, ',') {
            p = q2 + 1;
        } else {
            p = np;
        }
    }
}

/// `{ properties {..} simplify {..} egraph {..} }`, each section optional.
fn op_body(s: &Vec<char>, pos: usize) -> (r: PResult<OpProperties>)
    requires
        pos <= s.len(),
    ensures
        advances(r, pos as int, s.len() as int),
        match r {
            Ok((pr, p)) => g_op_body(s@, pos as int) == Some((props_view(pr), p as int)),
            Err(_) => g_op_body(s@, pos as int) is None,
        },
{
    proof {
        reveal_strlit("properties");
        reveal_strlit("simplify");
        reveal_strlit("egraph");
    }
    let mut p = match expect_char(s, pos, '{', "`{`") {
        Ok(p) => p,
        Err(e) => return Err(e),
    };
    let mut flags: (bool, bool, bool, Option<Number>) = (false, false, false, None);
    let mut simplify_rules: Vec<SimplifyRule> = Vec::new();
    let mut egraph_rules: Vec<EGraphRule> = Vec::new();
    let ghost total = g_op_sections(s@, p as int, flags, Seq::empty(), Seq::empty());
    proof {
        assert(simp_list_view(simplify_rules@) =~= Seq::<(Spanned<ExprView>, Spanned<ExprView>)>::empty());
        assert(eg_list_view(egraph_rules@) =~= Seq::<(Spanned<ExprView>, Spanned<ExprView>, bool)>::empty());
    }
    loop
        invariant
            pos < p <= s.len(),
            "properties"@.len() == 10,
            "simplify"@.len() == 8,
            "egraph"@.len() == 6,
            g_op_sections(s@, p as int, flags, simp_list_view(simplify_rules@),
                eg_list_view(egraph_rules@)) == total,
            g_op_body(s@, pos as int) == (match total {
                Some((f, simp, eg, e)) => Some((PropsView {
                    vectorizable: f.0,
                    commutative: f.1,
                    associative: f.2,
                    cost: f.3,
                    simplify: simp,
                    egraph: eg,
                }, e)),
                None => None,
            }),
        decreases s.len() - p,
    {
        let q = skip_ws(s, p);
        if char_at(s, q, '}') {
            let props = OpProperties {
                vectorizable: flags.0,
                commutative: flags.1,
                associative: flags.2,
                cost: flags.3,
                simplify_rules,
                egraph_rules,
            };
            return Ok((props, q + 1));
        }
        let (f2, simp2, eg2, np) = match op_section(s, q, flags, simplify_rules, egraph_rules) {
            Ok(x) => x,
            Err(e) => return Err(e),
        };
        flags = f2;
        simplify_rules = simp2;
        egraph_rules = eg2;
        p = np;
    }
}

/// One section of an op's body at `q`, replacing the flags or rules of its kind.
fn op_section(
    s: &Vec<char>,
    q: usize,
    flags: (bool, bool, bool, Option<Number>),
    simplify_rules: Vec<SimplifyRule>,
    egraph_rules: Vec<EGraphRule>,
) -> (r: Result<((bool, bool, bool, Option<Number>), Vec<SimplifyRule>, Vec<EGraphRule>, usize), String>)
    requires
        q <= s.len(),
    ensures
        match r {
            Ok((f, simp, eg, np)) => q < np <= s.len() && g_op_step(s@, q as int, flags, simp_list_view(simplify_rules@),
                eg_list_view(egraph_rules@)) == Some((f, simp_list_view(simp@), eg_list_view(eg@), np as int)),
            Err(_) => g_op_step(s@, q as int, flags, simp_list_view(simplify_rules@), eg_list_view(egraph_rules@)) is None,
        },
{
    proof {
        reveal_strlit("properties");
        reveal_strlit("simplify");
        reveal_strlit("egraph");
    }
    if kw_at(s, q, "properties") {
        match properties_block(s, q + 10) {
            Ok((f, np)) => Ok((f, simplify_rules, egraph_rules, np)),
            Err(e) => Err(e),
        }
    } else if kw_at(s, q, "simplify") {
        match rules_block(s, q + 8, false) {
            Ok(((rules, _), np)) => Ok((flags, rules, egraph_rules, np)),
            Err(e) => Err(e),
        }
    } else if kw_at(s, q, "egraph") {
        match rules_block(s, q + 6, true) {
            Ok(((_, rules), np)) => Ok((flags, simplify_rules, rules, np)),
            Err(e) => Err(e),
        }
    } else {
        Err(expected("`properties`, `simplify` or `egraph`", q))
    }
}

/// `op name(param: dim -> dim) { ... }`; `pos` is just after `op`.
fn op_item(s: &Vec<char>, start: usize, pos: usize, visibility: Visibility) -> (r: PResult<Spanned<Item>>)
    requires
        start <= pos <= s.len(),
    ensures
        advances(r, pos as int, s.len() as int),
        match r {
            Ok((it, p)) => g_op(s@, start as int, pos as int, visibility) == Some((item_view(it), p as int)),
            Err(_) => g_op(s@, start as int, pos as int, visibility) is None,
        },
{
    proof {
        reveal_strlit("->");
    }
    let (name, p) = match ident_ws(s, pos, "operator name") {
        Ok(x) => x,
        Err(e) => return Err(e),
    };
    let p = match expect_char(s, p, '(', "`(`") {
        Ok(p) => p,
        Err(e) => return Err(e),
    };
    let (param_name, p) = match ident_ws(s, p, "parameter name") {
        Ok(x) => x,
        Err(e) => return Err(e),
    };
    let p = match expect_char(s, p, ':', "`:`") {
        Ok(p) => p,
        Err(e) => return Err(e),
    };
    let (input_dim, p) = match dim_expr(s, p) {
        Ok(x) => x,
        Err(e) => return Err(e),
    };
    let q = skip_ws(s, p);
    if !lit_at(s, q, "->") {
        return Err(expected("`->`", q));
    }
    let (output_dim, p) = match dim_expr(s, q + 2) {
        Ok(x) => x,
        Err(e) => return Err(e),
    };
    let p = match expect_char(s, p, ')', "`)`") {
        Ok(p) => p,
        Err(e) => return Err(e),
    };
    match op_body(s, p) {
        Ok((properties, e)) => {
            let item = Item::CustomOp { name, param_name, input_dim, output_dim, visibility, properties, doc: None };
            Ok((Spanned::new(item, span(start, e)), e))
        },
        Err(e) => Err(e),
    }
}

/// `const NAME [: dim] = expr;`; `pos` is just after `const`.
fn const_item(s: &Vec<char>, start: usize, pos: usize, visibility: Visibility) -> (r: PResult<Spanned<Item>>)
    requires
        start <= pos <= s.len(),
    ensures
        advances(r, pos as int, s.len() as int),
        match r {
            Ok((it, p)) => g_const(s@, start as int, pos as int, visibility) == Some((item_view(it), p as int)),
            Err(_) => g_const(s@, start as int, pos as int, visibility) is None,
        },
{
    let (name, p) = match ident_ws(s, pos, "constant name") {
        Ok(x) => x,
        Err(e) => return Err(e),
    };
    let mut p = p;
    let mut dim: Option<Spanned<DimExpr>> = None;
    let q = skip_ws(s, p);
    if char_at(s, q, ':') {
        match dim_expr(s, q + 1) {
            Ok((d, np)) => {
                dim = Some(d);
                p = np;
            },
            Err(e) => return Err(e),
        }
    }
    let p = match expect_char(s, p, '=', "`=`") {
        Ok(p) => p,
        Err(e) => return Err(e),
    };
    let (value, p) = match expr_at(s, p) {
        Ok(x) => x,
        Err(e) => return Err(e),
    };
    match expect_char(s, p, ';', "`;`") {
        Ok(e) => Ok((Spanned::new(Item::Const { name, dim, value, visibility, doc: None }, span(start, e)), e)),
        Err(e) => Err(e),
    }
}

/// Whether `c` is ASCII whitespace.
fn ascii_ws(c: char) -> (r: bool)
    ensures
        r == ascii_space(c),
{
    c == ' ' || c == '\t' || c == '\n' || c == '\r' || c == '\x0C'
}

/// The text `s[lo..hi]` without leading and trailing ASCII whitespace.
fn trimmed(s: &Vec<char>, lo: usize, hi: usize) -> (r: String)
    requires
        lo <= hi <= s.len(),
    ensures
        r@ == trimmed_text(s@, lo as int, hi as int),
{
    let mut a = lo;
    while a < hi && ascii_ws(s[a])
        invariant
            lo <= a <= hi,
            hi <= s.len(),
            aws_end(s@, a as int, hi as int) == aws_end(s@, lo as int, hi as int),
        decreases hi - a,
    {
        a = a + 1;
    }
    let mut b = hi;
    while b > a && ascii_ws(s[b - 1])
        invariant
            lo <= a <= b <= hi,
            hi <= s.len(),
            a == aws_end(s@, lo as int, hi as int),
            aws_back(s@, a as int, b as int) == aws_back(s@, a as int, hi as int),
        decreases b,
    {
        b = b - 1;
    }
    string_from_range(s, a, b)
}

/// Index of the `close` that balances an `open` already consumed before
/// `pos`, searching below `hi`.
fn scan_balanced(s: &Vec<char>, pos: usize, hi: usize, open: char, close: char) -> (r: Option<usize>)
    requires
        pos <= hi <= s.len(),
    ensures
        r matches Some(e) ==> pos <= e < hi && s@[e as int] == close,
        match r {
            Some(e) => balanced_end(s@, pos as int, hi as int, open, close, 1) == Some(e as int),
            None => balanced_end(s@, pos as int, hi as int, open, close, 1) is None,
        },
{
    let mut depth: usize = 1;
    let mut i = pos;
    while i < hi
        invariant
            pos <= i <= hi,
            hi <= s.len(),
            depth >= 1,
            balanced_end(s@, i as int, hi as int, open, close, depth as int) == balanced_end(s@, pos as int, hi as int, open, close, 1),
        decreases hi - i,
    {
        let c = s[i];
        if c == open {
            if depth == usize::MAX {
                return None;
            }
            depth = depth + 1;
        } else if c == close {
            if depth == 1 {
                return Some(i);
            }
            depth = depth - 1;
        }
        i = i + 1;
    }
    None
}


/// The `(pattern) => { replacement }` rules written in `s[lo..hi]`; reading
/// stops at the first text that is not such a rule.
fn macro_rules_of(s: &Vec<char>, lo: usize, hi: usize) -> (rules: Vec<MacroRule>)
    requires
        lo <= hi <= s.len(),
    ensures
        macro_rules_view(rules@) == g_macro_rules(s@, lo as int, hi as int, Seq::empty()),
{
    let mut rules: Vec<MacroRule> = Vec::new();
    let mut i = lo;
    let ghost total = g_macro_rules(s@, lo as int, hi as int, Seq::empty());
    proof {
        assert(macro_rules_view(rules@) =~= Seq::<(Seq<char>, Seq<char>)>::empty());
    }
    while i < hi
        invariant_except_break
            g_macro_rules(s@, i as int, hi as int, macro_rules_view(rules@)) == total,
        invariant
            lo <= i <= hi,
            hi <= s.len(),
            total == g_macro_rules(s@, lo as int, hi as int, Seq::empty()),
        ensures
            macro_rules_view(rules@) == total,
        decreases hi - i,
    {
        let ghost i0 = i;
        let ghost acc = macro_rules_view(rules@);
        while i < hi && ascii_ws(s[i])
            invariant
                i0 <= i <= hi,
                hi <= s.len(),
                aws_end(s@, i as int, hi as int) == aws_end(s@, i0 as int, hi as int),
            decreases hi - i,
        {
            i = i + 1;
        }
        if i >= hi || s[i] != '(' {
            break;
        }
        let pe = match scan_balanced(s, i + 1, hi, '(', ')') {
            Some(e) => e,
            None => break,
        };
        let a = i;
        let pattern = trimmed(s, i + 1, pe);
        i = pe + 1;
        let ghost ib = i;
        while i < hi && ascii_ws(s[i])
            invariant
                ib <= i <= hi,
                i0 < ib,
                hi <= s.len(),
                aws_end(s@, i as int, hi as int) == aws_end(s@, ib as int, hi as int),
            decreases hi - i,
        {
            i = i + 1;
        }
        if i < hi && i + 1 < hi && s[i] == '=' && s[i + 1] == '>' {
            i = i + 2;
        }
        let ghost ic = i;
        while i < hi && ascii_ws(s[i])
            invariant
                ic <= i <= hi,
                i0 < ib <= ic,
                hi <= s.len(),
                aws_end(s@, i as int, hi as int) == aws_end(s@, ic as int, hi as int),
            decreases hi - i,
        {
            i = i + 1;
        }
        if i >= hi || s[i] != '{' {
            break;
        }
        let re = match scan_balanced(s, i + 1, hi, '{', '}') {
            Some(e) => e,
            None => break,
        };
        let replacement = trimmed(s, i + 1, re);
        i = re + 1;
        let rule = MacroRule { pattern, replacement };
        let ghost before = rules@;
        rules.push(rule);
        proof {
            assert(macro_rules_view(rules@) =~= macro_rules_view(before).push((rule.pattern@, rule.replacement@)));
        }
    }
    rules
}

/// `macro_rules! name { rules }`; `pos` is just after `macro_rules!`.
fn macro_rules_item(s: &Vec<char>, start: usize, pos: usize) -> (r: PResult<Spanned<Item>>)
    requires
        start <= pos <= s.len(),
    ensures
        advances(r, pos as int, s.len() as int),
        match r {
            Ok((it, p)) => g_macro_def(s@, start as int, pos as int) == Some((item_view(it), p as int)),
            Err(_) => g_macro_def(s@, start as int, pos as int) is None,
        },
{
    let (name, p) = match ident_ws(s, pos, "macro name") {
        Ok(x) => x,
        Err(e) => return Err(e),
    };
    let p = match expect_char(s, p, '{', "`{`") {
        Ok(p) => p,
        Err(e) => return Err(e),
    };
    match scan_balanced(s, p, s.len(), '{', '}') {
        Some(e) => {
            let rules = macro_rules_of(s, p, e);
            Ok((Spanned::new(Item::MacroDef { name, rules }, span(start, e + 1)), e + 1))
        },
        None => Err(expected("`}`", s.len())),
    }
}

/// `name!(args);` at item level; `pos` is at `name`.
fn macro_call_item(s: &Vec<char>, pos: usize) -> (r: PResult<Spanned<Item>>)
    requires
        pos <= s.len(),
    ensures
        advances(r, pos as int, s.len() as int),
        match r {
            Ok((it, p)) => g_macro_call(s@, pos as int) == Some((item_view(it), p as int)),
            Err(_) => g_macro_call(s@, pos as int) is None,
        },
{
    let (name, p) = match ident_at(s, pos) {
        Some(x) => x,
        None => return Err(expected("item", pos)),
    };
    if !char_at(s, p, '!') {
        return Err(expected("item", pos));
    }
    let p = match expect_char(s, p + 1, '(', "`(`") {
        Ok(p) => p,
        Err(e) => return Err(e),
    };
    let (args, p) = match raw_parens(s, p) {
        Ok(x) => x,
        Err(e) => return Err(e),
    };
    match expect_char(s, p, ';', "`;`") {
        Ok(e) => Ok((Spanned::new(Item::MacroCall { name, args }, span(pos, e)), e)),
        Err(e) => Err(e),
    }
}

/// The attributes before an item, from `pos` on.
fn attributes_at(s: &Vec<char>, pos: usize) -> (r: PResult<Vec<Attribute>>)
    requires
        pos <= s.len(),
    ensures
        r matches Ok((_, p)) ==> pos <= p <= s.len(),
        match r {
            Ok((v, p)) => g_attrs(s@, pos as int, Seq::empty()) == Some((attrs_view(v@), p as int)),
            Err(_) => g_attrs(s@, pos as int, Seq::empty()) is None,
        },
{
    let mut p = pos;
    let mut attributes: Vec<Attribute> = Vec::new();
    proof {
        assert(attrs_view(attributes@) =~= Seq::<(Seq<char>, Seq<Seq<char>>)>::empty());
    }
    loop
        invariant
            pos <= p <= s.len(),
            g_attrs(s@, p as int, attrs_view(attributes@)) == g_attrs(s@, pos as int, Seq::empty()),
        decreases s.len() - p,
    {
        let q = skip_ws(s, p);
        if !char_at(s, q, '#') {
            return Ok((attributes, p));
        }
        match attribute(s, q) {
            Ok((a, np)) => {
                let ghost before = attributes@;
                attributes.push(a);
                proof {
                    assert(attrs_view(attributes@) =~= attrs_view(before).push(attr_view(a)));
                }
                p = np;
            },
            Err(e) => return Err(e),
        }
    }
}

/// One item, after optional whitespace.
pub fn parse_item(s: &Vec<char>, pos: usize) -> (r: PResult<Spanned<Item>>)
    requires
        pos <= s.len(),
    ensures
        advances(r, pos as int, s.len() as int),
        match r {
            Ok((it, p)) => g_item(s@, pos as int) == Some((item_view(it), p as int)),
            Err(_) => g_item(s@, pos as int) is None,
        },
    decreases s.len() - pos, 1nat,
{
    proof {
        reveal_strlit("fn");
        reveal_strlit("struct");
        reveal_strlit("op");
        reveal_strlit("const");
        reveal_strlit("mod");
        reveal_strlit("use");
        reveal_strlit("type");
        reveal_strlit("macro_rules!");
    }
    let start = skip_ws(s, pos);
    let (attributes, p) = match attributes_at(s, start) {
        Ok(x) => x,
        Err(e) => return Err(e),
    };
    let (vis, p) = visibility(s, p);
    let q = skip_ws(s, p);
    let plain = attributes.len() == 0 && vis == Visibility::Private;
    if kw_at(s, q, "fn") {
        return fn_item(s, start, q + 2, vis, attributes);
    }
    if attributes.len() > 0 {
        return Err(expected("`fn`", q));
    }
    if kw_at(s, q, "struct") {
        struct_item(s, start, q + 6, vis)
    } else if kw_at(s, q, "op") {
        op_item(s, start, q + 2, vis)
    } else if kw_at(s, q, "const") {
        const_item(s, start, q + 5, vis)
    } else if kw_at(s, q, "mod") {
        let (name, p1) = match ident_ws(s, q + 3, "module name") {
            Ok(x) => x,
            Err(e) => return Err(e),
        };
        let q1 = skip_ws(s, p1);
        if char_at(s, q1, ';') {
            let e = q1 + 1;
            return Ok((Spanned::new(Item::Module { name, body: None, visibility: vis, doc: None }, span(start, e)), e));
        }
        if !char_at(s, q1, '{') {
            return Err(expected("`;` or `{`", q1));
        }
        match parse_items_until_brace(s, q1 + 1) {
            Ok((items, e)) => Ok((
                Spanned::new(Item::Module { name, body: Some(items), visibility: vis, doc: None }, span(start, e)),
                e,
            )),
            Err(e) => Err(e),
        }
    } else if !plain {
        Err(expected("`fn`, `struct`, `op`, `const` or `mod`", q))
    } else if kw_at(s, q, "use") {
        use_item(s, start, q + 3)
    } else if kw_at(s, q, "type") {
        type_alias_item(s, start, q + 4)
    } else if lit_at(s, q, "macro_rules!") {
        macro_rules_item(s, start, q + 12)
    } else {
        macro_call_item(s, q)
    }
}

/// Items after a module's `{`, up to and including its `}`.
fn parse_items_until_brace(s: &Vec<char>, pos: usize) -> (r: PResult<Vec<Spanned<Item>>>)
    requires
        pos <= s.len(),
    ensures
        advances(r, pos as int, s.len() as int),
        match r {
            Ok((v, p)) => g_items_until_brace(s@, pos as int, Seq::empty()) == Some((items_view(v@), p as int)),
            Err(_) => g_items_until_brace(s@, pos as int, Seq::empty()) is None,
        },
    decreases s.len() - pos, 2nat,
{
    let mut items: Vec<Spanned<Item>> = Vec::new();
    let mut p = pos;
    loop
        invariant
            pos <= p <= s.len(),
            g_items_until_brace(s@, p as int, items_view(items@)) == g_items_until_brace(s@, pos as int, Seq::empty()),
        decreases s.len() - p,
    {
        let q = skip_ws(s, p);
        if char_at(s, q, '}') {
            return Ok((items, q + 1));
        }
        if q >= s.len() {
            return Err(expected("`}`", q));
        }
        match parse_item(s, q) {
            Ok((it, np)) => {
                proof {
                    lemma_items_view_push(items@, it);
                }
                items.push(it);
                p = np;
            },
            Err(e) => return Err(e),
        }
    }
}

/// All items of a prepared source text, up to its end.
pub fn parse_items(s: &Vec<char>) -> (r: Result<Vec<Spanned<Item>>, String>)
    ensures
        match r {
            Ok(v) => g_items(s@, 0, Seq::empty()) == Some(items_view(v@)),
            Err(e) => g_items(s@, 0, Seq::empty()) is None && e@ == "cannot parse the item starting `"@
                + s@.subrange(g_items_fail(s@, 0), nl_index(s@, g_items_fail(s@, 0))) + "`"@,
        },
{
    let mut items: Vec<Spanned<Item>> = Vec::new();
    let mut p: usize = 0;
    loop
        invariant
            p <= s.len(),
            g_items(s@, p as int, items_view(items@)) == g_items(s@, 0, Seq::empty()),
            g_items_fail(s@, p as int) == g_items_fail(s@, 0),
        decreases s.len() - p,
    {
        let q = skip_ws(s, p);
        if q >= s.len() {
            return Ok(items);
        }
        match parse_item(s, q) {
            Ok((it, np)) => {
                proof {
                    lemma_items_view_push(items@, it);
                }
                items.push(it);
                p = np;
            },
            Err(_) => {
                let e = find_nl(s, q);
                let mut m = String::new();
                crate::text::push_str(&mut m, "cannot parse the item starting `");
                let line = string_from_range(s, q, e);
                crate::text::push_str(&mut m, line.as_str());
                crate::text::push_str(&mut m, "`");
                proof {
                    assert(m@ =~= "cannot parse the item starting `"@ + s@.subrange(q as int, e as int) + "`"@);
                }
                return Err(m);
            },
        }
    }
}

/// doc to the file and each `///` block to the item it precedes.
pub fn parse_source(input: &str) -> (r: Result<SourceFile, String>)
    ensures
        r matches Ok(f) ==> name_opt(f.doc) == joined(prep(input@).module_lines),
        match r {
            Ok(f) => g_source(input@) == Some(items_view(f.items@)),
            Err(e) => g_source(input@) is None && e@ == source_error(input@),
        },
{
    let prepared = prepare_source(input);
    let code = chars_of(prepared.code.as_str());
    match parse_items(&code) {
        Ok(items) => {
            let ghost docs = prepared.item_docs@;
            let mut file = SourceFile { doc: prepared.module_doc, items };
            let ghost before = file.items@;
            attach_item_docs(&mut file, prepared.item_docs);
            proof {
                lemma_items_view_index(before);
                lemma_items_view_index(file.items@);
                let dv = docs.map_values(|d: Option<String>| name_opt(d));
                assert(items_view(file.items@) =~= with_docs(items_view(before), dv)) by {
                    assert forall|i: int| 0 <= i < file.items@.len() implies
                        #[trigger] items_view(file.items@)[i] == with_docs(items_view(before), dv)[i] by {
                        if i < dv.len() {
                            assert(dv[i] == name_opt(docs[i]));
                        }
                    }
                }
            }
            Ok(file)
        },
        Err(e) => Err(e),
    }
}

} // verus!
