//! Source formatter: prints an AST back as Aevia source text.
//!
//! The text of every node is given by a spec function ([`dim_expr_text`],
//! [`expr_text`], [`stmt_text`], [`item_text`], [`file_text`]) and the
//! printers are proved to produce exactly that text.
use vstd::prelude::*;
use crate::ast::{
    Attribute, BinOp, DimExpr, Expr, Field, FunctionBody, Item, MatchArm, Number, OpProperties, Param,
    Pattern, SourceFile, Spanned, Stmt, UnOp, Visibility,
};
use crate::decimal::{decimal_to_string, spec_decimal_text, valid_number};
use crate::parser::items::parse_source;
use crate::text::{int_digits, nat_digits, push_char, push_i64, push_str};
use crate::types::dim::{push_shape_list, shape_list};

verus! {

// ── Text of nodes ───────────────────────────────────────────────────────────

/// The printed form of a number: its decimal text (a number that is not a
/// representable decimal prints as `0`).
pub open spec fn number_text(n: Number) -> Seq<char> {
    if valid_number(n) { spec_decimal_text(n) } else { "0"@ }
}

/// The text of a unit expression: `a * b`, `a / b`, `a^n`, `a[n1, n2]`.
pub open spec fn dim_expr_text(e: DimExpr) -> Seq<char>
    decreases e,
{
    match e {
        DimExpr::Base(name) => name@,
        DimExpr::Mul(l, r) => dim_expr_text(l.node) + " * "@ + dim_expr_text(r.node),
        DimExpr::Div(l, r) => dim_expr_text(l.node) + " / "@ + dim_expr_text(r.node),
        DimExpr::Power(b, n) => dim_expr_text(b.node) + "^"@ + int_digits(n as int),
        DimExpr::Tensor { base, shape } => dim_expr_text(base.node) + "["@ + shape_list(shape@) + "]"@,
    }
}

/// The symbol of a binary operator.
pub open spec fn bin_op_text(op: BinOp) -> Seq<char> {
    match op {
        BinOp::Add => "+"@,
        BinOp::Sub => "-"@,
        BinOp::Mul => "*"@,
        BinOp::Div => "/"@,
        BinOp::Pow => "^"@,
        BinOp::Mod => "%"@,
        BinOp::Lt => "<"@,
        BinOp::Gt => ">"@,
        BinOp::Eq => "=="@,
    }
}

/// The text of a match pattern.
pub open spec fn pattern_text(p: Pattern) -> Seq<char> {
    match p {
        Pattern::Wildcard => "_"@,
        Pattern::Literal(n) => number_text(n),
        Pattern::Binding { name, type_guard } => match type_guard {
            None => name@,
            Some(g) => name@ + ": "@ + dim_expr_text(g.node),
        },
    }
}

/// The precedence level of a binary operator: comparisons 3, sums 2,
/// products 1, powers 0.
pub open spec fn op_level(op: BinOp) -> int {
    match op {
        BinOp::Lt | BinOp::Gt | BinOp::Eq => 3,
        BinOp::Add | BinOp::Sub => 2,
        BinOp::Mul | BinOp::Div | BinOp::Mod => 1,
        BinOp::Pow => 0,
    }
}

/// How loosely an expression binds: a binary operation at its operator's
/// level, negation -1, anything else -2.
pub open spec fn prec(e: Expr) -> int {
    match e {
        Expr::BinaryOp { op, .. } => op_level(op),
        Expr::UnaryOp { .. } => -1,
        _ => -2,
    }
}

/// Whether the left operand of `op` needs parentheses: it binds more
/// loosely than `op` (for `^`, which groups to the right, as loosely).
pub open spec fn lhs_parens(op: BinOp, l: Expr) -> bool {
    if op == BinOp::Pow { prec(l) >= 0 } else { prec(l) > op_level(op) }
}

/// Whether the right operand of `op` needs parentheses: it binds as
/// loosely as `op` or more (for `^`, more loosely).
pub open spec fn rhs_parens(op: BinOp, r: Expr) -> bool {
    if op == BinOp::Pow { prec(r) > 0 } else { prec(r) >= op_level(op) }
}

/// `t` in parentheses when `b`.
pub open spec fn paren_if(b: bool, t: Seq<char>) -> Seq<char> {
    if b { "("@ + t + ")"@ } else { t }
}

/// The text of an expression, on one line.
pub open spec fn expr_text(e: Expr) -> Seq<char>
    decreases e, 0int,
{
    match e {
        Expr::Literal { value, suffix } => match suffix {
            None => number_text(value),
            Some(u) => number_text(value) + "_"@ + dim_expr_text(u.node),
        },
        Expr::Variable(name) => name@,
        Expr::BinaryOp { op, lhs, rhs } => paren_if(lhs_parens(op, lhs.node), expr_text(lhs.node)) + " "@ + bin_op_text(op) + " "@
            + paren_if(rhs_parens(op, rhs.node), expr_text(rhs.node)),
        Expr::UnaryOp { expr, .. } => "-"@ + paren_if(prec(expr.node) >= 0, expr_text(expr.node)),
        Expr::Call { func, args } => func@ + "("@ + args_text(args@, 0) + ")"@,
        Expr::Block(stmts) => "{ "@ + stmts_text(stmts@, 0) + "}"@,
        Expr::If { cond, then_branch, else_branch } =>
            "if "@ + expr_text(cond.node) + " { "@ + expr_text(then_branch.node) + " }"@ + else_text(else_branch),
        Expr::Loop { body } => "loop { "@ + stmts_text(body@, 0) + "}"@,
        Expr::While { cond, body } => "while "@ + expr_text(cond.node) + " { "@ + stmts_text(body@, 0) + "}"@,
        Expr::For { var, start, end, body } =>
            "for "@ + var@ + " in "@ + expr_text(start.node) + ".."@ + expr_text(end.node) + " { "@ + stmts_text(body@, 0) + "}"@,
        Expr::Match { scrutinee, arms } => "match "@ + expr_text(scrutinee.node) + " { "@ + arms_text(arms@, 0) + " }"@,
        Expr::UnsafeTransmute { expr, assume_unit, assume_layout } =>
            "unsafe transmute("@ + expr_text(expr.node) + ")"@ + transmute_tail(assume_unit, assume_layout),
        Expr::MacroCall { name, args } => name@ + "!("@ + args@ + ")"@,
        Expr::Print { expr } => "print("@ + expr_text(expr.node) + ")"@,
        Expr::Log { message } => "log(\""@ + message@ + "\")"@,
        Expr::StructLit { name, fields } => name@ + " { "@ + fields_text(fields@, 0) + " }"@,
        Expr::FieldAccess { expr, field } => paren_if(prec(expr.node) >= -1, expr_text(expr.node)) + "."@ + field@,
    }
}

/// The `elseif` / `else` chain after an `if`.
pub open spec fn else_text(eb: Option<Box<Spanned<Expr>>>) -> Seq<char>
    decreases eb, 0int,
{
    match eb {
        None => Seq::empty(),
        Some(n) => match n.node {
            Expr::If { cond, then_branch, else_branch } =>
                " elseif "@ + expr_text(cond.node) + " { "@ + expr_text(then_branch.node) + " }"@ + else_text(else_branch),
            _ => " else { "@ + expr_text(n.node) + " }"@,
        },
    }
}

/// The `{ assume_unit: .., assume_layout: .. }` block of a transmute, if any.
pub open spec fn transmute_tail(unit: Option<Spanned<DimExpr>>, layout: Option<String>) -> Seq<char> {
    if unit is None && layout is None {
        Seq::empty()
    } else {
        " {"@ + (match unit {
            Some(u) => " assume_unit: "@ + dim_expr_text(u.node),
            None => Seq::empty(),
        }) + (match layout {
            Some(l) => (if unit is Some { ","@ } else { Seq::empty() }) + " assume_layout: "@ + l@,
            None => Seq::empty(),
        }) + "}"@
    }
}

/// Arguments from index `i` on, separated by `, `.
pub open spec fn args_text(args: Seq<Spanned<Expr>>, i: int) -> Seq<char>
    decreases args, args.len() - i,
{
    if i < 0 || i >= args.len() {
        Seq::empty()
    } else {
        (if i > 0 { ", "@ } else { Seq::empty() }) + expr_text(args[i].node) + args_text(args, i + 1)
    }
}

/// Statements from index `i` on, each followed by a space.
pub open spec fn stmts_text(stmts: Seq<Spanned<Stmt>>, i: int) -> Seq<char>
    decreases stmts, stmts.len() - i,
{
    if i < 0 || i >= stmts.len() {
        Seq::empty()
    } else {
        stmt_text(stmts[i].node) + " "@ + stmts_text(stmts, i + 1)
    }
}

/// Match arms from index `i` on, `pattern => body`, separated by `, `.
pub open spec fn arms_text(arms: Seq<MatchArm>, i: int) -> Seq<char>
    decreases arms, arms.len() - i,
{
    if i < 0 || i >= arms.len() {
        Seq::empty()
    } else {
        (if i > 0 { ", "@ } else { Seq::empty() }) + pattern_text(arms[i].pattern) + " => "@
            + expr_text(arms[i].body.node) + arms_text(arms, i + 1)
    }
}

/// Struct literal fields from index `i` on, `name: value`, separated by `, `.
pub open spec fn fields_text(fields: Seq<(String, Spanned<Expr>)>, i: int) -> Seq<char>
    decreases fields, fields.len() - i,
{
    if i < 0 || i >= fields.len() {
        Seq::empty()
    } else {
        (if i > 0 { ", "@ } else { Seq::empty() }) + fields[i].0@ + ": "@ + expr_text(fields[i].1.node)
            + fields_text(fields, i + 1)
    }
}

/// The text of a statement, ending with `;`.
pub open spec fn stmt_text(st: Stmt) -> Seq<char>
    decreases st, 0int,
{
    match st {
        Stmt::Let { name, declared_type, init, is_mut } =>
            "let "@ + (if is_mut { "mut "@ } else { Seq::empty() }) + name@
                + (match declared_type {
                    Some(t) => ": "@ + dim_expr_text(t.node),
                    None => Seq::empty(),
                }) + " = "@ + expr_text(init.node) + ";"@,
        Stmt::Assign { target, value } => target@ + " = "@ + expr_text(value.node) + ";"@,
        Stmt::Expr(e) => expr_text(e.node) + ";"@,
        Stmt::Break => "break;"@,
        Stmt::Continue => "continue;"@,
    }
}


/// `pub `, `pub(crate) ` or nothing.
pub open spec fn vis_text(v: Visibility) -> Seq<char> {
    match v {
        Visibility::Private => Seq::empty(),
        Visibility::Crate => "pub(crate) "@,
        Visibility::Public => "pub "@,
    }
}

/// Struct fields from index `i` on, `[vis]name: dim`, separated by `, `.
pub open spec fn field_decls_text(fs: Seq<Field>, i: int) -> Seq<char>
    decreases fs.len() - i,
{
    if i < 0 || i >= fs.len() {
        Seq::empty()
    } else {
        (if i > 0 { ", "@ } else { Seq::empty() }) + vis_text(fs[i].visibility) + fs[i].name@ + ": "@
            + dim_expr_text(fs[i].dim.node) + field_decls_text(fs, i + 1)
    }
}

/// Parameters from index `i` on, `name: dim`, separated by `, `.
pub open spec fn params_text(ps: Seq<Param>, i: int) -> Seq<char>
    decreases ps.len() - i,
{
    if i < 0 || i >= ps.len() {
        Seq::empty()
    } else {
        (if i > 0 { ", "@ } else { Seq::empty() }) + ps[i].name@ + ": "@ + dim_expr_text(ps[i].dim.node)
            + params_text(ps, i + 1)
    }
}

/// Words from index `i` on, separated by `sep`.
pub open spec fn joined_text(ws: Seq<String>, sep: Seq<char>, i: int) -> Seq<char>
    decreases ws.len() - i,
{
    if i < 0 || i >= ws.len() {
        Seq::empty()
    } else {
        (if i > 0 { sep } else { Seq::empty() }) + ws[i]@ + joined_text(ws, sep, i + 1)
    }
}

/// `#[name]` or `#[name(a, b)]`.
pub open spec fn attribute_text(a: Attribute) -> Seq<char> {
    "#["@ + a.name@ + (if a.args@.len() > 0 { "("@ + joined_text(a.args@, ", "@, 0) + ")"@ } else { Seq::empty() }) + "]"@
}

/// Attributes from index `i` on, each followed by a newline and the indentation.
pub open spec fn attrs_text(attrs: Seq<Attribute>, pad: Seq<char>, i: int) -> Seq<char>
    decreases attrs.len() - i,
{
    if i < 0 || i >= attrs.len() {
        Seq::empty()
    } else {
        attribute_text(attrs[i]) + "\n"@ + pad + attrs_text(attrs, pad, i + 1)
    }
}

/// Statements from index `i` on, one per line at indentation `pad`.
pub open spec fn lines_text(stmts: Seq<Spanned<Stmt>>, pad: Seq<char>, i: int) -> Seq<char>
    decreases stmts.len() - i,
{
    if i < 0 || i >= stmts.len() {
        Seq::empty()
    } else {
        pad + stmt_text(stmts[i].node) + "\n"@ + lines_text(stmts, pad, i + 1)
    }
}

/// A block body: `{`, the statements one per line one level deeper, `}`.
pub open spec fn block_text(stmts: Seq<Spanned<Stmt>>, pad: Seq<char>) -> Seq<char> {
    "{\n"@ + lines_text(stmts, pad + "    "@, 0) + pad + "}"@
}

/// Simplification rules from index `i` on, `pattern => replacement,` one
/// per line at indentation `q`.
pub open spec fn simp_rules_text(rs: Seq<crate::ast::SimplifyRule>, q: Seq<char>, i: int) -> Seq<char>
    decreases rs.len() - i,
{
    if i < 0 || i >= rs.len() {
        Seq::empty()
    } else {
        q + expr_text(rs[i].pattern.node) + " => "@ + expr_text(rs[i].replacement.node) + ",\n"@ + simp_rules_text(rs, q, i + 1)
    }
}

/// E-graph rules from index `i` on, `[after ]rewrite pattern => replacement,`
/// one per line at indentation `q`.
pub open spec fn eg_rules_text(rs: Seq<crate::ast::EGraphRule>, q: Seq<char>, i: int) -> Seq<char>
    decreases rs.len() - i,
{
    if i < 0 || i >= rs.len() {
        Seq::empty()
    } else {
        q + (if rs[i].after_builtins { "after "@ } else { Seq::empty() }) + "rewrite "@ + expr_text(rs[i].pattern.node) + " => "@
            + expr_text(rs[i].replacement.node) + ",\n"@ + eg_rules_text(rs, q, i + 1)
    }
}

/// The body of a custom op: its properties block, then its simplification
/// and e-graph rules, each section when it has rules.
pub open spec fn op_body_text(p: OpProperties, pad: Seq<char>) -> Seq<char> {
    let p1 = pad + "    "@;
    "{\n"@ + p1 + "properties {\n"@
        + (if p.vectorizable { p1 + "    vectorizable: true,\n"@ } else { Seq::empty() })
        + (if p.commutative { p1 + "    commutative: true,\n"@ } else { Seq::empty() })
        + (if p.associative { p1 + "    associative: true,\n"@ } else { Seq::empty() })
        + (match p.cost { Some(c) => p1 + "    cost: "@ + number_text(c) + ",\n"@, None => Seq::empty() })
        + p1 + "}\n"@ + op_rules_text(p, p1) + pad + "}"@
}

/// The rule sections of a custom op at indentation `p1`, each when it has
/// rules.
pub open spec fn op_rules_text(p: OpProperties, p1: Seq<char>) -> Seq<char> {
    (if p.simplify_rules@.len() > 0 {
        p1 + "simplify {\n"@ + simp_rules_text(p.simplify_rules@, p1 + "    "@, 0) + p1 + "}\n"@
    } else {
        Seq::empty()
    }) + (if p.egraph_rules@.len() > 0 {
        p1 + "egraph {\n"@ + eg_rules_text(p.egraph_rules@, p1 + "    "@, 0) + p1 + "}\n"@
    } else {
        Seq::empty()
    })
}

/// `macro_rules!` rules from index `i` on, one per line.
pub open spec fn rules_text(rules: Seq<crate::ast::MacroRule>, pad: Seq<char>, i: int) -> Seq<char>
    decreases rules.len() - i,
{
    if i < 0 || i >= rules.len() {
        Seq::empty()
    } else {
        "\n"@ + pad + "    ("@ + rules[i].pattern@ + ") => { "@ + rules[i].replacement@ + " }"@
            + rules_text(rules, pad, i + 1)
    }
}

/// The text of an item at indentation `pad`.
pub open spec fn item_text(item: Item, pad: Seq<char>) -> Seq<char>
    decreases item, 0int,
{
    match item {
        Item::Use { path, alias, glob } => pad + "use "@ + joined_text(path@, "::"@, 0)
            + (if glob { "::*"@ } else { Seq::empty() })
            + (match alias { Some(a) => " as "@ + a@, None => Seq::empty() }),
        Item::TypeAlias { name, dimension_expr, .. } => pad + "type "@ + name@ + " = "@ + dim_expr_text(dimension_expr.node),
        Item::Struct { name, fields, visibility, .. } =>
            vis_text(visibility) + pad + "struct "@ + name@ + " { "@ + field_decls_text(fields@, 0) + "}"@,
        Item::Function { name, params, return_type, body, visibility, attributes, .. } =>
            attrs_text(attributes@, pad, 0) + vis_text(visibility) + pad + "fn "@ + name@ + "("@ + params_text(params@, 0)
                + (match return_type { Some(r) => ") -> "@ + dim_expr_text(r.node), None => ")"@ })
                + (match body {
                    FunctionBody::Expression(e) => " := "@ + expr_text(e.node),
                    FunctionBody::Block(stmts) => " "@ + block_text(stmts@, pad),
                }),
        Item::CustomOp { name, param_name, input_dim, output_dim, visibility, properties, .. } =>
            vis_text(visibility) + pad + "op "@ + name@ + "("@ + param_name@ + ": "@ + dim_expr_text(input_dim.node)
                + " -> "@ + dim_expr_text(output_dim.node) + ") "@ + op_body_text(properties, pad),
        Item::Module { name, body, visibility, .. } => vis_text(visibility) + pad + "mod "@ + name@
            + (match body {
                None => Seq::empty(),
                Some(items) => " {\n"@ + module_items_text(items@, pad, 0) + pad + "}"@,
            }),
        Item::MacroDef { name, rules } => pad + "macro_rules! "@ + name@ + " {"@ + rules_text(rules@, pad, 0) + "\n"@ + pad + "}"@,
        Item::MacroCall { name, args } => pad + name@ + "!("@ + args@ + ")"@,
        Item::Const { name, dim, value, visibility, .. } => vis_text(visibility) + pad + "const "@ + name@
            + (match dim { Some(d) => ": "@ + dim_expr_text(d.node), None => Seq::empty() })
            + " = "@ + expr_text(value.node),
    }
}

/// The items of an inline module from index `i` on, one level deeper than
/// `pad`, each followed by `;` and a newline, with a blank line between items.
pub open spec fn module_items_text(items: Seq<Spanned<Item>>, pad: Seq<char>, i: int) -> Seq<char>
    decreases items, items.len() - i,
{
    if i < 0 || i >= items.len() {
        Seq::empty()
    } else {
        let p1 = pad + "    "@;
        p1 + item_text(items[i].node, p1) + ";\n"@ + (if i + 1 < items.len() { "\n"@ } else { Seq::empty() })
            + module_items_text(items, pad, i + 1)
    }
}

/// Whether a top-level item is followed by `;` (all but block-bodied
/// modules and functions, custom ops and macro definitions).
pub open spec fn needs_semicolon(item: Item) -> bool {
    !(match item {
        Item::Module { body: Some(_), .. } => true,
        Item::Function { body: FunctionBody::Block(_), .. } => true,
        Item::CustomOp { .. } | Item::MacroDef { .. } => true,
        _ => false,
    })
}

/// The lines of a doc text after the first: each line break followed by
/// the comment marker `mark`.
pub open spec fn doc_body(mark: Seq<char>, d: Seq<char>) -> Seq<char>
    decreases d.len(),
{
    if d.len() == 0 {
        Seq::empty()
    } else if d[0] == '\n' {
        seq!['\n'] + mark + doc_body(mark, d.drop_first())
    } else {
        seq![d[0]] + doc_body(mark, d.drop_first())
    }
}

/// A doc text as comment lines, each starting with `mark` and ending with
/// a newline.
pub open spec fn doc_lines(mark: Seq<char>, d: Seq<char>) -> Seq<char> {
    mark + doc_body(mark, d) + "\n"@
}

/// The `///` lines of an item's doc comment, if it has one.
pub open spec fn item_doc_text(item: Item) -> Seq<char> {
    match crate::ast::item_doc(item) {
        Some(d) => doc_lines("/// "@, d@),
        None => Seq::empty(),
    }
}

/// Top-level items from index `i` on, separated by newlines, each after its
/// doc comment.
pub open spec fn file_items_text(items: Seq<Spanned<Item>>, i: int) -> Seq<char>
    decreases items.len() - i,
{
    if i < 0 || i >= items.len() {
        Seq::empty()
    } else {
        (if i > 0 { "\n"@ } else { Seq::empty() }) + item_doc_text(items[i].node) + item_text(items[i].node, Seq::empty())
            + (if needs_semicolon(items[i].node) { ";"@ } else { Seq::empty() }) + file_items_text(items, i + 1)
    }
}

/// The `//!` lines of a module doc comment and a blank line, if there is
/// one.
pub open spec fn module_doc_text(d: Option<String>) -> Seq<char> {
    match d {
        Some(t) => doc_lines("//! "@, t@) + "\n"@,
        None => Seq::empty(),
    }
}

/// The formatted text of a file: its module doc comment, then its items,
/// ending with a newline.
pub open spec fn file_text(f: SourceFile) -> Seq<char> {
    let t = module_doc_text(f.doc) + file_items_text(f.items@, 0);
    if t.len() > 0 && t.last() == '\n' { t } else { t.push('\n') }
}

// ── Printers ────────────────────────────────────────────────────────────────

/// Appends the text of a number.
pub fn push_number(out: &mut String, n: Number)
    ensures
        final(out)@ == old(out)@ + number_text(n),
{
    if n.scale <= 28 && -79228162514264337593543950335i128 <= n.mantissa && n.mantissa <= 79228162514264337593543950335i128 {
        let t = decimal_to_string(n);
        push_str(out, t.as_str());
    } else {
        push_str(out, "0");
    }
}

/// The text of a number.
pub fn format_number(n: Number) -> (s: String)
    ensures
        s@ == number_text(n),
{
    let mut s = String::new();
    push_number(&mut s, n);
    proof {
        assert(s@ =~= number_text(n));
    }
    s
}

/// Appends the text of a unit expression.
pub fn push_dim(out: &mut String, e: &DimExpr)
    ensures
        final(out)@ == old(out)@ + dim_expr_text(*e),
    decreases e,
{
    let ghost o = out@;
    match e {
        DimExpr::Base(name) => push_str(out, name.as_str()),
        DimExpr::Mul(l, r) => {
            push_dim(out, &l.node);
            push_str(out, " * ");
            push_dim(out, &r.node);
        },
        DimExpr::Div(l, r) => {
            push_dim(out, &l.node);
            push_str(out, " / ");
            push_dim(out, &r.node);
        },
        DimExpr::Power(b, n) => {
            push_dim(out, &b.node);
            push_str(out, "^");
            push_i64(out, *n as i64);
        },
        DimExpr::Tensor { base, shape } => {
            push_dim(out, &base.node);
            push_str(out, "[");
            push_shape_list(out, shape);
            push_str(out, "]");
        },
    }
    proof {
        assert(out@ =~= o + dim_expr_text(*e));
    }
}

/// The text of a unit expression.
pub fn format_dim(e: &DimExpr) -> (s: String)
    ensures
        s@ == dim_expr_text(*e),
{
    let mut s = String::new();
    push_dim(&mut s, e);
    proof {
        assert(s@ =~= dim_expr_text(*e));
    }
    s
}

fn push_bin_op(out: &mut String, op: BinOp)
    ensures
        final(out)@ == old(out)@ + bin_op_text(op),
{
    match op {
        BinOp::Add => push_str(out, "+"),
        BinOp::Sub => push_str(out, "-"),
        BinOp::Mul => push_str(out, "*"),
        BinOp::Div => push_str(out, "/"),
        BinOp::Pow => push_str(out, "^"),
        BinOp::Mod => push_str(out, "%"),
        BinOp::Lt => push_str(out, "<"),
        BinOp::Gt => push_str(out, ">"),
        BinOp::Eq => push_str(out, "=="),
    }
}

fn push_pattern(out: &mut String, p: &Pattern)
    ensures
        final(out)@ == old(out)@ + pattern_text(*p),
{
    let ghost o = out@;
    match p {
        Pattern::Wildcard => push_str(out, "_"),
        Pattern::Literal(n) => push_number(out, *n),
        Pattern::Binding { name, type_guard } => {
            push_str(out, name.as_str());
            match type_guard {
                None => {},
                Some(g) => {
                    push_str(out, ": ");
                    push_dim(out, &g.node);
                },
            }
        },
    }
    proof {
        assert(out@ =~= o + pattern_text(*p));
    }
}

/// The precedence of an expression (see [`prec`]).
fn prec_of(e: &Expr) -> (r: i8)
    ensures
        r as int == prec(*e),
{
    match e {
        Expr::BinaryOp { op, .. } => level_of(*op),
        Expr::UnaryOp { .. } => -1,
        _ => -2,
    }
}

/// The precedence level of an operator (see [`op_level`]).
fn level_of(op: BinOp) -> (r: i8)
    ensures
        r as int == op_level(op),
{
    match op {
        BinOp::Lt | BinOp::Gt | BinOp::Eq => 3,
        BinOp::Add | BinOp::Sub => 2,
        BinOp::Mul | BinOp::Div | BinOp::Mod => 1,
        BinOp::Pow => 0,
    }
}

/// Appends the text of an expression, in parentheses when `wrap`.
fn push_wrapped(out: &mut String, e: &Spanned<Expr>, wrap: bool)
    ensures
        final(out)@ == old(out)@ + paren_if(wrap, expr_text(e.node)),
    decreases e, 2int,
{
    let ghost o = out@;
    if wrap {
        push_str(out, "(");
        push_expr(out, e);
        push_str(out, ")");
        proof {
            assert(out@ =~= o + paren_if(wrap, expr_text(e.node)));
        }
    } else {
        push_expr(out, e);
    }
}

/// Appends the text of an expression.
#[verifier::rlimit(60)]
pub fn push_expr(out: &mut String, e: &Spanned<Expr>)
    ensures
        final(out)@ == old(out)@ + expr_text(e.node),
    decreases e, 1int,
{
    let ghost o = out@;
    match &e.node {
        Expr::Literal { value, suffix } => {
            push_number(out, *value);
            match suffix {
                None => {},
                Some(u) => {
                    push_str(out, "_");
                    push_dim(out, &u.node);
                },
            }
        },
        Expr::Variable(name) => push_str(out, name.as_str()),
        Expr::BinaryOp { op, lhs, rhs } => {
            let lp = if *op == BinOp::Pow { prec_of(&lhs.node) >= 0 } else { prec_of(&lhs.node) > level_of(*op) };
            push_wrapped(out, lhs, lp);
            push_str(out, " ");
            push_bin_op(out, *op);
            push_str(out, " ");
            let rp = if *op == BinOp::Pow { prec_of(&rhs.node) > 0 } else { prec_of(&rhs.node) >= level_of(*op) };
            push_wrapped(out, rhs, rp);
        },
        Expr::UnaryOp { expr, .. } => {
            push_str(out, "-");
            let p = prec_of(&expr.node) >= 0;
            push_wrapped(out, expr, p);
        },
        Expr::Call { func, args } => {
            push_str(out, func.as_str());
            push_str(out, "(");
            push_args(out, args);
            push_str(out, ")");
        },
        Expr::Block(stmts) => {
            push_str(out, "{ ");
            push_stmts(out, stmts);
            push_str(out, "}");
        },
        Expr::If { cond, then_branch, else_branch } => {
            push_str(out, "if ");
            push_expr(out, cond);
            push_str(out, " { ");
            push_expr(out, then_branch);
            push_str(out, " }");
            push_else(out, else_branch);
        },
        Expr::Loop { body } => {
            push_str(out, "loop { ");
            push_stmts(out, body);
            push_str(out, "}");
        },
        Expr::While { cond, body } => {
            push_str(out, "while ");
            push_expr(out, cond);
            push_str(out, " { ");
            push_stmts(out, body);
            push_str(out, "}");
        },
        Expr::For { var, start, end, body } => {
            push_str(out, "for ");
            push_str(out, var.as_str());
            push_str(out, " in ");
            push_expr(out, start);
            push_str(out, "..");
            push_expr(out, end);
            push_str(out, " { ");
            push_stmts(out, body);
            push_str(out, "}");
        },
        Expr::Match { scrutinee, arms } => {
            push_str(out, "match ");
            push_expr(out, scrutinee);
            push_str(out, " { ");
            push_arms(out, arms);
            push_str(out, " }");
        },
        Expr::UnsafeTransmute { expr, assume_unit, assume_layout } => {
            push_str(out, "unsafe transmute(");
            push_expr(out, expr);
            push_str(out, ")");
            let ghost t0 = out@;
            if assume_unit.is_some() || assume_layout.is_some() {
                push_str(out, " {");
                match assume_unit {
                    Some(u) => {
                        push_str(out, " assume_unit: ");
                        push_dim(out, &u.node);
                    },
                    None => {},
                }
                match assume_layout {
                    Some(l) => {
                        if assume_unit.is_some() {
                            push_str(out, ",");
                        }
                        push_str(out, " assume_layout: ");
                        push_str(out, l.as_str());
                    },
                    None => {},
                }
                push_str(out, "}");
            }
            proof {
                assert(out@ =~= t0 + transmute_tail(*assume_unit, *assume_layout));
            }
        },
        Expr::MacroCall { name, args } => {
            push_str(out, name.as_str());
            push_str(out, "!(");
            push_str(out, args.as_str());
            push_str(out, ")");
        },
        Expr::Print { expr } => {
            push_str(out, "print(");
            push_expr(out, expr);
            push_str(out, ")");
        },
        Expr::Log { message } => {
            push_str(out, "log(\"");
            push_str(out, message.as_str());
            push_str(out, "\")");
        },
        Expr::StructLit { name, fields } => {
            push_str(out, name.as_str());
            push_str(out, " { ");
            push_fields(out, fields);
            push_str(out, " }");
        },
        Expr::FieldAccess { expr, field } => {
            let p = prec_of(&expr.node) >= -1;
            push_wrapped(out, expr, p);
            push_str(out, ".");
            push_str(out, field.as_str());
        },
    }
    proof {
        assert(out@ =~= o + expr_text(e.node));
    }
}

/// Appends the `elseif` / `else` chain.
fn push_else(out: &mut String, eb: &Option<Box<Spanned<Expr>>>)
    ensures
        final(out)@ == old(out)@ + else_text(*eb),
    decreases eb, 0int,
{
    let ghost o = out@;
    match eb {
        None => {},
        Some(n) => match &n.node {
            Expr::If { cond, then_branch, else_branch } => {
                push_str(out, " elseif ");
                push_expr(out, cond);
                push_str(out, " { ");
                push_expr(out, then_branch);
                push_str(out, " }");
                push_else(out, else_branch);
            },
            _ => {
                push_str(out, " else { ");
                push_expr(out, n);
                push_str(out, " }");
            },
        },
    }
    proof {
        assert(out@ =~= o + else_text(*eb));
    }
}

fn push_args(out: &mut String, args: &Vec<Spanned<Expr>>)
    ensures
        final(out)@ == old(out)@ + args_text(args@, 0),
    decreases args, 0int,
{
    let ghost o = out@;
    let mut i: usize = 0;
    while i < args.len()
        invariant
            i <= args@.len(),
            o + args_text(args@, 0) == out@ + args_text(args@, i as int),
        decreases args@.len() - i,
    {
        let ghost before = out@;
        proof {
            assert(decreases_to!(*args => args@));
            assert(decreases_to!(args@ => args@[i as int]));
        }
        if i > 0 {
            push_str(out, ", ");
        }
        push_expr(out, &args[i]);
        proof {
            let sep: Seq<char> = if i > 0 { ", "@ } else { Seq::empty() };
            assert(out@ =~= before + sep + expr_text(args@[i as int].node));
            assert(before + args_text(args@, i as int) =~= out@ + args_text(args@, i + 1));
        }
        i = i + 1;
    }
    proof {
        assert(out@ + args_text(args@, i as int) =~= out@);
    }
}

fn push_stmts(out: &mut String, stmts: &Vec<Spanned<Stmt>>)
    ensures
        final(out)@ == old(out)@ + stmts_text(stmts@, 0),
    decreases stmts, 0int,
{
    let ghost o = out@;
    let mut i: usize = 0;
    while i < stmts.len()
        invariant
            i <= stmts@.len(),
            o + stmts_text(stmts@, 0) == out@ + stmts_text(stmts@, i as int),
        decreases stmts@.len() - i,
    {
        let ghost before = out@;
        proof {
            assert(decreases_to!(*stmts => stmts@));
            assert(decreases_to!(stmts@ => stmts@[i as int]));
        }
        push_stmt(out, &stmts[i]);
        push_str(out, " ");
        proof {
            assert(before + stmts_text(stmts@, i as int) =~= out@ + stmts_text(stmts@, i + 1));
        }
        i = i + 1;
    }
    proof {
        assert(out@ + stmts_text(stmts@, i as int) =~= out@);
    }
}

fn push_arms(out: &mut String, arms: &Vec<MatchArm>)
    ensures
        final(out)@ == old(out)@ + arms_text(arms@, 0),
    decreases arms, 0int,
{
    let ghost o = out@;
    let mut i: usize = 0;
    while i < arms.len()
        invariant
            i <= arms@.len(),
            o + arms_text(arms@, 0) == out@ + arms_text(arms@, i as int),
        decreases arms@.len() - i,
    {
        let ghost before = out@;
        proof {
            assert(decreases_to!(*arms => arms@));
            assert(decreases_to!(arms@ => arms@[i as int]));
        }
        if i > 0 {
            push_str(out, ", ");
        }
        push_pattern(out, &arms[i].pattern);
        push_str(out, " => ");
        push_expr(out, &arms[i].body);
        proof {
            let sep: Seq<char> = if i > 0 { ", "@ } else { Seq::empty() };
            assert(out@ =~= before + sep + pattern_text(arms@[i as int].pattern) + " => "@ + expr_text(arms@[i as int].body.node));
            assert(before + arms_text(arms@, i as int) =~= out@ + arms_text(arms@, i + 1));
        }
        i = i + 1;
    }
    proof {
        assert(out@ + arms_text(arms@, i as int) =~= out@);
    }
}

fn push_fields(out: &mut String, fields: &Vec<(String, Spanned<Expr>)>)
    ensures
        final(out)@ == old(out)@ + fields_text(fields@, 0),
    decreases fields, 0int,
{
    let ghost o = out@;
    let mut i: usize = 0;
    while i < fields.len()
        invariant
            i <= fields@.len(),
            o + fields_text(fields@, 0) == out@ + fields_text(fields@, i as int),
        decreases fields@.len() - i,
    {
        let ghost before = out@;
        proof {
            assert(decreases_to!(*fields => fields@));
            assert(decreases_to!(fields@ => fields@[i as int]));
        }
        if i > 0 {
            push_str(out, ", ");
        }
        push_str(out, fields[i].0.as_str());
        push_str(out, ": ");
        push_expr(out, &fields[i].1);
        proof {
            let sep: Seq<char> = if i > 0 { ", "@ } else { Seq::empty() };
            assert(out@ =~= before + sep + fields@[i as int].0@ + ": "@ + expr_text(fields@[i as int].1.node));
            assert(before + fields_text(fields@, i as int) =~= out@ + fields_text(fields@, i + 1));
        }
        i = i + 1;
    }
    proof {
        assert(out@ + fields_text(fields@, i as int) =~= out@);
    }
}

/// Appends the text of a statement.
pub fn push_stmt(out: &mut String, st: &Spanned<Stmt>)
    ensures
        final(out)@ == old(out)@ + stmt_text(st.node),
    decreases st, 1int,
{
    let ghost o = out@;
    match &st.node {
        Stmt::Let { name, declared_type, init, is_mut } => {
            push_str(out, "let ");
            if *is_mut {
                push_str(out, "mut ");
            }
            push_str(out, name.as_str());
            match declared_type {
                Some(t) => {
                    push_str(out, ": ");
                    push_dim(out, &t.node);
                },
                None => {},
            }
            push_str(out, " = ");
            push_expr(out, init);
            push_str(out, ";");
        },
        Stmt::Assign { target, value } => {
            push_str(out, target.as_str());
            push_str(out, " = ");
            push_expr(out, value);
            push_str(out, ";");
        },
        Stmt::Expr(e) => {
            push_expr(out, e);
            push_str(out, ";");
        },
        Stmt::Break => push_str(out, "break;"),
        Stmt::Continue => push_str(out, "continue;"),
    }
    proof {
        assert(out@ =~= o + stmt_text(st.node));
    }
}

/// The text of an expression.
pub fn format_expr(e: &Spanned<Expr>) -> (s: String)
    ensures
        s@ == expr_text(e.node),
{
    let mut s = String::new();
    push_expr(&mut s, e);
    proof {
        assert(s@ =~= expr_text(e.node));
    }
    s
}


fn push_vis(out: &mut String, v: Visibility)
    ensures
        final(out)@ == old(out)@ + vis_text(v),
{
    match v {
        Visibility::Private => {},
        Visibility::Crate => push_str(out, "pub(crate) "),
        Visibility::Public => push_str(out, "pub "),
    }
    proof {
        assert(out@ =~= old(out)@ + vis_text(v));
    }
}

fn push_field_decls(out: &mut String, fs: &Vec<Field>)
    ensures
        final(out)@ == old(out)@ + field_decls_text(fs@, 0),
{
    let ghost o = out@;
    let mut i: usize = 0;
    while i < fs.len()
        invariant
            i <= fs@.len(),
            o + field_decls_text(fs@, 0) == out@ + field_decls_text(fs@, i as int),
        decreases fs@.len() - i,
    {
        let ghost before = out@;
        if i > 0 {
            push_str(out, ", ");
        }
        push_vis(out, fs[i].visibility);
        push_str(out, fs[i].name.as_str());
        push_str(out, ": ");
        push_dim(out, &fs[i].dim.node);
        proof {
            let sep: Seq<char> = if i > 0 { ", "@ } else { Seq::empty() };
            assert(out@ =~= before + sep + vis_text(fs@[i as int].visibility) + fs@[i as int].name@ + ": "@ + dim_expr_text(fs@[i as int].dim.node));
            assert(before + field_decls_text(fs@, i as int) =~= out@ + field_decls_text(fs@, i + 1));
        }
        i = i + 1;
    }
    proof {
        assert(out@ + field_decls_text(fs@, i as int) =~= out@);
    }
}

fn push_params(out: &mut String, ps: &Vec<Param>)
    ensures
        final(out)@ == old(out)@ + params_text(ps@, 0),
{
    let ghost o = out@;
    let mut i: usize = 0;
    while i < ps.len()
        invariant
            i <= ps@.len(),
            o + params_text(ps@, 0) == out@ + params_text(ps@, i as int),
        decreases ps@.len() - i,
    {
        let ghost before = out@;
        if i > 0 {
            push_str(out, ", ");
        }
        push_str(out, ps[i].name.as_str());
        push_str(out, ": ");
        push_dim(out, &ps[i].dim.node);
        proof {
            let sep: Seq<char> = if i > 0 { ", "@ } else { Seq::empty() };
            assert(out@ =~= before + sep + ps@[i as int].name@ + ": "@ + dim_expr_text(ps@[i as int].dim.node));
            assert(before + params_text(ps@, i as int) =~= out@ + params_text(ps@, i + 1));
        }
        i = i + 1;
    }
    proof {
        assert(out@ + params_text(ps@, i as int) =~= out@);
    }
}

fn push_joined(out: &mut String, ws: &Vec<String>, sep: &str)
    ensures
        final(out)@ == old(out)@ + joined_text(ws@, sep@, 0),
{
    let ghost o = out@;
    let mut i: usize = 0;
    while i < ws.len()
        invariant
            i <= ws@.len(),
            o + joined_text(ws@, sep@, 0) == out@ + joined_text(ws@, sep@, i as int),
        decreases ws@.len() - i,
    {
        let ghost before = out@;
        if i > 0 {
            push_str(out, sep);
        }
        push_str(out, ws[i].as_str());
        proof {
            let sp: Seq<char> = if i > 0 { sep@ } else { Seq::empty() };
            assert(out@ =~= before + sp + ws@[i as int]@);
            assert(before + joined_text(ws@, sep@, i as int) =~= out@ + joined_text(ws@, sep@, i + 1));
        }
        i = i + 1;
    }
    proof {
        assert(out@ + joined_text(ws@, sep@, i as int) =~= out@);
    }
}

fn push_attribute(out: &mut String, a: &Attribute)
    ensures
        final(out)@ == old(out)@ + attribute_text(*a),
{
    let ghost o = out@;
    push_str(out, "#[");
    push_str(out, a.name.as_str());
    if a.args.len() > 0 {
        push_str(out, "(");
        push_joined(out, &a.args, ", ");
        push_str(out, ")");
    }
    push_str(out, "]");
    proof {
        assert(out@ =~= o + attribute_text(*a));
    }
}

fn push_attrs(out: &mut String, attrs: &Vec<Attribute>, pad: &str)
    ensures
        final(out)@ == old(out)@ + attrs_text(attrs@, pad@, 0),
{
    let ghost o = out@;
    let mut i: usize = 0;
    while i < attrs.len()
        invariant
            i <= attrs@.len(),
            o + attrs_text(attrs@, pad@, 0) == out@ + attrs_text(attrs@, pad@, i as int),
        decreases attrs@.len() - i,
    {
        let ghost before = out@;
        push_attribute(out, &attrs[i]);
        push_str(out, "\n");
        push_str(out, pad);
        proof {
            assert(before + attrs_text(attrs@, pad@, i as int) =~= out@ + attrs_text(attrs@, pad@, i + 1));
        }
        i = i + 1;
    }
    proof {
        assert(out@ + attrs_text(attrs@, pad@, i as int) =~= out@);
    }
}

fn push_block(out: &mut String, stmts: &Vec<Spanned<Stmt>>, pad: &str)
    ensures
        final(out)@ == old(out)@ + block_text(stmts@, pad@),
{
    let ghost o = out@;
    let mut inner = String::new();
    push_str(&mut inner, pad);
    push_str(&mut inner, "    ");
    push_str(out, "{\n");
    let ghost o1 = out@;
    let mut i: usize = 0;
    while i < stmts.len()
        invariant
            i <= stmts@.len(),
            inner@ == pad@ + "    "@,
            o1 + lines_text(stmts@, inner@, 0) == out@ + lines_text(stmts@, inner@, i as int),
        decreases stmts@.len() - i,
    {
        let ghost before = out@;
        push_str(out, inner.as_str());
        push_stmt(out, &stmts[i]);
        push_str(out, "\n");
        proof {
            assert(before + lines_text(stmts@, inner@, i as int) =~= out@ + lines_text(stmts@, inner@, i + 1));
        }
        i = i + 1;
    }
    proof {
        assert(out@ + lines_text(stmts@, inner@, i as int) =~= out@);
    }
    push_str(out, pad);
    push_str(out, "}");
    proof {
        assert(out@ =~= o + block_text(stmts@, pad@));
    }
}

fn push_op_body(out: &mut String, p: &OpProperties, pad: &str)
    ensures
        final(out)@ == old(out)@ + op_body_text(*p, pad@),
{
    let mut p1 = String::new();
    push_str(&mut p1, pad);
    push_str(&mut p1, "    ");
    proof {
        assert(p1@ =~= pad@ + "    "@);
    }
    let mut s = String::new();
    push_str(&mut s, "{\n");
    proof {
        assert(s@ =~= "{\n"@);
    }
    push_str(&mut s, p1.as_str());
    push_str(&mut s, "properties {\n");
    let ghost g0 = s@;
    if p.vectorizable {
        push_str(&mut s, p1.as_str());
        push_str(&mut s, "    vectorizable: true,\n");
    }
    let ghost g1 = s@;
    proof {
        assert(g1 =~= g0 + (if p.vectorizable { p1@ + "    vectorizable: true,\n"@ } else { Seq::empty() }));
    }
    if p.commutative {
        push_str(&mut s, p1.as_str());
        push_str(&mut s, "    commutative: true,\n");
    }
    let ghost g2 = s@;
    proof {
        assert(g2 =~= g1 + (if p.commutative { p1@ + "    commutative: true,\n"@ } else { Seq::empty() }));
    }
    if p.associative {
        push_str(&mut s, p1.as_str());
        push_str(&mut s, "    associative: true,\n");
    }
    let ghost g3 = s@;
    proof {
        assert(g3 =~= g2 + (if p.associative { p1@ + "    associative: true,\n"@ } else { Seq::empty() }));
    }
    match p.cost {
        Some(c) => {
            push_str(&mut s, p1.as_str());
            push_str(&mut s, "    cost: ");
            push_number(&mut s, c);
            push_str(&mut s, ",\n");
        },
        None => {},
    }
    let ghost g4 = s@;
    proof {
        assert(g4 =~= g3 + (match p.cost { Some(c) => p1@ + "    cost: "@ + number_text(c) + ",\n"@, None => Seq::empty() }));
    }
    push_str(&mut s, p1.as_str());
    push_str(&mut s, "}\n");
    push_op_rules(&mut s, p, p1.as_str());
    push_str(&mut s, pad);
    push_str(&mut s, "}");
    proof {
        assert(s@ =~= op_body_text(*p, pad@));
    }
    push_str(out, s.as_str());
}

fn push_op_rules(s: &mut String, p: &OpProperties, p1: &str)
    ensures
        final(s)@ == old(s)@ + op_rules_text(*p, p1@),
{
    let ghost g5 = s@;
    let mut q = String::new();
    push_str(&mut q, p1);
    push_str(&mut q, "    ");
    proof {
        assert(q@ =~= p1@ + "    "@);
    }
    if p.simplify_rules.len() > 0 {
        push_str(s, p1);
        push_str(s, "simplify {\n");
        push_simp_rules(s, &p.simplify_rules, q.as_str());
        push_str(s, p1);
        push_str(s, "}\n");
    }
    let ghost g6 = s@;
    proof {
        assert(g6 =~= g5 + (if p.simplify_rules@.len() > 0 {
            p1@ + "simplify {\n"@ + simp_rules_text(p.simplify_rules@, p1@ + "    "@, 0) + p1@ + "}\n"@
        } else {
            Seq::empty()
        }));
    }
    if p.egraph_rules.len() > 0 {
        push_str(s, p1);
        push_str(s, "egraph {\n");
        push_eg_rules(s, &p.egraph_rules, q.as_str());
        push_str(s, p1);
        push_str(s, "}\n");
    }
    proof {
        assert(s@ =~= g5 + op_rules_text(*p, p1@));
    }
}

fn push_simp_rules(out: &mut String, rs: &Vec<crate::ast::SimplifyRule>, q: &str)
    ensures
        final(out)@ == old(out)@ + simp_rules_text(rs@, q@, 0),
{
    let ghost o = out@;
    let mut i: usize = 0;
    while i < rs.len()
        invariant
            i <= rs@.len(),
            o + simp_rules_text(rs@, q@, 0) == out@ + simp_rules_text(rs@, q@, i as int),
        decreases rs@.len() - i,
    {
        let ghost before = out@;
        push_str(out, q);
        push_expr(out, &rs[i].pattern);
        push_str(out, " => ");
        push_expr(out, &rs[i].replacement);
        push_str(out, ",\n");
        proof {
            assert(out@ + simp_rules_text(rs@, q@, i + 1) =~= before + simp_rules_text(rs@, q@, i as int));
        }
        i = i + 1;
    }
}

fn push_eg_rules(out: &mut String, rs: &Vec<crate::ast::EGraphRule>, q: &str)
    ensures
        final(out)@ == old(out)@ + eg_rules_text(rs@, q@, 0),
{
    let ghost o = out@;
    let mut i: usize = 0;
    while i < rs.len()
        invariant
            i <= rs@.len(),
            o + eg_rules_text(rs@, q@, 0) == out@ + eg_rules_text(rs@, q@, i as int),
        decreases rs@.len() - i,
    {
        let ghost before = out@;
        push_str(out, q);
        if rs[i].after_builtins {
            push_str(out, "after ");
        }
        push_str(out, "rewrite ");
        push_expr(out, &rs[i].pattern);
        push_str(out, " => ");
        push_expr(out, &rs[i].replacement);
        push_str(out, ",\n");
        proof {
            assert(out@ + eg_rules_text(rs@, q@, i + 1) =~= before + eg_rules_text(rs@, q@, i as int));
        }
        i = i + 1;
    }
}

fn push_rules(out: &mut String, rules: &Vec<crate::ast::MacroRule>, pad: &str)
    ensures
        final(out)@ == old(out)@ + rules_text(rules@, pad@, 0),
{
    let ghost o = out@;
    let mut i: usize = 0;
    while i < rules.len()
        invariant
            i <= rules@.len(),
            o + rules_text(rules@, pad@, 0) == out@ + rules_text(rules@, pad@, i as int),
        decreases rules@.len() - i,
    {
        let ghost before = out@;
        push_str(out, "\n");
        push_str(out, pad);
        push_str(out, "    (");
        push_str(out, rules[i].pattern.as_str());
        push_str(out, ") => { ");
        push_str(out, rules[i].replacement.as_str());
        push_str(out, " }");
        proof {
            assert(before + rules_text(rules@, pad@, i as int) =~= out@ + rules_text(rules@, pad@, i + 1));
        }
        i = i + 1;
    }
    proof {
        assert(out@ + rules_text(rules@, pad@, i as int) =~= out@);
    }
}

#[verifier::rlimit(60)]
#[verifier::spinoff_prover]
fn push_fn_item(out: &mut String, item: &Item, pad: &str)
    requires
        item is Function,
    ensures
        final(out)@ == old(out)@ + item_text(*item, pad@),
{
    let ghost o = out@;
    match item {
        Item::Function { name, params, return_type, body, visibility, attributes, .. } => {
            push_attrs(out, attributes, pad);
            push_vis(out, *visibility);
            push_str(out, pad);
            push_str(out, "fn ");
            push_str(out, name.as_str());
            push_str(out, "(");
            push_params(out, params);
            match return_type {
                Some(r) => {
                    push_str(out, ") -> ");
                    push_dim(out, &r.node);
                },
                None => push_str(out, ")"),
            }
            match body {
                FunctionBody::Expression(e) => {
                    push_str(out, " := ");
                    push_expr(out, e);
                },
                FunctionBody::Block(stmts) => {
                    push_str(out, " ");
                    push_block(out, stmts, pad);
                },
            }
        },
        _ => {},
    }
    proof {
        assert(out@ =~= o + item_text(*item, pad@));
    }
}

fn push_op_item(out: &mut String, item: &Item, pad: &str)
    requires
        item is CustomOp,
    ensures
        final(out)@ == old(out)@ + item_text(*item, pad@),
{
    let ghost o = out@;
    match item {
        Item::CustomOp { name, param_name, input_dim, output_dim, visibility, properties, .. } => {
            push_vis(out, *visibility);
            push_str(out, pad);
            push_str(out, "op ");
            push_str(out, name.as_str());
            push_str(out, "(");
            push_str(out, param_name.as_str());
            push_str(out, ": ");
            push_dim(out, &input_dim.node);
            push_str(out, " -> ");
            push_dim(out, &output_dim.node);
            push_str(out, ") ");
            push_op_body(out, properties, pad);
        },
        _ => {},
    }
    proof {
        assert(out@ =~= o + item_text(*item, pad@));
    }
}

/// Appends the text of an item at indentation `pad`.
fn push_use_item(out: &mut String, item: &Item, pad: &str)
    requires
        item is Use,
    ensures
        final(out)@ == old(out)@ + item_text(*item, pad@),
{
    let ghost o = out@;
    match item {
        Item::Use { path, alias, glob } => {
            push_str(out, pad);
            push_str(out, "use ");
            push_joined(out, path, "::");
            if *glob {
                push_str(out, "::*");
            }
            match alias {
                Some(a) => {
                    push_str(out, " as ");
                    push_str(out, a.as_str());
                },
                None => {},
            }
        },
        _ => {},
    }
    proof {
        assert(out@ =~= o + item_text(*item, pad@));
    }
}

fn push_alias_item(out: &mut String, item: &Item, pad: &str)
    requires
        item is TypeAlias,
    ensures
        final(out)@ == old(out)@ + item_text(*item, pad@),
{
    let ghost o = out@;
    match item {
        Item::TypeAlias { name, dimension_expr, .. } => {
            push_str(out, pad);
            push_str(out, "type ");
            push_str(out, name.as_str());
            push_str(out, " = ");
            push_dim(out, &dimension_expr.node);
        },
        _ => {},
    }
    proof {
        assert(out@ =~= o + item_text(*item, pad@));
    }
}

fn push_struct_item(out: &mut String, item: &Item, pad: &str)
    requires
        item is Struct,
    ensures
        final(out)@ == old(out)@ + item_text(*item, pad@),
{
    let ghost o = out@;
    match item {
        Item::Struct { name, fields, visibility, .. } => {
            push_vis(out, *visibility);
            push_str(out, pad);
            push_str(out, "struct ");
            push_str(out, name.as_str());
            push_str(out, " { ");
            push_field_decls(out, fields);
            push_str(out, "}");
        },
        _ => {},
    }
    proof {
        assert(out@ =~= o + item_text(*item, pad@));
    }
}

fn push_mod_item(out: &mut String, item: &Item, pad: &str)
    requires
        item is Module,
    ensures
        final(out)@ == old(out)@ + item_text(*item, pad@),
    decreases item, 0int,
{
    let ghost o = out@;
    match item {
        Item::Module { name, body, visibility, .. } => {
            push_vis(out, *visibility);
            push_str(out, pad);
            push_str(out, "mod ");
            push_str(out, name.as_str());
            match body {
                None => {},
                Some(items) => {
                    push_str(out, " {\n");
                    push_module_items(out, items, pad);
                    push_str(out, pad);
                    push_str(out, "}");
                },
            }
        },
        _ => {},
    }
    proof {
        assert(out@ =~= o + item_text(*item, pad@));
    }
}

fn push_macro_item(out: &mut String, item: &Item, pad: &str)
    requires
        item is MacroDef,
    ensures
        final(out)@ == old(out)@ + item_text(*item, pad@),
{
    let ghost o = out@;
    match item {
        Item::MacroDef { name, rules } => {
            push_str(out, pad);
            push_str(out, "macro_rules! ");
            push_str(out, name.as_str());
            push_str(out, " {");
            push_rules(out, rules, pad);
            push_str(out, "\n");
            push_str(out, pad);
            push_str(out, "}");
        },
        _ => {},
    }
    proof {
        assert(out@ =~= o + item_text(*item, pad@));
    }
}

fn push_const_item(out: &mut String, item: &Item, pad: &str)
    requires
        item is Const,
    ensures
        final(out)@ == old(out)@ + item_text(*item, pad@),
{
    let ghost o = out@;
    match item {
        Item::Const { name, dim, value, visibility, .. } => {
            push_vis(out, *visibility);
            push_str(out, pad);
            push_str(out, "const ");
            push_str(out, name.as_str());
            match dim {
                Some(d) => {
                    push_str(out, ": ");
                    push_dim(out, &d.node);
                },
                None => {},
            }
            push_str(out, " = ");
            push_expr(out, value);
        },
        _ => {},
    }
    proof {
        assert(out@ =~= o + item_text(*item, pad@));
    }
}

pub fn push_item(out: &mut String, item: &Item, pad: &str)
    ensures
        final(out)@ == old(out)@ + item_text(*item, pad@),
    decreases item, 1int,
{
    let ghost o = out@;
    match item {
        Item::Use { .. } => push_use_item(out, item, pad),
        Item::TypeAlias { .. } => push_alias_item(out, item, pad),
        Item::Struct { .. } => push_struct_item(out, item, pad),
        Item::Function { .. } => push_fn_item(out, item, pad),
        Item::CustomOp { .. } => push_op_item(out, item, pad),
        Item::Module { .. } => push_mod_item(out, item, pad),
        Item::MacroDef { .. } => push_macro_item(out, item, pad),
        Item::MacroCall { name, args } => {
            push_str(out, pad);
            push_str(out, name.as_str());
            push_str(out, "!(");
            push_str(out, args.as_str());
            push_str(out, ")");
        },
        Item::Const { .. } => push_const_item(out, item, pad),
    }
    proof {
        assert(out@ =~= o + item_text(*item, pad@));
    }
}

fn push_module_items(out: &mut String, items: &Vec<Spanned<Item>>, pad: &str)
    ensures
        final(out)@ == old(out)@ + module_items_text(items@, pad@, 0),
    decreases items, 0int,
{
    let ghost o = out@;
    let mut p1 = String::new();
    push_str(&mut p1, pad);
    push_str(&mut p1, "    ");
    let mut i: usize = 0;
    while i < items.len()
        invariant
            i <= items@.len(),
            p1@ == pad@ + "    "@,
            o + module_items_text(items@, pad@, 0) == out@ + module_items_text(items@, pad@, i as int),
        decreases items@.len() - i,
    {
        let ghost before = out@;
        proof {
            assert(decreases_to!(*items => items@));
            assert(decreases_to!(items@ => items@[i as int]));
        }
        push_str(out, p1.as_str());
        push_item(out, &items[i].node, p1.as_str());
        push_str(out, ";\n");
        if i + 1 < items.len() {
            push_str(out, "\n");
        }
        proof {
            assert(before + module_items_text(items@, pad@, i as int) =~= out@ + module_items_text(items@, pad@, i + 1));
        }
        i = i + 1;
    }
    proof {
        assert(out@ + module_items_text(items@, pad@, i as int) =~= out@);
    }
}

fn item_needs_semicolon(item: &Item) -> (r: bool)
    ensures
        r == needs_semicolon(*item),
{
    match item {
        Item::Module { body: Some(_), .. } => false,
        Item::Function { body: FunctionBody::Block(_), .. } => false,
        Item::CustomOp { .. } | Item::MacroDef { .. } => false,
        _ => true,
    }
}

/// The formatted text of a parsed file.
pub fn format_file(file: &SourceFile) -> (s: String)
    ensures
        s@ == file_text(*file),
{
    let mut out = String::new();
    match &file.doc {
        Some(d) => {
            push_doc(&mut out, "//! ", d.as_str());
            push_str(&mut out, "\n");
        },
        None => {},
    }
    proof {
        assert(out@ =~= module_doc_text(file.doc));
    }
    let ghost head = out@;
    let mut i: usize = 0;
    while i < file.items.len()
        invariant
            i <= file.items@.len(),
            head + file_items_text(file.items@, 0) == out@ + file_items_text(file.items@, i as int),
        decreases file.items@.len() - i,
    {
        let ghost before = out@;
        proof {
            reveal_strlit("");
            assert(""@ =~= Seq::<char>::empty());
        }
        if i > 0 {
            push_str(&mut out, "\n");
        }
        push_item_doc(&mut out, &file.items[i].node);
        push_item(&mut out, &file.items[i].node, "");
        if item_needs_semicolon(&file.items[i].node) {
            push_str(&mut out, ";");
        }
        proof {
            reveal_strlit("");
            assert(before + file_items_text(file.items@, i as int) =~= out@ + file_items_text(file.items@, i + 1));
        }
        i = i + 1;
    }
    proof {
        assert(out@ + file_items_text(file.items@, i as int) =~= out@);
        assert(out@ =~= module_doc_text(file.doc) + file_items_text(file.items@, 0));
    }
    let ends_nl = ends_with_newline(&out);
    if !ends_nl {
        push_char(&mut out, '\n');
    }
    out
}

/// Appends a doc text as comment lines starting with `mark`.
fn push_doc(out: &mut String, mark: &str, d: &str)
    ensures
        final(out)@ == old(out)@ + doc_lines(mark@, d@),
{
    let ghost o = out@;
    let v = crate::text::chars_of(d);
    push_str(out, mark);
    let mut i: usize = 0;
    proof {
        assert(v@.subrange(0, v@.len() as int) =~= v@);
    }
    while i < v.len()
        invariant
            i <= v@.len(),
            v@ == d@,
            o + mark@ + doc_body(mark@, d@) == out@ + doc_body(mark@, v@.subrange(i as int, v@.len() as int)),
        decreases v@.len() - i,
    {
        let ghost rest = v@.subrange(i as int, v@.len() as int);
        proof {
            assert(rest.drop_first() =~= v@.subrange(i + 1, v@.len() as int));
        }
        if v[i] == '\n' {
            push_char(out, '\n');
            push_str(out, mark);
        } else {
            push_char(out, v[i]);
        }
        i = i + 1;
    }
    proof {
        assert(v@.subrange(i as int, v@.len() as int) =~= Seq::<char>::empty());
    }
    push_str(out, "\n");
    proof {
        assert(out@ =~= o + doc_lines(mark@, d@));
    }
}

/// Appends the `///` lines of an item's doc comment, if it has one.
fn push_item_doc(out: &mut String, item: &Item)
    ensures
        final(out)@ == old(out)@ + item_doc_text(*item),
{
    let d = match item {
        Item::Module { doc, .. } => doc,
        Item::TypeAlias { doc, .. } => doc,
        Item::Struct { doc, .. } => doc,
        Item::Function { doc, .. } => doc,
        Item::CustomOp { doc, .. } => doc,
        Item::Const { doc, .. } => doc,
        _ => {
            proof {
                assert(item_doc_text(*item) =~= Seq::<char>::empty());
                assert(out@ =~= out@ + item_doc_text(*item));
            }
            return;
        },
    };
    match d {
        Some(t) => push_doc(out, "/// ", t.as_str()),
        None => {
            proof {
                assert(out@ =~= out@ + item_doc_text(*item));
            }
        },
    }
}

/// Whether a non-empty string ends with a newline.
fn ends_with_newline(s: &String) -> (r: bool)
    ensures
        r == (s@.len() > 0 && s@.last() == '\n'),
{
    let v = crate::text::chars_of(s.as_str());
    v.len() > 0 && v[v.len() - 1] == '\n'
}

/// Format a source text: parse it and print it back.  Fails with the
/// parser's message when the text does not parse.
pub fn format_source(input: &str) -> (r: Result<String, String>)
    ensures
        match r {
            Ok(s) => exists|f: SourceFile| s@ == file_text(f)
                && crate::parser::item_grammar::g_source(input@) == Some(crate::ast::items_view(f.items@))
                && crate::parser::docs::name_opt(f.doc) == crate::parser::docs::joined(crate::parser::docs::prep(input@).module_lines),
            Err(_) => crate::parser::item_grammar::g_source(input@) is None,
        },
{
    match parse_source(input) {
        Ok(file) => Ok(format_file(&file)),
        Err(e) => Err(e),
    }
}

} // verus!
