//! Dimensional type-checker pass.
//!
//! Walks a parsed `SourceFile` and:
//!   1. registers every `type` alias, `struct` and function signature;
//!   2. infers the physical type of every expression, checking dimensions
//!      and tensor shapes;
//!   3. checks `let` annotations against the inferred type;
//!   4. checks expression bodies against the declared return type.
//!
//! The inferred type of an expression is [`infer`]; the errors reported for
//! a file, with their codes, messages and spans, are [`file_reports`].  The
//! checker reports errors as it goes and never removes one.
use vstd::prelude::*;
use crate::ast::{BinOp, DimExpr, Expr, FunctionBody, Item, MatchArm, Number, Pattern, SourceFile, Span, Spanned, Stmt, UnOp};
use crate::decimal::{decimal_to_i64, trunc_value, valid_number};
use crate::modules::{apply_imports, ImportBindings};
use crate::text::{chars_of, chars_eq, copy_string, push_char, push_str};
use crate::types::dim::{
    base_unit, base_unit_spec, resolve, resolve_dim, spec_div, spec_mul, spec_pow, spec_tensor_shape,
    tensor_shape, copy_opt_shape, shape_eq, shape_view, DimVector, PhysicalType, PhysicalTypeView,
    push_shape_list, spec_dimensionless, dim_text, phys_text, shape_list,
};
use crate::types::env::{alias_get, defined, env_lookup, env_lookup_fn, TypeEnv, TypeEnvView};
use crate::types::error::{
    annotation_text, error_at, error_view, mismatch_text, return_text, shape_text, unknown_unit_text, ErrorView, TypeError,
    TypeErrorCode,
};

verus! {

// ── Models ──────────────────────────────────────────────────────────────────

/// Model of the struct table: struct names with their fields' dimensions,
/// in registration order.
pub type StructsView = Seq<(Seq<char>, Seq<(Seq<char>, DimVector)>)>;

/// A scalar of dimension `d`.
pub open spec fn scalar_of(d: DimVector) -> PhysicalTypeView {
    PhysicalTypeView { dim: d, shape: None, struct_name: None }
}

/// The model of an optional physical type.
pub open spec fn opt_view(p: Option<PhysicalType>) -> Option<PhysicalTypeView> {
    match p {
        Some(x) => Some(x@),
        None => None,
    }
}

/// Model of a field list.
pub open spec fn fields_view(f: Seq<(String, DimVector)>) -> Seq<(Seq<char>, DimVector)> {
    f.map_values(|p: (String, DimVector)| (p.0@, p.1))
}

/// Model of the struct table.
pub open spec fn structs_view(s: Seq<(String, Vec<(String, DimVector)>)>) -> StructsView {
    s.map_values(|p: (String, Vec<(String, DimVector)>)| (p.0@, fields_view(p.1@)))
}

/// The fields of struct `name`: the latest registration of that name.
pub open spec fn struct_get(sd: StructsView, name: Seq<char>) -> Option<Seq<(Seq<char>, DimVector)>>
    decreases sd.len(),
{
    if sd.len() == 0 {
        None
    } else if sd.last().0 == name {
        Some(sd.last().1)
    } else {
        struct_get(sd.drop_last(), name)
    }
}

/// The dimension of field `name`: its first declaration.
pub open spec fn field_get(fs: Seq<(Seq<char>, DimVector)>, name: Seq<char>) -> Option<DimVector>
    decreases fs.len(),
{
    if fs.len() == 0 {
        None
    } else if fs[0].0 == name {
        Some(fs[0].1)
    } else {
        field_get(fs.drop_first(), name)
    }
}

// ── Unit resolution ─────────────────────────────────────────────────────────

/// The dimension of a unit expression, where a name is a built-in unit or,
/// failing that, a registered alias.
pub open spec fn resolve_env(e: DimExpr, aliases: Seq<(Seq<char>, DimVector)>) -> Option<DimVector>
    decreases e,
{
    match e {
        DimExpr::Base(name) => match base_unit_spec(name@) {
            Some(d) => Some(d),
            None => alias_get(aliases, name@),
        },
        DimExpr::Mul(l, r) => match (resolve_env(l.node, aliases), resolve_env(r.node, aliases)) {
            (Some(a), Some(b)) => Some(spec_mul(a, b)),
            _ => None,
        },
        DimExpr::Div(l, r) => match (resolve_env(l.node, aliases), resolve_env(r.node, aliases)) {
            (Some(a), Some(b)) => Some(spec_div(a, b)),
            _ => None,
        },
        DimExpr::Power(b, n) => match resolve_env(b.node, aliases) {
            Some(a) => Some(spec_pow(a, n)),
            None => None,
        },
        DimExpr::Tensor { base, .. } => resolve_env(base.node, aliases),
    }
}

/// The physical type an annotation denotes: its dimension and tensor shape.
pub open spec fn resolve_phys_spec(e: DimExpr, aliases: Seq<(Seq<char>, DimVector)>) -> Option<PhysicalTypeView> {
    match resolve_env(e, aliases) {
        Some(d) => Some(PhysicalTypeView { dim: d, shape: spec_tensor_shape(e), struct_name: None }),
        None => None,
    }
}

/// A unit expression made of built-in units resolves the same way whatever
/// aliases are registered.
pub proof fn lemma_builtin_resolution_ignores_aliases(e: DimExpr, aliases: Seq<(Seq<char>, DimVector)>)
    ensures
        resolve_dim(e) matches Some(d) ==> resolve_env(e, aliases) == Some(d),
    decreases e,
{
    match e {
        DimExpr::Base(_) => {},
        DimExpr::Mul(l, r) => {
            lemma_builtin_resolution_ignores_aliases(l.node, aliases);
            lemma_builtin_resolution_ignores_aliases(r.node, aliases);
        },
        DimExpr::Div(l, r) => {
            lemma_builtin_resolution_ignores_aliases(l.node, aliases);
            lemma_builtin_resolution_ignores_aliases(r.node, aliases);
        },
        DimExpr::Power(b, _) => {
            lemma_builtin_resolution_ignores_aliases(b.node, aliases);
        },
        DimExpr::Tensor { base, .. } => {
            lemma_builtin_resolution_ignores_aliases(base.node, aliases);
        },
    }
}

fn resolve_compound_with_env(expr: &DimExpr, env: &TypeEnv) -> (r: Option<DimVector>)
    ensures
        r == resolve_env(*expr, env@.aliases),
    decreases expr,
{
    match expr {
        DimExpr::Base(name) => match base_unit(name.as_str()) {
            Some(d) => Some(d),
            None => env.lookup_alias(name.as_str()),
        },
        DimExpr::Mul(lhs, rhs) => {
            let a = match resolve_compound_with_env(&lhs.node, env) {
                Some(a) => a,
                None => return None,
            };
            match resolve_compound_with_env(&rhs.node, env) {
                Some(b) => Some(a.mul(b)),
                None => None,
            }
        },
        DimExpr::Div(lhs, rhs) => {
            let a = match resolve_compound_with_env(&lhs.node, env) {
                Some(a) => a,
                None => return None,
            };
            match resolve_compound_with_env(&rhs.node, env) {
                Some(b) => Some(a.div(b)),
                None => None,
            }
        },
        DimExpr::Power(base, exp) => match resolve_compound_with_env(&base.node, env) {
            Some(a) => Some(a.pow(*exp)),
            None => None,
        },
        DimExpr::Tensor { base, .. } => resolve_compound_with_env(&base.node, env),
    }
}

/// The dimension of an annotation: built-in units first, then aliases.
fn resolve_with_env(span: &Spanned<DimExpr>, env: &TypeEnv) -> (r: Option<DimVector>)
    ensures
        r == resolve_env(span.node, env@.aliases),
{
    proof {
        lemma_builtin_resolution_ignores_aliases(span.node, env@.aliases);
    }
    match resolve(span) {
        Some(dim) => return Some(dim),
        None => {},
    }
    match &span.node {
        DimExpr::Base(name) => env.lookup_alias(name.as_str()),
        _ => resolve_compound_with_env(&span.node, env),
    }
}

/// The physical type of an annotation: dimension plus optional tensor shape.
fn resolve_phys(span: &Spanned<DimExpr>, env: &TypeEnv) -> (r: Option<PhysicalType>)
    ensures
        opt_view(r) == resolve_phys_spec(span.node, env@.aliases),
{
    match resolve_with_env(span, env) {
        Some(dim) => {
            let shape = tensor_shape(span);
            Some(PhysicalType { dim, shape, struct_name: None })
        },
        None => None,
    }
}

// ── Binary operations ───────────────────────────────────────────────────────

/// The shape of a product:
/// scalar × scalar is a scalar; a scalar and a tensor broadcast to the
/// tensor; `[m, n] × [n, p]` is `[m, p]`; `[n] × [n]` (a dot product) is a
/// scalar; other tensors of equal shape multiply element-wise.
pub open spec fn mul_shape(l: Option<Seq<usize>>, r: Option<Seq<usize>>) -> Option<Seq<usize>> {
    match (l, r) {
        (None, None) => None,
        (Some(s), None) => Some(s),
        (None, Some(s)) => Some(s),
        (Some(a), Some(b)) => if a.len() == 2 && b.len() == 2 {
            if a[1] != b[0] { None } else { Some(seq![a[0], b[1]]) }
        } else if a.len() == 1 && b.len() == 1 && a[0] == b[0] {
            None
        } else if a == b {
            Some(a)
        } else {
            None
        },
    }
}

/// Whether two shapes can be multiplied.
pub open spec fn mul_shape_ok(l: Option<Seq<usize>>, r: Option<Seq<usize>>) -> bool {
    match (l, r) {
        (Some(a), Some(b)) => if a.len() == 2 && b.len() == 2 {
            a[1] == b[0]
        } else {
            (a.len() == 1 && b.len() == 1 && a[0] == b[0]) || a == b
        },
        _ => true,
    }
}

/// The shapes of a product: a scalar factor leaves the other factor's shape;
/// two vectors of one length multiply to a scalar, their dot product, and
/// vectors of different lengths do not multiply; an `m×k` matrix times a
/// `k×j` matrix is an `m×j` matrix, and matrices whose inner dimensions
/// differ do not multiply; tensors of any other rank multiply elementwise
/// when their shapes agree, keeping that shape.
pub proof fn lemma_mul_shape_algebra(s: Option<Seq<usize>>, n: usize, k: usize, m: usize, j: usize, a: Seq<usize>)
    ensures
        mul_shape(None, s) == s && mul_shape_ok(None, s),
        mul_shape(s, None) == s && mul_shape_ok(s, None),
        mul_shape(Some(seq![n]), Some(seq![n])) is None && mul_shape_ok(Some(seq![n]), Some(seq![n])),
        n != k ==> !mul_shape_ok(Some(seq![n]), Some(seq![k])),
        mul_shape(Some(seq![m, k]), Some(seq![k, j])) == Some(seq![m, j]) && mul_shape_ok(Some(seq![m, k]), Some(seq![k, j])),
        n != k ==> !mul_shape_ok(Some(seq![m, k]), Some(seq![n, j])),
        a.len() != 1 && a.len() != 2 ==> mul_shape(Some(a), Some(a)) == Some(a) && mul_shape_ok(Some(a), Some(a)),
{
    assert(seq![n] != seq![k] <== n != k) by {
        if n != k {
            assert(seq![n][0] != seq![k][0]);
        }
    }
}

/// The integer value of an exponent literal: its value truncated toward
/// zero, when that fits an `i64` and the number is a representable decimal.
pub open spec fn int_exponent(n: Number) -> Option<int> {
    if valid_number(n) && i64::MIN <= trunc_value(n) <= i64::MAX {
        Some(trunc_value(n))
    } else {
        None
    }
}

/// The type of `l op r`, given the types of the operands (`None` where an
/// operand's type is unknown) and, for `^`, the exponent expression.
pub open spec fn binop_type(op: BinOp, l: Option<PhysicalTypeView>, r: Option<PhysicalTypeView>, rhs: Expr) -> Option<PhysicalTypeView> {
    match op {
        BinOp::Add | BinOp::Sub => match (l, r) {
            (Some(a), Some(b)) => if a.dim != b.dim || a.shape != b.shape { None } else { Some(a) },
            (Some(a), None) => Some(a),
            (None, Some(b)) => Some(b),
            (None, None) => None,
        },
        BinOp::Mul => match (l, r) {
            (Some(a), Some(b)) => Some(PhysicalTypeView { dim: spec_mul(a.dim, b.dim), shape: mul_shape(a.shape, b.shape), struct_name: None }),
            (Some(a), None) => Some(a),
            (None, Some(b)) => Some(b),
            (None, None) => None,
        },
        BinOp::Div => match (l, r) {
            (Some(a), Some(b)) => Some(PhysicalTypeView {
                dim: spec_div(a.dim, b.dim),
                shape: if a.shape is Some && b.shape is None { a.shape } else { None },
                struct_name: None,
            }),
            (Some(a), None) => Some(a),
            (None, _) => None,
        },
        BinOp::Mod => l,
        BinOp::Pow => match l {
            None => None,
            Some(base) => match rhs {
                Expr::Literal { value, suffix: None } => match int_exponent(value) {
                    Some(x) => if x >= 0 {
                        Some(PhysicalTypeView { dim: spec_pow(base.dim, x as i32), shape: base.shape, struct_name: None })
                    } else {
                        None
                    },
                    None => Some(base),
                },
                Expr::Literal { suffix: Some(_), .. } => None,
                _ => Some(base),
            },
        },
        BinOp::Lt | BinOp::Gt | BinOp::Eq => Some(scalar_of(spec_dimensionless())),
    }
}

/// A product of two vectors of one length is a scalar of the product's
/// dimension (a dot product), so a scalar of that dimension adds to it.
pub proof fn lemma_dot_product_type(a: PhysicalTypeView, b: PhysicalTypeView, c: PhysicalTypeView, n: usize, x: Expr, y: Expr)
    requires
        a.shape == Some(seq![n]),
        b.shape == Some(seq![n]),
        c.shape is None,
        c.dim == spec_mul(a.dim, b.dim),
    ensures
        binop_type(BinOp::Mul, Some(a), Some(b), x) == Some(PhysicalTypeView { dim: spec_mul(a.dim, b.dim), shape: None, struct_name: None }),
        binop_type(BinOp::Add, binop_type(BinOp::Mul, Some(a), Some(b), x), Some(c), y) is Some,
{
}

/// The display of an optional shape: `scalar`, or `[n1, n2, ...]`.
pub open spec fn shape_display_text(s: Option<Seq<usize>>) -> Seq<char> {
    match s {
        None => "scalar"@,
        Some(v) => seq!['['] + shape_list(v) + seq![']'],
    }
}

/// A dimension mismatch at `span`: `got` where `expected` was expected.
pub open spec fn dim_mismatch_at(got: DimVector, expected: DimVector, span: Span) -> ErrorView {
    error_at(TypeErrorCode::DimensionMismatch, mismatch_text(dim_text(got), dim_text(expected)), span)
}

/// A shape mismatch at `span`: shape `got` where `expected` was expected.
pub open spec fn shape_mismatch_at(got: Option<Seq<usize>>, expected: Option<Seq<usize>>, span: Span) -> ErrorView {
    error_at(TypeErrorCode::ShapeMismatch, shape_text(shape_display_text(got), shape_display_text(expected)), span)
}

/// An annotation conflict at `span`: `declared` against `inferred`.
pub open spec fn conflict_at(declared: DimVector, inferred: DimVector, span: Span) -> ErrorView {
    error_at(TypeErrorCode::AnnotationConflict, annotation_text(dim_text(declared), dim_text(inferred)), span)
}

/// An unknown unit at `span`, describing what failed to resolve.
pub open spec fn unknown_at(what: Seq<char>, span: Span) -> ErrorView {
    error_at(TypeErrorCode::UnknownUnit, unknown_unit_text(what), span)
}

/// The message of a missing struct field.
pub open spec fn no_field_text(sname: Seq<char>, field: Seq<char>) -> Seq<char> {
    "struct `"@ + sname + "` has no field `"@ + field + "`"@
}

/// The errors reported at `span` for `l op r`, in order.
pub open spec fn binop_reports(op: BinOp, l: Option<PhysicalTypeView>, r: Option<PhysicalTypeView>, rhs: Expr, span: Span) -> Seq<ErrorView> {
    match op {
        BinOp::Add | BinOp::Sub => match (l, r) {
            (Some(a), Some(b)) => if a.dim != b.dim {
                seq![dim_mismatch_at(b.dim, a.dim, span)]
            } else if a.shape != b.shape {
                seq![shape_mismatch_at(b.shape, a.shape, span)]
            } else {
                Seq::empty()
            },
            _ => Seq::empty(),
        },
        BinOp::Mul => match (l, r) {
            (Some(a), Some(b)) => if mul_shape_ok(a.shape, b.shape) { Seq::empty() } else { seq![shape_mismatch_at(b.shape, a.shape, span)] },
            _ => Seq::empty(),
        },
        BinOp::Div | BinOp::Mod => Seq::empty(),
        BinOp::Pow => match l {
            None => Seq::empty(),
            Some(_) => match rhs {
                Expr::Literal { value, suffix: None } => match int_exponent(value) {
                    Some(x) => if x >= 0 {
                        Seq::empty()
                    } else {
                        seq![error_at(TypeErrorCode::DimensionMismatch, "negative exponent is not supported in dimensional analysis"@, span)]
                    },
                    None => seq![error_at(TypeErrorCode::DimensionMismatch, "exponent must be an integer literal"@, span)],
                },
                Expr::Literal { suffix: Some(_), .. } =>
                    seq![error_at(TypeErrorCode::UnexpectedDimensionless, "exponent must be dimensionless"@, span)],
                _ => seq![error_at(TypeErrorCode::DimensionMismatch, "exponent must be a dimensionless integer literal"@, span)],
            },
        },
        BinOp::Lt | BinOp::Gt | BinOp::Eq => match (l, r) {
            (Some(a), Some(b)) => (if a.dim != b.dim { seq![dim_mismatch_at(b.dim, a.dim, span)] } else { Seq::empty() })
                + (if a.shape != b.shape { seq![shape_mismatch_at(b.shape, a.shape, span)] } else { Seq::empty() }),
            _ => Seq::empty(),
        },
    }
}

/// The models of a list of errors.
pub open spec fn reports(errs: Seq<TypeError>) -> Seq<ErrorView> {
    errs.map_values(|e: TypeError| error_view(e))
}

/// The codes of a list of error models.
pub open spec fn codes_of(rs: Seq<ErrorView>) -> Seq<TypeErrorCode> {
    rs.map_values(|r: ErrorView| r.code)
}

/// `old` is a prefix of `new`.
pub open spec fn extends(old: Seq<TypeError>, new: Seq<TypeError>) -> bool {
    old.len() <= new.len() && new.subrange(0, old.len() as int) == old
}

// ── Expression inference ────────────────────────────────────────────────────

/// The environment with a new, empty innermost scope.
pub open spec fn opened(env: TypeEnvView) -> TypeEnvView {
    TypeEnvView { scopes: env.scopes.push(Seq::empty()), aliases: env.aliases }
}

/// The inferred physical type of an expression in environment `env` with
/// struct table `sd` (`None` when it cannot be determined).
pub open spec fn infer(env: TypeEnvView, sd: StructsView, e: Expr) -> Option<PhysicalTypeView>
    decreases e, 0int,
{
    match e {
        Expr::Literal { suffix, .. } => match suffix {
            Some(u) => resolve_phys_spec(u.node, env.aliases),
            None => Some(scalar_of(spec_dimensionless())),
        },
        Expr::Variable(name) => env_lookup(env, name@),
        Expr::BinaryOp { op, lhs, rhs } => binop_type(op, infer(env, sd, lhs.node), infer(env, sd, rhs.node), rhs.node),
        Expr::UnaryOp { expr, .. } => infer(env, sd, expr.node),
        Expr::Call { func, .. } => match env_lookup_fn(env, func@) {
            Some(d) => Some(scalar_of(d)),
            None => None,
        },
        Expr::If { then_branch, else_branch, .. } => {
            let t = infer(env, sd, then_branch.node);
            match else_branch {
                Some(eb) => match (t, infer(env, sd, eb.node)) {
                    (Some(a), Some(b)) => if a.dim != b.dim { None } else { t },
                    _ => t,
                },
                None => t,
            }
        },
        Expr::Block(stmts) => block_last(opened(env), sd, stmts@, 0, None),
        Expr::Loop { .. } | Expr::While { .. } | Expr::For { .. } => Some(scalar_of(spec_dimensionless())),
        Expr::Match { scrutinee, arms } => match_result(env, sd, infer(env, sd, scrutinee.node), arms@, 0, None),
        Expr::UnsafeTransmute { assume_unit, .. } => match assume_unit {
            Some(u) => match resolve_env(u.node, env.aliases) {
                Some(d) => Some(scalar_of(d)),
                None => None,
            },
            None => Some(scalar_of(spec_dimensionless())),
        },
        Expr::MacroCall { .. } | Expr::Print { .. } | Expr::Log { .. } => Some(scalar_of(spec_dimensionless())),
        Expr::StructLit { name, .. } => Some(PhysicalTypeView { dim: spec_dimensionless(), shape: None, struct_name: Some(name@) }),
        Expr::FieldAccess { expr, field } => match infer(env, sd, expr.node) {
            Some(p) => match p.struct_name {
                Some(sn) => match struct_get(sd, sn) {
                    Some(fs) => match field_get(fs, field@) {
                        Some(d) => Some(scalar_of(d)),
                        None => None,
                    },
                    None => None,
                },
                None => None,
            },
            None => None,
        },
    }
}

/// The type taken by the value of an annotated `let` or constant: an
/// unsuffixed literal takes the annotated dimension when the annotation
/// resolves; any other value has its inferred type.
pub open spec fn annotated_init(env: TypeEnvView, sd: StructsView, declared: Option<Spanned<DimExpr>>, init: Expr) -> Option<PhysicalTypeView>
    decreases init, 1int,
{
    match (init, declared) {
        (Expr::Literal { suffix: None, .. }, Some(ds)) => match resolve_env(ds.node, env.aliases) {
            Some(d) => Some(scalar_of(d)),
            None => infer(env, sd, init),
        },
        _ => infer(env, sd, init),
    }
}

/// The environment after checking statement `st`: a `let` binds its name
/// (to the annotated type when the annotation resolves and agrees with the
/// inferred dimension, else to the inferred type); other statements bind
/// nothing.
pub open spec fn stmt_env(env: TypeEnvView, sd: StructsView, st: Stmt) -> TypeEnvView
    decreases st, 0int,
{
    match st {
        Stmt::Let { name, declared_type, init, .. } => {
            let inferred = annotated_init(env, sd, declared_type, init.node);
            match declared_type {
                Some(ds) => match resolve_env(ds.node, env.aliases) {
                    Some(dd) => match inferred {
                        Some(ip) => if dd != ip.dim {
                            env
                        } else {
                            defined(env, name@, PhysicalTypeView {
                                dim: dd,
                                shape: match spec_tensor_shape(ds.node) { Some(s) => Some(s), None => ip.shape },
                                struct_name: None,
                            })
                        },
                        None => defined(env, name@, PhysicalTypeView { dim: dd, shape: spec_tensor_shape(ds.node), struct_name: None }),
                    },
                    None => env,
                },
                None => match inferred {
                    Some(p) => defined(env, name@, p),
                    None => env,
                },
            }
        },
        _ => env,
    }
}

/// The type of a block's statements from index `i` on: the type of the last
/// expression statement (`last` when there is none after `i`), each
/// statement checked in the environment left by the ones before it.
pub open spec fn block_last(env: TypeEnvView, sd: StructsView, stmts: Seq<Spanned<Stmt>>, i: int, last: Option<PhysicalTypeView>) -> Option<PhysicalTypeView>
    decreases stmts, stmts.len() - i,
{
    if i < 0 || i >= stmts.len() {
        last
    } else {
        match stmts[i].node {
            Stmt::Expr(inner) => block_last(env, sd, stmts, i + 1, infer(env, sd, inner.node)),
            _ => block_last(stmt_env(env, sd, stmts[i].node), sd, stmts, i + 1, last),
        }
    }
}

/// The environment of a match arm: a new scope in which a binding pattern
/// names the scrutinee (typed by its guard when the guard resolves).
pub open spec fn arm_env(env: TypeEnvView, scr: Option<PhysicalTypeView>, pat: Pattern) -> TypeEnvView {
    match pat {
        Pattern::Binding { name, type_guard } => {
            let bound = match type_guard {
                Some(g) => match resolve_phys_spec(g.node, env.aliases) {
                    Some(p) => Some(p),
                    None => scr,
                },
                None => scr,
            };
            match bound {
                Some(p) => defined(opened(env), name@, p),
                None => opened(env),
            }
        },
        _ => opened(env),
    }
}

/// The type of a `match`: the type of the first arm, from index `i` on, whose
/// type is known (`acc` when one before `i` was).
pub open spec fn match_result(env: TypeEnvView, sd: StructsView, scr: Option<PhysicalTypeView>, arms: Seq<MatchArm>, i: int, acc: Option<PhysicalTypeView>) -> Option<PhysicalTypeView>
    decreases arms, arms.len() - i,
{
    if i < 0 || i >= arms.len() {
        acc
    } else {
        let a = infer(arm_env(env, scr, arms[i].pattern), sd, arms[i].body.node);
        match_result(env, sd, scr, arms, i + 1, if acc is None { a } else { acc })
    }
}


// ── Reported errors ─────────────────────────────────────────────────────────

/// `new` keeps the errors of `old` and adds, after them, errors whose
/// models are `rs`, in order.
pub open spec fn grown(old: Seq<TypeError>, new: Seq<TypeError>, rs: Seq<ErrorView>) -> bool {
    extends(old, new) && reports(new) == reports(old) + rs
}

/// The environment of a loop body: a new scope in which the loop variable,
/// if any, is a dimensionless scalar.
pub open spec fn body_env(env: TypeEnvView, var: Option<Seq<char>>) -> TypeEnvView {
    match var {
        Some(v) => defined(opened(env), v, scalar_of(spec_dimensionless())),
        None => opened(env),
    }
}

/// A dimension mismatch at `span` between an expected and a found type,
/// when both are known.
pub open spec fn clash(expected: Option<PhysicalTypeView>, got: Option<PhysicalTypeView>, span: Span) -> Seq<ErrorView> {
    match (expected, got) {
        (Some(x), Some(y)) => if x.dim != y.dim { seq![dim_mismatch_at(y.dim, x.dim, span)] } else { Seq::empty() },
        _ => Seq::empty(),
    }
}

/// An annotation conflict at `span` between a declared and an inferred
/// type, when both are known.
pub open spec fn conflict(declared: Option<PhysicalTypeView>, inferred: Option<PhysicalTypeView>, span: Span) -> Seq<ErrorView> {
    match (declared, inferred) {
        (Some(x), Some(y)) => if x.dim != y.dim { seq![conflict_at(x.dim, y.dim, span)] } else { Seq::empty() },
        _ => Seq::empty(),
    }
}

/// An unknown unit at `span`, when `p` does not resolve.
pub open spec fn unresolved<T>(p: Option<T>, what: Seq<char>, span: Span) -> Seq<ErrorView> {
    if p is None { seq![unknown_at(what, span)] } else { Seq::empty() }
}

/// The errors reported while inferring the type of `e`, whose span is
/// `span`, in order.
pub open spec fn infer_reports(env: TypeEnvView, sd: StructsView, e: Expr, span: Span) -> Seq<ErrorView>
    decreases e, 0int,
{
    match e {
        Expr::Literal { suffix, .. } => match suffix {
            Some(u) => unresolved(resolve_phys_spec(u.node, env.aliases), "literal suffix"@, u.span),
            None => Seq::empty(),
        },
        Expr::Variable(_) => Seq::empty(),
        Expr::BinaryOp { op, lhs, rhs } => infer_reports(env, sd, lhs.node, lhs.span) + infer_reports(env, sd, rhs.node, rhs.span)
            + binop_reports(op, infer(env, sd, lhs.node), infer(env, sd, rhs.node), rhs.node, span),
        Expr::UnaryOp { expr, .. } => infer_reports(env, sd, expr.node, expr.span),
        Expr::Call { args, .. } => each_reports(env, sd, args@, 0),
        Expr::If { cond, then_branch, else_branch } => infer_reports(env, sd, cond.node, cond.span)
            + infer_reports(env, sd, then_branch.node, then_branch.span) + match else_branch {
                Some(eb) => infer_reports(env, sd, eb.node, eb.span)
                    + clash(infer(env, sd, then_branch.node), infer(env, sd, eb.node), eb.span),
                None => Seq::empty(),
            },
        Expr::Block(stmts) => scoped_reports(opened(env), sd, stmts@, 0),
        Expr::Loop { body } => scoped_reports(body_env(env, None), sd, body@, 0),
        Expr::While { cond, body } => infer_reports(env, sd, cond.node, cond.span) + scoped_reports(body_env(env, None), sd, body@, 0),
        Expr::For { var, start, end, body } => infer_reports(env, sd, start.node, start.span) + infer_reports(env, sd, end.node, end.span)
            + clash(infer(env, sd, start.node), infer(env, sd, end.node), end.span)
            + scoped_reports(body_env(env, Some(var@)), sd, body@, 0),
        Expr::Match { scrutinee, arms } => infer_reports(env, sd, scrutinee.node, scrutinee.span)
            + arms_reports(env, sd, infer(env, sd, scrutinee.node), arms@, 0, None),
        Expr::UnsafeTransmute { expr, .. } => infer_reports(env, sd, expr.node, expr.span),
        Expr::MacroCall { .. } | Expr::Log { .. } => Seq::empty(),
        Expr::Print { expr } => infer_reports(env, sd, expr.node, expr.span),
        Expr::StructLit { name, fields } => fields_reports(env, sd, name@, struct_get(sd, name@), fields@, 0),
        Expr::FieldAccess { expr, field } => infer_reports(env, sd, expr.node, expr.span) + match infer(env, sd, expr.node) {
            Some(p) => match p.struct_name {
                Some(sn) => match struct_get(sd, sn) {
                    Some(fs) => if field_get(fs, field@) is None {
                        seq![error_at(TypeErrorCode::UnknownUnit, no_field_text(sn, field@), span)]
                    } else {
                        Seq::empty()
                    },
                    None => seq![error_at(TypeErrorCode::UnknownUnit, no_field_text(sn, field@), span)],
                },
                None => seq![error_at(TypeErrorCode::DimensionMismatch, "field access requires a struct type"@, span)],
            },
            None => Seq::empty(),
        },
    }
}

/// The errors reported while inferring each of `args` from index `i` on.
pub open spec fn each_reports(env: TypeEnvView, sd: StructsView, args: Seq<Spanned<Expr>>, i: int) -> Seq<ErrorView>
    decreases args, args.len() - i,
{
    if i < 0 || i >= args.len() {
        Seq::empty()
    } else {
        infer_reports(env, sd, args[i].node, args[i].span) + each_reports(env, sd, args, i + 1)
    }
}

/// The errors reported while checking statement `st`.
pub open spec fn stmt_reports(env: TypeEnvView, sd: StructsView, st: Stmt) -> Seq<ErrorView>
    decreases st, 0int,
{
    match st {
        Stmt::Let { name, declared_type, init, .. } => infer_reports(env, sd, init.node, init.span) + match declared_type {
            Some(ds) => match resolve_env(ds.node, env.aliases) {
                Some(dd) => conflict(Some(scalar_of(dd)), annotated_init(env, sd, declared_type, init.node), init.span),
                None => seq![unknown_at(name@, ds.span)],
            },
            None => Seq::empty(),
        },
        Stmt::Assign { target, value } => infer_reports(env, sd, value.node, value.span) + match (env_lookup(env, target@), infer(env, sd, value.node)) {
            (Some(x), Some(g)) => if x.dim != g.dim {
                seq![dim_mismatch_at(g.dim, x.dim, value.span)]
            } else if x.shape is Some && x.shape != g.shape {
                seq![shape_mismatch_at(g.shape, x.shape, value.span)]
            } else {
                Seq::empty()
            },
            _ => Seq::empty(),
        },
        Stmt::Expr(e) => infer_reports(env, sd, e.node, e.span),
        Stmt::Break | Stmt::Continue => Seq::empty(),
    }
}

/// The errors reported while checking `stmts` from index `i` on, each in
/// the environment left by the ones before it.
pub open spec fn scoped_reports(env: TypeEnvView, sd: StructsView, stmts: Seq<Spanned<Stmt>>, i: int) -> Seq<ErrorView>
    decreases stmts, stmts.len() - i,
{
    if i < 0 || i >= stmts.len() {
        Seq::empty()
    } else {
        stmt_reports(env, sd, stmts[i].node) + scoped_reports(stmt_env(env, sd, stmts[i].node), sd, stmts, i + 1)
    }
}

/// The error reported for a type guard that disagrees with the
/// scrutinee's dimension.
pub open spec fn guard_reports(env: TypeEnvView, scr: Option<PhysicalTypeView>, pat: Pattern) -> Seq<ErrorView> {
    match pat {
        Pattern::Binding { type_guard: Some(g), .. } =>
            conflict(resolve_phys_spec(g.node, env.aliases), scr, g.span),
        _ => Seq::empty(),
    }
}

/// The errors reported while checking match arms from index `i` on; `acc`
/// is the type of the match so far.
pub open spec fn arms_reports(env: TypeEnvView, sd: StructsView, scr: Option<PhysicalTypeView>, arms: Seq<MatchArm>, i: int, acc: Option<PhysicalTypeView>) -> Seq<ErrorView>
    decreases arms, arms.len() - i,
{
    if i < 0 || i >= arms.len() {
        Seq::empty()
    } else {
        let aenv = arm_env(env, scr, arms[i].pattern);
        let a = infer(aenv, sd, arms[i].body.node);
        guard_reports(env, scr, arms[i].pattern) + infer_reports(aenv, sd, arms[i].body.node, arms[i].body.span)
            + (if acc is None { Seq::empty() } else { clash(acc, a, arms[i].body.span) })
            + arms_reports(env, sd, scr, arms, i + 1, if acc is None { a } else { acc })
    }
}

/// The errors reported for the fields of a literal of struct `name` from
/// index `i` on, against the struct's declared fields `found`.
pub open spec fn fields_reports(env: TypeEnvView, sd: StructsView, name: Seq<char>, found: Option<Seq<(Seq<char>, DimVector)>>, fields: Seq<(String, Spanned<Expr>)>, i: int) -> Seq<ErrorView>
    decreases fields, fields.len() - i,
{
    if i < 0 || i >= fields.len() {
        Seq::empty()
    } else {
        infer_reports(env, sd, fields[i].1.node, fields[i].1.span) + match found {
            Some(fs) => match field_get(fs, fields[i].0@) {
                Some(d) => clash(Some(scalar_of(d)), infer(env, sd, fields[i].1.node), fields[i].1.span),
                None => seq![error_at(TypeErrorCode::UnknownUnit, no_field_text(name, fields[i].0@), fields[i].1.span)],
            },
            None => Seq::empty(),
        } + fields_reports(env, sd, name, found, fields, i + 1)
    }
}

// ── Registration and items ──────────────────────────────────────────────────

/// The fields of a struct whose dimensions resolve, with those dimensions.
pub open spec fn resolved_fields(fields: Seq<crate::ast::Field>, aliases: Seq<(Seq<char>, DimVector)>) -> Seq<(Seq<char>, DimVector)>
    decreases fields.len(),
{
    if fields.len() == 0 {
        Seq::empty()
    } else {
        let rest = resolved_fields(fields.drop_last(), aliases);
        match resolve_env(fields.last().dim.node, aliases) {
            Some(d) => rest.push((fields.last().name@, d)),
            None => rest,
        }
    }
}

/// The environment after recording that function `name` returns `d`.
pub open spec fn fn_registered(env: TypeEnvView, name: Seq<char>, d: DimVector) -> TypeEnvView {
    TypeEnvView {
        scopes: env.scopes.update(0, env.scopes[0].push((crate::types::env::fn_key(name), scalar_of(d)))),
        aliases: env.aliases,
    }
}

/// The environment after registering an item: an alias whose unit resolves
/// is recorded; a function's return dimension is recorded (dimensionless
/// when none is declared, nothing when the declared one does not resolve);
/// a constant is bound to its annotated type when the annotation resolves
/// and agrees with its value, else to its value's type.
pub open spec fn reg_env(env: TypeEnvView, sd: StructsView, item: Item) -> TypeEnvView {
    match item {
        Item::TypeAlias { name, dimension_expr, .. } => match resolve_env(dimension_expr.node, env.aliases) {
            Some(d) => TypeEnvView { scopes: env.scopes, aliases: env.aliases.push((name@, d)) },
            None => env,
        },
        Item::Function { name, return_type, .. } => match return_type {
            Some(rt) => match resolve_env(rt.node, env.aliases) {
                Some(d) => fn_registered(env, name@, d),
                None => env,
            },
            None => fn_registered(env, name@, spec_dimensionless()),
        },
        Item::Const { name, dim, value, .. } => {
            let declared = match dim {
                Some(ds) => resolve_env(ds.node, env.aliases),
                None => None,
            };
            match (declared, annotated_init(env, sd, dim, value.node)) {
                (Some(dd), Some(ip)) => if dd != ip.dim {
                    env
                } else {
                    defined(env, name@, PhysicalTypeView { dim: dd, shape: ip.shape, struct_name: None })
                },
                (Some(dd), None) => defined(env, name@, scalar_of(dd)),
                (None, Some(p)) => defined(env, name@, p),
                (None, None) => env,
            }
        },
        _ => env,
    }
}

/// The struct table after registering an item: a struct is recorded with
/// the fields whose dimensions resolve.
pub open spec fn reg_sd(env: TypeEnvView, sd: StructsView, item: Item) -> StructsView {
    match item {
        Item::Struct { name, fields, .. } => sd.push((name@, resolved_fields(fields@, env.aliases))),
        _ => sd,
    }
}

/// Environment and struct table after registering `items` in order.
pub open spec fn register_all(env: TypeEnvView, sd: StructsView, items: Seq<Spanned<Item>>) -> (TypeEnvView, StructsView)
    decreases items.len(),
{
    if items.len() == 0 {
        (env, sd)
    } else {
        let (e1, s1) = register_all(env, sd, items.drop_last());
        (reg_env(e1, s1, items.last().node), reg_sd(e1, s1, items.last().node))
    }
}

/// The environment of a function body: a new scope binding each parameter
/// whose annotation resolves.
pub open spec fn params_env(env: TypeEnvView, params: Seq<crate::ast::Param>) -> TypeEnvView
    decreases params.len(),
{
    if params.len() == 0 {
        env
    } else {
        let e1 = params_env(env, params.drop_last());
        match resolve_phys_spec(params.last().dim.node, e1.aliases) {
            Some(p) => defined(e1, params.last().name@, p),
            None => e1,
        }
    }
}

/// Whether `item` is a function with an expression body whose inferred
/// dimension differs from its declared, resolvable return dimension.
pub open spec fn fn_return_mismatch(env: TypeEnvView, sd: StructsView, item: Item) -> bool {
    match item {
        Item::Function { params, return_type, body: FunctionBody::Expression(e), .. } => {
            let fenv = params_env(opened(env), params@);
            match (return_type, infer(fenv, sd, e.node)) {
                (Some(rt), Some(inf)) => match resolve_env(rt.node, env.aliases) {
                    Some(d) => d != inf.dim,
                    None => false,
                },
                _ => false,
            }
        },
        _ => false,
    }
}

/// Unknown units among function parameters' annotations, in order.
pub open spec fn params_unresolved(params: Seq<crate::ast::Param>, aliases: Seq<(Seq<char>, DimVector)>) -> Seq<ErrorView>
    decreases params.len(),
{
    if params.len() == 0 {
        Seq::empty()
    } else {
        params_unresolved(params.drop_last(), aliases)
            + unresolved(resolve_env(params.last().dim.node, aliases), params.last().name@, params.last().dim.span)
    }
}

/// Unknown units among struct fields' annotations, in order.
pub open spec fn fields_unresolved(fields: Seq<crate::ast::Field>, aliases: Seq<(Seq<char>, DimVector)>) -> Seq<ErrorView>
    decreases fields.len(),
{
    if fields.len() == 0 {
        Seq::empty()
    } else {
        fields_unresolved(fields.drop_last(), aliases)
            + unresolved(resolve_env(fields.last().dim.node, aliases), fields.last().name@, fields.last().dim.span)
    }
}

/// The dimension an optional annotation resolves to.
pub open spec fn declared_dim(declared: Option<Spanned<DimExpr>>, aliases: Seq<(Seq<char>, DimVector)>) -> Option<DimVector> {
    match declared {
        Some(ds) => resolve_env(ds.node, aliases),
        None => None,
    }
}

/// A return-type mismatch at `span`: the declared return dimension against
/// the type inferred for the body, when both are known.
pub open spec fn return_clash(declared: Option<DimVector>, inferred: Option<PhysicalTypeView>, span: Span) -> Seq<ErrorView> {
    match (declared, inferred) {
        (Some(d), Some(p)) => if d != p.dim {
            seq![error_at(TypeErrorCode::ReturnTypeMismatch, return_text(dim_text(d), phys_text(p)), span)]
        } else {
            Seq::empty()
        },
        _ => Seq::empty(),
    }
}

/// The errors reported while registering `item`: unknown units in an
/// alias, a parameter list or a struct's fields, and the errors of a
/// constant's value and annotation.
pub open spec fn reg_reports(env: TypeEnvView, sd: StructsView, item: Item) -> Seq<ErrorView> {
    match item {
        Item::TypeAlias { name, dimension_expr, .. } =>
            unresolved(resolve_env(dimension_expr.node, env.aliases), name@ + " alias RHS"@, dimension_expr.span),
        Item::Function { params, .. } => params_unresolved(params@, env.aliases),
        Item::Struct { fields, .. } => fields_unresolved(fields@, env.aliases),
        Item::Const { dim, value, .. } => infer_reports(env, sd, value.node, value.span) + match declared_dim(dim, env.aliases) {
            Some(d) => conflict(Some(scalar_of(d)), annotated_init(env, sd, dim, value.node), value.span),
            None => Seq::empty(),
        },
        _ => Seq::empty(),
    }
}

/// The errors reported while checking `item`: a function's body in the
/// scope of its parameters, against its declared return dimension; a
/// custom op's units.
pub open spec fn item_reports(env: TypeEnvView, sd: StructsView, item: Item) -> Seq<ErrorView> {
    match item {
        Item::Function { params, return_type, body, .. } => {
            let fenv = params_env(opened(env), params@);
            match body {
                FunctionBody::Expression(e) => infer_reports(fenv, sd, e.node, e.span)
                    + return_clash(declared_dim(return_type, env.aliases), infer(fenv, sd, e.node), e.span),
                FunctionBody::Block(stmts) => scoped_reports(fenv, sd, stmts@, 0),
            }
        },
        Item::CustomOp { input_dim, output_dim, .. } => unresolved(resolve_env(input_dim.node, env.aliases), "op input"@, input_dim.span)
            + unresolved(resolve_env(output_dim.node, env.aliases), "op output"@, output_dim.span),
        _ => Seq::empty(),
    }
}

/// The errors reported while registering `items` in order.
pub open spec fn reg_all_reports(env: TypeEnvView, sd: StructsView, items: Seq<Spanned<Item>>) -> Seq<ErrorView>
    decreases items.len(),
{
    if items.len() == 0 {
        Seq::empty()
    } else {
        let (e1, s1) = register_all(env, sd, items.drop_last());
        reg_all_reports(env, sd, items.drop_last()) + reg_reports(e1, s1, items.last().node)
    }
}

/// The errors reported while checking `items` in order, all in environment
/// `env` with struct table `sd`.
pub open spec fn items_reports(env: TypeEnvView, sd: StructsView, items: Seq<Spanned<Item>>) -> Seq<ErrorView>
    decreases items.len(),
{
    if items.len() == 0 {
        Seq::empty()
    } else {
        items_reports(env, sd, items.drop_last()) + item_reports(env, sd, items.last().node)
    }
}

/// The errors reported for a file's items in environment `env`: those of
/// registering every item, then those of checking every item against
/// everything registered.
pub open spec fn file_reports(env: TypeEnvView, items: Seq<Spanned<Item>>) -> Seq<ErrorView> {
    let (e, s) = register_all(env, Seq::empty(), items);
    reg_all_reports(env, Seq::empty(), items) + items_reports(e, s, items)
}

/// The environment in which a file is checked: the built-in aliases and
/// the imported ones, and the imported functions in the global scope.
pub open spec fn import_env(imports: ImportBindings) -> TypeEnvView {
    TypeEnvView {
        scopes: seq![crate::modules::table_view(imports.functions@).map_values(
            |p: (Seq<char>, DimVector)| (crate::types::env::fn_key(p.0), scalar_of(p.1)),
        )],
        aliases: crate::types::env::builtin_aliases() + crate::modules::table_view(imports.aliases@),
    }
}

// ── Checker context ─────────────────────────────────────────────────────────

/// Result of checking a full source file.
pub struct CheckResult {
    pub errors: Vec<TypeError>,
}

impl CheckResult {
    /// Whether the file checked without errors.
    pub fn ok(&self) -> (r: bool)
        ensures
            r == (self.errors@.len() == 0),
    {
        self.errors.len() == 0
    }
}

struct Ctx {
    env: TypeEnv,
    errors: Vec<TypeError>,
    /// Struct definitions: struct name and its fields' dimensions.
    struct_defs: Vec<(String, Vec<(String, DimVector)>)>,
}

/// Nothing reported.
proof fn lemma_grown_none(a: Seq<TypeError>)
    ensures
        grown(a, a, Seq::empty()),
{
    assert(a.subrange(0, a.len() as int) =~= a);
    assert(reports(a) + Seq::<ErrorView>::empty() =~= reports(a));
}

/// One error reported.
proof fn lemma_grown_push(a: Seq<TypeError>, e: TypeError)
    ensures
        grown(a, a.push(e), seq![error_view(e)]),
{
    assert(a.push(e).subrange(0, a.len() as int) =~= a);
    assert(reports(a.push(e)) =~= reports(a) + seq![error_view(e)]);
}

/// Errors reported in two steps.
proof fn lemma_grown_trans(a: Seq<TypeError>, b: Seq<TypeError>, c: Seq<TypeError>, c1: Seq<ErrorView>, c2: Seq<ErrorView>)
    requires
        grown(a, b, c1),
        grown(b, c, c2),
    ensures
        grown(a, c, c1 + c2),
{
    assert(c.subrange(0, a.len() as int) =~= b.subrange(0, a.len() as int));
    assert(reports(a) + c1 + c2 =~= reports(a) + (c1 + c2));
}

impl Ctx {
    /// The model of the struct table.
    spec fn sd(&self) -> StructsView {
        structs_view(self.struct_defs@)
    }
}

/// The display of a shape: `scalar` or `[n1, n2, ...]`.
fn shape_display(shape: &Option<Vec<usize>>) -> (s: String)
    ensures
        s@ == shape_display_text(shape_view(*shape)),
{
    match shape {
        None => {
            let mut s = String::new();
            push_str(&mut s, "scalar");
            proof {
                assert(s@ =~= "scalar"@);
            }
            s
        },
        Some(v) => {
            let mut s = String::new();
            push_char(&mut s, '[');
            push_shape_list(&mut s, v);
            push_char(&mut s, ']');
            proof {
                assert(s@ =~= seq!['['] + shape_list(v@) + seq![']']);
            }
            s
        },
    }
}

/// Index of the latest registration of struct `name`.
fn find_struct(sd: &Vec<(String, Vec<(String, DimVector)>)>, name: &str) -> (r: Option<usize>)
    ensures
        match r {
            Some(i) => i < sd@.len() && struct_get(structs_view(sd@), name@) == Some(fields_view(sd@[i as int].1@)),
            None => struct_get(structs_view(sd@), name@) is None,
        },
{
    let k = chars_of(name);
    let mut j = sd.len();
    proof {
        assert(sd@.subrange(0, sd@.len() as int) =~= sd@);
    }
    while j > 0
        invariant
            j <= sd@.len(),
            k@ == name@,
            struct_get(structs_view(sd@), name@) == struct_get(structs_view(sd@.subrange(0, j as int)), name@),
        decreases j,
    {
        let ghost sub = structs_view(sd@.subrange(0, j as int));
        proof {
            assert(sub.last() == (sd@[j - 1].0@, fields_view(sd@[j - 1].1@)));
            assert(sub.drop_last() =~= structs_view(sd@.subrange(0, j - 1)));
        }
        let nm = chars_of(sd[j - 1].0.as_str());
        if chars_eq(nm.as_slice(), k.as_slice()) {
            return Some(j - 1);
        }
        j = j - 1;
    }
    proof {
        assert(structs_view(sd@.subrange(0, 0)) =~= Seq::empty());
    }
    None
}

/// The dimension of field `name`: its first declaration.
fn find_field(fs: &Vec<(String, DimVector)>, name: &str) -> (r: Option<DimVector>)
    ensures
        r == field_get(fields_view(fs@), name@),
{
    let k = chars_of(name);
    let mut i: usize = 0;
    proof {
        assert(fields_view(fs@).subrange(0, fs@.len() as int) =~= fields_view(fs@));
    }
    while i < fs.len()
        invariant
            i <= fs@.len(),
            k@ == name@,
            field_get(fields_view(fs@), name@) == field_get(fields_view(fs@).subrange(i as int, fs@.len() as int), name@),
        decreases fs@.len() - i,
    {
        let ghost rest = fields_view(fs@).subrange(i as int, fs@.len() as int);
        proof {
            assert(rest[0] == (fs@[i as int].0@, fs@[i as int].1));
            assert(rest.drop_first() =~= fields_view(fs@).subrange(i + 1, fs@.len() as int));
        }
        let nm = chars_of(fs[i].0.as_str());
        if chars_eq(nm.as_slice(), k.as_slice()) {
            return Some(fs[i].1);
        }
        i = i + 1;
    }
    None
}

/// Whether `n` is a decimal that `rust_decimal` can represent.
fn is_valid_number(n: Number) -> (r: bool)
    ensures
        r == valid_number(n),
{
    n.scale <= 28 && -79228162514264337593543950335i128 <= n.mantissa && n.mantissa <= 79228162514264337593543950335i128
}

/// The integer value of an exponent literal, when it has one.
fn exponent_of(n: Number) -> (r: Option<i64>)
    ensures
        match r {
            Some(x) => int_exponent(n) == Some(x as int),
            None => int_exponent(n) is None,
        },
{
    if is_valid_number(n) {
        decimal_to_i64(n)
    } else {
        None
    }
}

impl Ctx {
    fn report(&mut self, e: TypeError)
        ensures
            final(self).errors@ == old(self).errors@.push(e),
            final(self).env == old(self).env,
            final(self).struct_defs == old(self).struct_defs,
    {
        self.errors.push(e);
    }

    /// Shape rules for multiplication, reporting a shape mismatch when the
    /// shapes cannot be multiplied.
    fn mul_shapes(&mut self, lhs: &Option<Vec<usize>>, rhs: &Option<Vec<usize>>, span: Span) -> (r: Option<Vec<usize>>)
        ensures
            shape_view(r) == mul_shape(shape_view(*lhs), shape_view(*rhs)),
            grown(old(self).errors@, final(self).errors@,
                if mul_shape_ok(shape_view(*lhs), shape_view(*rhs)) { Seq::empty() } else { seq![shape_mismatch_at(shape_view(*rhs), shape_view(*lhs), span)] }),
            final(self).env == old(self).env,
            final(self).struct_defs == old(self).struct_defs,
    {
        proof { lemma_grown_none(self.errors@); }
        match (lhs, rhs) {
            (None, None) => None,
            (Some(s), None) => Some(crate::types::dim::copy_shape(s)),
            (None, Some(s)) => Some(crate::types::dim::copy_shape(s)),
            (Some(ls), Some(rs)) => {
                if ls.len() == 2 && rs.len() == 2 {
                    if ls[1] != rs[0] {
                        let got = shape_display(rhs);
                        let expected = shape_display(lhs);
                        let e = TypeError::shape_mismatch(span, got.as_str(), expected.as_str());
                        proof { lemma_grown_push(self.errors@, e); }
                        self.report(e);
                        return None;
                    }
                    let mut out: Vec<usize> = Vec::new();
                    out.push(ls[0]);
                    out.push(rs[1]);
                    proof {
                        assert(out@ =~= seq![ls@[0], rs@[1]]);
                    }
                    Some(out)
                } else if ls.len() == 1 && rs.len() == 1 && ls[0] == rs[0] {
                    None
                } else if crate::text::usize_seq_eq(ls.as_slice(), rs.as_slice()) {
                    Some(crate::types::dim::copy_shape(ls))
                } else {
                    let got = shape_display(rhs);
                    let expected = shape_display(lhs);
                    let e = TypeError::shape_mismatch(span, got.as_str(), expected.as_str());
                    proof { lemma_grown_push(self.errors@, e); }
                    self.report(e);
                    None
                }
            },
        }
    }

    /// The type of `lhs op rhs` from the operands' types, reporting the
    /// dimension and shape errors of the operation.
    fn check_binop(
        &mut self,
        op: BinOp,
        lhs: Option<PhysicalType>,
        rhs: Option<PhysicalType>,
        rhs_expr: &Expr,
        span: Span,
    ) -> (r: Option<PhysicalType>)
        ensures
            opt_view(r) == binop_type(op, opt_view(lhs), opt_view(rhs), *rhs_expr),
            grown(old(self).errors@, final(self).errors@, binop_reports(op, opt_view(lhs), opt_view(rhs), *rhs_expr, span)),
            final(self).env == old(self).env,
            final(self).struct_defs == old(self).struct_defs,
    {
        proof { lemma_grown_none(self.errors@); }
        match op {
            BinOp::Add | BinOp::Sub => match (lhs, rhs) {
                (Some(l), Some(r)) => {
                    if !l.dim.addable_with(r.dim) {
                        let got = r.dim.display_string();
                        let expected = l.dim.display_string();
                        let e = TypeError::dimension_mismatch(span, got.as_str(), expected.as_str());
                        proof { lemma_grown_push(self.errors@, e); }
                        self.report(e);
                        None
                    } else if !shape_eq(&l.shape, &r.shape) {
                        let got = shape_display(&r.shape);
                        let expected = shape_display(&l.shape);
                        let e = TypeError::shape_mismatch(span, got.as_str(), expected.as_str());
                        proof { lemma_grown_push(self.errors@, e); }
                        self.report(e);
                        None
                    } else {
                        Some(l)
                    }
                },
                (Some(l), None) => Some(l),
                (None, Some(r)) => Some(r),
                (None, None) => None,
            },
            BinOp::Mul => match (lhs, rhs) {
                (Some(l), Some(r)) => {
                    let result_dim = l.dim.mul(r.dim);
                    let result_shape = self.mul_shapes(&l.shape, &r.shape, span);
                    Some(PhysicalType { dim: result_dim, shape: result_shape, struct_name: None })
                },
                (Some(l), None) => Some(l),
                (None, Some(r)) => Some(r),
                (None, None) => None,
            },
            BinOp::Div => match (lhs, rhs) {
                (Some(l), Some(r)) => {
                    let result_dim = l.dim.div(r.dim);
                    let result_shape = match (&l.shape, &r.shape) {
                        (Some(s), None) => Some(crate::types::dim::copy_shape(s)),
                        _ => None,
                    };
                    Some(PhysicalType { dim: result_dim, shape: result_shape, struct_name: None })
                },
                (Some(l), None) => Some(l),
                (None, _) => None,
            },
            BinOp::Mod => lhs,
            BinOp::Pow => match lhs {
                None => None,
                Some(base) => match rhs_expr {
                    Expr::Literal { value, suffix: None } => match exponent_of(*value) {
                        Some(x) => {
                            if x >= 0 {
                                let n: i32 = x as i32;
                                Some(PhysicalType { dim: base.dim.pow(n), shape: base.shape, struct_name: None })
                            } else {
                                let mut m = String::new();
                                push_str(&mut m, "negative exponent is not supported in dimensional analysis");
                                proof {
                                    assert(m@ =~= "negative exponent is not supported in dimensional analysis"@);
                                }
                                let e = TypeError::new(TypeErrorCode::DimensionMismatch, m, span);
                                proof { lemma_grown_push(self.errors@, e); }
                                self.report(e);
                                None
                            }
                        },
                        None => {
                            let mut m = String::new();
                            push_str(&mut m, "exponent must be an integer literal");
                            proof {
                                assert(m@ =~= "exponent must be an integer literal"@);
                            }
                            let e = TypeError::new(TypeErrorCode::DimensionMismatch, m, span);
                            proof { lemma_grown_push(self.errors@, e); }
                            self.report(e);
                            Some(base)
                        },
                    },
                    Expr::Literal { suffix: Some(_), .. } => {
                        let mut m = String::new();
                        push_str(&mut m, "exponent must be dimensionless");
                        proof {
                            assert(m@ =~= "exponent must be dimensionless"@);
                        }
                        let e = TypeError::new(TypeErrorCode::UnexpectedDimensionless, m, span);
                        proof { lemma_grown_push(self.errors@, e); }
                        self.report(e);
                        None
                    },
                    _ => {
                        let mut m = String::new();
                        push_str(&mut m, "exponent must be a dimensionless integer literal");
                        proof {
                            assert(m@ =~= "exponent must be a dimensionless integer literal"@);
                        }
                        let e = TypeError::new(TypeErrorCode::DimensionMismatch, m, span);
                        proof { lemma_grown_push(self.errors@, e); }
                        self.report(e);
                        Some(base)
                    },
                },
            },
            BinOp::Lt | BinOp::Gt | BinOp::Eq => {
                match (&lhs, &rhs) {
                    (Some(l), Some(r)) => {
                        let ghost e0 = self.errors@;
                        let dim_bad = !l.dim.addable_with(r.dim);
                        if dim_bad {
                            let got = r.dim.display_string();
                            let expected = l.dim.display_string();
                            let e = TypeError::dimension_mismatch(span, got.as_str(), expected.as_str());
                            self.report(e);
                        }
                        let ghost e1 = self.errors@;
                        let shape_bad = !shape_eq(&l.shape, &r.shape);
                        if shape_bad {
                            let got = shape_display(&r.shape);
                            let expected = shape_display(&l.shape);
                            let e = TypeError::shape_mismatch(span, got.as_str(), expected.as_str());
                            self.report(e);
                        }
                        proof {
                            let cs = binop_reports(op, opt_view(lhs), opt_view(rhs), *rhs_expr, span);
                            let new = self.errors@;
                            assert(new.subrange(0, e0.len() as int) =~= e0);
                            assert(reports(new) =~= reports(e0) + cs);
                        }
                    },
                    _ => {},
                }
                Some(PhysicalType::scalar(DimVector::DIMENSIONLESS()))
            },
        }
    }
}


/// Checking a statement changes only the innermost scope.
pub proof fn lemma_stmt_env_frame(env: TypeEnvView, sd: StructsView, st: Stmt)
    requires
        env.scopes.len() > 0,
    ensures
        stmt_env(env, sd, st).scopes.len() == env.scopes.len(),
        stmt_env(env, sd, st).scopes.drop_last() == env.scopes.drop_last(),
        stmt_env(env, sd, st).aliases == env.aliases,
{
    let r = stmt_env(env, sd, st);
    assert(r.scopes.drop_last() =~= env.scopes.drop_last());
}

/// Opening a scope, binding in it and closing it restores the environment.
pub proof fn lemma_arm_env_closes(env: TypeEnvView, scr: Option<PhysicalTypeView>, pat: Pattern)
    ensures
        arm_env(env, scr, pat).scopes.len() == env.scopes.len() + 1,
        arm_env(env, scr, pat).scopes.drop_last() == env.scopes,
        arm_env(env, scr, pat).aliases == env.aliases,
{
    let r = arm_env(env, scr, pat);
    assert(r.scopes.drop_last() =~= env.scopes);
}

/// A copy of an optional physical type.
fn copy_opt_phys(p: &Option<PhysicalType>) -> (r: Option<PhysicalType>)
    ensures
        opt_view(r) == opt_view(*p),
{
    match p {
        Some(x) => Some(x.copy()),
        None => None,
    }
}

/// A copy of a field list.
fn copy_fields(fs: &Vec<(String, DimVector)>) -> (r: Vec<(String, DimVector)>)
    ensures
        fields_view(r@) == fields_view(fs@),
{
    let mut out: Vec<(String, DimVector)> = Vec::new();
    let mut i: usize = 0;
    while i < fs.len()
        invariant
            i <= fs@.len(),
            fields_view(out@) == fields_view(fs@.subrange(0, i as int)),
        decreases fs@.len() - i,
    {
        let ghost before = out@;
        out.push((copy_string(&fs[i].0), fs[i].1));
        proof {
            assert(fields_view(out@) =~= fields_view(before).push((fs@[i as int].0@, fs@[i as int].1)));
            assert(fields_view(fs@.subrange(0, i + 1)) =~= fields_view(fs@.subrange(0, i as int)).push((fs@[i as int].0@, fs@[i as int].1)));
        }
        i = i + 1;
    }
    proof {
        assert(fs@.subrange(0, fs@.len() as int) =~= fs@);
    }
    out
}

/// `struct `S` has no field `f``
fn no_field_message(sname: &str, field: &str) -> (m: String)
    ensures
        m@ == no_field_text(sname@, field@),
{
    let mut m = String::new();
    push_str(&mut m, "struct `");
    push_str(&mut m, sname);
    push_str(&mut m, "` has no field `");
    push_str(&mut m, field);
    push_str(&mut m, "`");
    proof {
        assert(m@ =~= no_field_text(sname@, field@));
    }
    m
}

/// The optional name of a loop variable.
pub open spec fn var_view(var: Option<&str>) -> Option<Seq<char>> {
    match var {
        Some(v) => Some(v@),
        None => None,
    }
}

/// Concatenation of error lists is associative.
proof fn lemma_reports_assoc(a: Seq<ErrorView>, b: Seq<ErrorView>, c: Seq<ErrorView>)
    ensures
        (a + b) + c == a + (b + c),
{
    assert((a + b) + c =~= a + (b + c));
}

impl Ctx {
    /// Infer the physical type of an expression, reporting the errors found
    /// in it.  The environment is left as it was.
    fn infer_expr(&mut self, expr: &Spanned<Expr>) -> (r: Option<PhysicalType>)
        requires
            old(self).env@.scopes.len() > 0,
        ensures
            opt_view(r) == infer(old(self).env@, old(self).sd(), expr.node),
            final(self).env@ == old(self).env@,
            final(self).struct_defs@ == old(self).struct_defs@,
            grown(old(self).errors@, final(self).errors@, infer_reports(old(self).env@, old(self).sd(), expr.node, expr.span)),
        decreases expr, 1int,
    {
        let ghost env0 = self.env@;
        let ghost e0 = self.errors@;
        let ghost sd = self.sd();
        proof {
            lemma_grown_none(e0);
        }
        match &expr.node {
            Expr::Literal { suffix, .. } => match suffix {
                Some(unit_span) => match resolve_phys(unit_span, &self.env) {
                    Some(p) => Some(p),
                    None => {
                        let e = TypeError::unknown_unit(unit_span.span, "literal suffix");
                        self.report(e);
                        proof {
                            lemma_grown_push(e0, e);
                        }
                        None
                    },
                },
                None => Some(PhysicalType::scalar(DimVector::DIMENSIONLESS())),
            },
            Expr::Variable(name) => self.env.lookup(name.as_str()),
            Expr::BinaryOp { op, lhs, rhs } => {
                let l = self.infer_expr(lhs);
                let ghost ea = self.errors@;
                let r = self.infer_expr(rhs);
                let ghost e1 = self.errors@;
                let ghost bc = binop_reports(*op, opt_view(l), opt_view(r), rhs.node, expr.span);
                let res = self.check_binop(*op, l, r, &rhs.node, expr.span);
                proof {
                    lemma_grown_trans(e0, ea, e1, infer_reports(env0, sd, lhs.node, lhs.span), infer_reports(env0, sd, rhs.node, rhs.span));
                    lemma_grown_trans(e0, e1, self.errors@,
                        infer_reports(env0, sd, lhs.node, lhs.span) + infer_reports(env0, sd, rhs.node, rhs.span), bc);
                }
                res
            },
            Expr::UnaryOp { expr: inner, .. } => self.infer_expr(inner),
            Expr::Call { func, args } => {
                self.infer_each(args);
                match self.env.lookup_fn(func.as_str()) {
                    Some(d) => Some(PhysicalType::scalar(d)),
                    None => None,
                }
            },
            Expr::If { .. } => self.infer_if(expr),
            Expr::Block(_) => self.infer_block(expr),
            Expr::Loop { body } => {
                self.check_scoped_body(body, None);
                Some(PhysicalType::scalar(DimVector::DIMENSIONLESS()))
            },
            Expr::While { cond, body } => {
                self.infer_expr(cond);
                let ghost e1 = self.errors@;
                self.check_scoped_body(body, None);
                proof {
                    lemma_grown_trans(e0, e1, self.errors@, infer_reports(env0, sd, cond.node, cond.span),
                        scoped_reports(body_env(env0, None), sd, body@, 0));
                }
                Some(PhysicalType::scalar(DimVector::DIMENSIONLESS()))
            },
            Expr::For { .. } => self.infer_for(expr),
            Expr::Match { .. } => self.infer_match(expr),
            Expr::UnsafeTransmute { expr: inner, assume_unit, .. } => {
                self.infer_expr(inner);
                match assume_unit {
                    Some(unit_span) => match resolve_with_env(unit_span, &self.env) {
                        Some(d) => Some(PhysicalType::scalar(d)),
                        None => None,
                    },
                    None => Some(PhysicalType::scalar(DimVector::DIMENSIONLESS())),
                }
            },
            Expr::MacroCall { .. } | Expr::Log { .. } => Some(PhysicalType::scalar(DimVector::DIMENSIONLESS())),
            Expr::Print { expr: inner } => {
                self.infer_expr(inner);
                Some(PhysicalType::scalar(DimVector::DIMENSIONLESS()))
            },
            Expr::StructLit { .. } => self.infer_struct_lit(expr),
            Expr::FieldAccess { .. } => self.infer_field_access(expr),
        }
    }

    fn infer_if(&mut self, expr: &Spanned<Expr>) -> (r: Option<PhysicalType>)
        requires
            old(self).env@.scopes.len() > 0,
            expr.node is If,
        ensures
            opt_view(r) == infer(old(self).env@, old(self).sd(), expr.node),
            final(self).env@ == old(self).env@,
            final(self).struct_defs@ == old(self).struct_defs@,
            grown(old(self).errors@, final(self).errors@, infer_reports(old(self).env@, old(self).sd(), expr.node, expr.span)),
        decreases expr, 0int,
    {
        let ghost env0 = self.env@;
        let ghost e0 = self.errors@;
        let ghost sd = self.sd();
        match &expr.node {
            Expr::If { cond, then_branch, else_branch } => {
                self.infer_expr(cond);
                let ghost e1 = self.errors@;
                let then_pt = self.infer_expr(then_branch);
                let ghost e2 = self.errors@;
                let ghost c1 = infer_reports(env0, sd, cond.node, cond.span);
                let ghost c2 = infer_reports(env0, sd, then_branch.node, then_branch.span);
                proof {
                    lemma_grown_trans(e0, e1, e2, c1, c2);
                }
                match else_branch {
                    Some(else_expr) => {
                        let ghost tv = opt_view(then_pt);
                        let else_pt = self.infer_expr(else_expr);
                        let ghost e3 = self.errors@;
                        let ghost c3 = infer_reports(env0, sd, else_expr.node, else_expr.span);
                        let ghost c4 = clash(tv, opt_view(else_pt), else_expr.span);
                        proof {
                            lemma_grown_none(e3);
                        }
                        let res = match (then_pt, else_pt) {
                            (Some(t), Some(e)) => {
                                if !t.dim.addable_with(e.dim) {
                                    let got = e.dim.display_string();
                                    let expected = t.dim.display_string();
                                    let err = TypeError::dimension_mismatch(else_expr.span, got.as_str(), expected.as_str());
                                    self.report(err);
                                    proof {
                                        lemma_grown_push(e3, err);
                                    }
                                    None
                                } else {
                                    Some(t)
                                }
                            },
                            (t, _) => t,
                        };
                        proof {
                            lemma_grown_trans(e2, e3, self.errors@, c3, c4);
                            lemma_grown_trans(e0, e2, self.errors@, c1 + c2, c3 + c4);
                        }
                        res
                    },
                    None => {
                        proof {
                            assert(c1 + c2 + Seq::<ErrorView>::empty() =~= c1 + c2);
                        }
                        then_pt
                    },
                }
            },
            _ => None,
        }
    }

    fn infer_match(&mut self, expr: &Spanned<Expr>) -> (r: Option<PhysicalType>)
        requires
            old(self).env@.scopes.len() > 0,
            expr.node is Match,
        ensures
            opt_view(r) == infer(old(self).env@, old(self).sd(), expr.node),
            final(self).env@ == old(self).env@,
            final(self).struct_defs@ == old(self).struct_defs@,
            grown(old(self).errors@, final(self).errors@, infer_reports(old(self).env@, old(self).sd(), expr.node, expr.span)),
        decreases expr, 0int,
    {
        let ghost env0 = self.env@;
        let ghost e0 = self.errors@;
        let ghost sd = self.sd();
        match &expr.node {
            Expr::Match { scrutinee, arms } => {
                let scrutinee_pt = self.infer_expr(scrutinee);
                let ghost e1 = self.errors@;
                let r = self.match_arms(arms, &scrutinee_pt);
                proof {
                    lemma_grown_trans(e0, e1, self.errors@, infer_reports(env0, sd, scrutinee.node, scrutinee.span),
                        arms_reports(env0, sd, opt_view(scrutinee_pt), arms@, 0, None));
                }
                r
            },
            _ => None,
        }
    }

    fn infer_struct_lit(&mut self, expr: &Spanned<Expr>) -> (r: Option<PhysicalType>)
        requires
            old(self).env@.scopes.len() > 0,
            expr.node is StructLit,
        ensures
            opt_view(r) == infer(old(self).env@, old(self).sd(), expr.node),
            final(self).env@ == old(self).env@,
            final(self).struct_defs@ == old(self).struct_defs@,
            grown(old(self).errors@, final(self).errors@, infer_reports(old(self).env@, old(self).sd(), expr.node, expr.span)),
        decreases expr, 0int,
    {
        match &expr.node {
            Expr::StructLit { name, fields } => {
                self.check_struct_fields(name, fields);
                Some(PhysicalType::struct_type(copy_string(name)))
            },
            _ => None,
        }
    }

    fn infer_for(&mut self, expr: &Spanned<Expr>) -> (r: Option<PhysicalType>)
        requires
            old(self).env@.scopes.len() > 0,
            expr.node is For,
        ensures
            opt_view(r) == infer(old(self).env@, old(self).sd(), expr.node),
            final(self).env@ == old(self).env@,
            final(self).struct_defs@ == old(self).struct_defs@,
            grown(old(self).errors@, final(self).errors@, infer_reports(old(self).env@, old(self).sd(), expr.node, expr.span)),
        decreases expr, 0int,
    {
        let ghost env0 = self.env@;
        let ghost e0 = self.errors@;
        let ghost sd = self.sd();
        match &expr.node {
            Expr::For { var, start, end, body } => {
                let start_pt = self.infer_expr(start);
                let ghost e1 = self.errors@;
                let end_pt = self.infer_expr(end);
                let ghost e2 = self.errors@;
                let ghost c1 = infer_reports(env0, sd, start.node, start.span);
                let ghost c2 = infer_reports(env0, sd, end.node, end.span);
                let ghost c3 = clash(opt_view(start_pt), opt_view(end_pt), end.span);
                proof {
                    lemma_grown_trans(e0, e1, e2, c1, c2);
                    lemma_grown_none(e2);
                }
                match (&start_pt, &end_pt) {
                    (Some(s), Some(e)) => {
                        if !s.dim.addable_with(e.dim) {
                            let got = e.dim.display_string();
                            let expected = s.dim.display_string();
                            let err = TypeError::dimension_mismatch(end.span, got.as_str(), expected.as_str());
                            self.report(err);
                            proof {
                                lemma_grown_push(e2, err);
                            }
                        }
                    },
                    _ => {},
                }
                let ghost e3 = self.errors@;
                self.check_scoped_body(body, Some(var.as_str()));
                proof {
                    lemma_grown_trans(e0, e2, e3, c1 + c2, c3);
                    lemma_grown_trans(e0, e3, self.errors@, c1 + c2 + c3,
                        scoped_reports(body_env(env0, Some(var@)), sd, body@, 0));
                }
                Some(PhysicalType::scalar(DimVector::DIMENSIONLESS()))
            },
            _ => None,
        }
    }

    fn infer_block(&mut self, expr: &Spanned<Expr>) -> (r: Option<PhysicalType>)
        requires
            old(self).env@.scopes.len() > 0,
            expr.node is Block,
        ensures
            opt_view(r) == infer(old(self).env@, old(self).sd(), expr.node),
            final(self).env@ == old(self).env@,
            final(self).struct_defs@ == old(self).struct_defs@,
            grown(old(self).errors@, final(self).errors@, infer_reports(old(self).env@, old(self).sd(), expr.node, expr.span)),
        decreases expr, 0int,
    {
        match &expr.node {
            Expr::Block(stmts) => self.block_result(stmts),
            _ => None,
        }
    }

    /// The arguments of a call, inferred for their errors alone.
    fn infer_each(&mut self, args: &Vec<Spanned<Expr>>)
        requires
            old(self).env@.scopes.len() > 0,
        ensures
            final(self).env@ == old(self).env@,
            final(self).struct_defs@ == old(self).struct_defs@,
            grown(old(self).errors@, final(self).errors@, each_reports(old(self).env@, old(self).sd(), args@, 0)),
        decreases args, 0int,
    {
        let ghost e0 = self.errors@;
        let ghost env0 = self.env@;
        let ghost sd = self.sd();
        let ghost total = each_reports(env0, sd, args@, 0);
        proof {
            lemma_grown_none(e0);
            assert(reports(e0) + total =~= reports(e0) + each_reports(env0, sd, args@, 0));
        }
        let mut i: usize = 0;
        while i < args.len()
            invariant
                i <= args@.len(),
                self.env@ == env0,
                env0 == old(self).env@,
                sd == old(self).sd(),
                env0.scopes.len() > 0,
                self.struct_defs@ == old(self).struct_defs@,
                total == each_reports(env0, sd, args@, 0),
                extends(e0, self.errors@),
                reports(self.errors@) + each_reports(env0, sd, args@, i as int) == reports(e0) + total,
            decreases args@.len() - i,
        {
            let ghost e1 = self.errors@;
            proof {
                assert(decreases_to!(*args => args@));
                assert(decreases_to!(args@ => args@[i as int]));
            }
            self.infer_expr(&args[i]);
            proof {
                assert(self.errors@.subrange(0, e0.len() as int) =~= e1.subrange(0, e0.len() as int));
                lemma_reports_assoc(reports(e1), infer_reports(env0, sd, args@[i as int].node, args@[i as int].span), each_reports(env0, sd, args@, i + 1));
            }
            i = i + 1;
        }
        proof {
            assert(reports(self.errors@) + Seq::<ErrorView>::empty() =~= reports(self.errors@));
        }
    }

    /// The type of a block: the type of its last expression statement, the
    /// statements checked in a scope of their own.
    fn block_result(&mut self, stmts: &Vec<Spanned<Stmt>>) -> (r: Option<PhysicalType>)
        requires
            old(self).env@.scopes.len() > 0,
        ensures
            opt_view(r) == block_last(opened(old(self).env@), old(self).sd(), stmts@, 0, None),
            final(self).env@ == old(self).env@,
            final(self).struct_defs@ == old(self).struct_defs@,
            grown(old(self).errors@, final(self).errors@, scoped_reports(opened(old(self).env@), old(self).sd(), stmts@, 0)),
        decreases stmts, 0int,
    {
        let ghost env0 = self.env@;
        let ghost e0 = self.errors@;
        proof {
            lemma_grown_none(e0);
        }
        self.env.push_scope();
        let ghost opened_env = self.env@;
        let ghost sd = self.sd();
        let ghost total = scoped_reports(opened_env, sd, stmts@, 0);
        let mut last: Option<PhysicalType> = None;
        let mut i: usize = 0;
        while i < stmts.len()
            invariant
                i <= stmts@.len(),
                opened_env == opened(env0),
                env0.scopes.len() > 0,
                sd == old(self).sd(),
                self.env@.scopes.len() == opened_env.scopes.len(),
                self.env@.scopes.drop_last() == opened_env.scopes.drop_last(),
                self.env@.aliases == opened_env.aliases,
                block_last(self.env@, sd, stmts@, i as int, opt_view(last))
                    == block_last(opened_env, sd, stmts@, 0, None),
                self.struct_defs@ == old(self).struct_defs@,
                total == scoped_reports(opened_env, sd, stmts@, 0),
                extends(e0, self.errors@),
                reports(self.errors@) + scoped_reports(self.env@, sd, stmts@, i as int) == reports(e0) + total,
            decreases stmts@.len() - i,
        {
            let ghost e1 = self.errors@;
            let ghost env_i = self.env@;
            proof {
                assert(decreases_to!(*stmts => stmts@));
                assert(decreases_to!(stmts@ => stmts@[i as int]));
            }
            match &stmts[i].node {
                Stmt::Expr(inner) => {
                    last = self.infer_expr(inner);
                },
                _ => {
                    self.check_stmt(&stmts[i]);
                    proof {
                        lemma_stmt_env_frame(env_i, sd, stmts@[i as int].node);
                    }
                },
            }
            proof {
                assert(self.errors@.subrange(0, e0.len() as int) =~= e1.subrange(0, e0.len() as int));
                lemma_reports_assoc(reports(e1), stmt_reports(env_i, sd, stmts@[i as int].node),
                    scoped_reports(stmt_env(env_i, sd, stmts@[i as int].node), sd, stmts@, i + 1));
            }
            i = i + 1;
        }
        self.env.pop_scope();
        proof {
            assert(self.env@.scopes =~= env0.scopes);
            assert(reports(self.errors@) + Seq::<ErrorView>::empty() =~= reports(self.errors@));
        }
        last
    }

    /// The type of a `match` from its arms; each arm is checked in a scope
    /// of its own in which a binding pattern names the scrutinee.
    fn match_arms(&mut self, arms: &Vec<MatchArm>, scrutinee_pt: &Option<PhysicalType>) -> (r: Option<PhysicalType>)
        requires
            old(self).env@.scopes.len() > 0,
        ensures
            opt_view(r) == match_result(old(self).env@, old(self).sd(), opt_view(*scrutinee_pt), arms@, 0, None),
            final(self).env@ == old(self).env@,
            final(self).struct_defs@ == old(self).struct_defs@,
            grown(old(self).errors@, final(self).errors@,
                arms_reports(old(self).env@, old(self).sd(), opt_view(*scrutinee_pt), arms@, 0, None)),
        decreases arms, 0int,
    {
        let ghost env0 = self.env@;
        let ghost e0 = self.errors@;
        proof {
            lemma_grown_none(e0);
        }
        let ghost scr = opt_view(*scrutinee_pt);
        let ghost sd = self.sd();
        let ghost total = arms_reports(env0, sd, scr, arms@, 0, None);
        let mut result_pt: Option<PhysicalType> = None;
        let mut i: usize = 0;
        while i < arms.len()
            invariant
                i <= arms@.len(),
                env0.scopes.len() > 0,
                self.env@ == env0,
                env0 == old(self).env@,
                sd == old(self).sd(),
                opt_view(*scrutinee_pt) == scr,
                match_result(env0, sd, scr, arms@, i as int, opt_view(result_pt))
                    == match_result(env0, sd, scr, arms@, 0, None),
                self.struct_defs@ == old(self).struct_defs@,
                total == arms_reports(env0, sd, scr, arms@, 0, None),
                extends(e0, self.errors@),
                reports(self.errors@) + arms_reports(env0, sd, scr, arms@, i as int, opt_view(result_pt)) == reports(e0) + total,
            decreases arms@.len() - i,
        {
            let ghost e1 = self.errors@;
            let ghost acc = opt_view(result_pt);
            let arm = &arms[i];
            let ghost aenv = arm_env(env0, scr, arm.pattern);
            let ghost g = guard_reports(env0, scr, arm.pattern);
            proof {
                lemma_grown_none(e1);
            }
            self.env.push_scope();
            match &arm.pattern {
                Pattern::Binding { name, type_guard } => {
                    let bound_pt = match type_guard {
                        Some(guard_span) => {
                            let guard_pt = resolve_phys(guard_span, &self.env);
                            match (scrutinee_pt, &guard_pt) {
                                (Some(sdp), Some(gd)) => {
                                    if !sdp.dim.addable_with(gd.dim) {
                                        let declared = gd.dim.display_string();
                                        let inferred = sdp.dim.display_string();
                                        let err = TypeError::annotation_conflict(guard_span.span, declared.as_str(), inferred.as_str());
                                        self.report(err);
                                        proof {
                                            lemma_grown_push(e1, err);
                                        }
                                    }
                                },
                                _ => {},
                            }
                            match guard_pt {
                                Some(p) => Some(p),
                                None => copy_opt_phys(scrutinee_pt),
                            }
                        },
                        None => copy_opt_phys(scrutinee_pt),
                    };
                    match bound_pt {
                        Some(pt) => self.env.define(name.as_str(), pt),
                        None => {},
                    }
                },
                _ => {},
            }
            proof {
                assert(self.env@ == aenv);
                lemma_arm_env_closes(env0, scr, arm.pattern);
            }
            let ghost e2 = self.errors@;
            proof {
                assert(grown(e1, e2, g));
                assert(decreases_to!(*arms => arms@));
                assert(decreases_to!(arms@ => arms@[i as int]));
            }
            let arm_pt = self.infer_expr(&arm.body);
            let ghost e3 = self.errors@;
            let ghost b = infer_reports(aenv, sd, arm.body.node, arm.body.span);
            let ghost a = opt_view(arm_pt);
            let ghost cl = if acc is None { Seq::<ErrorView>::empty() } else { clash(acc, a, arm.body.span) };
            proof {
                lemma_grown_trans(e1, e2, e3, g, b);
                lemma_grown_none(e3);
            }
            self.env.pop_scope();
            proof {
                assert(self.env@.scopes =~= env0.scopes);
            }
            if result_pt.is_none() {
                result_pt = arm_pt;
            } else {
                match (&result_pt, &arm_pt) {
                    (Some(rd), Some(ad)) => {
                        if !rd.dim.addable_with(ad.dim) {
                            let got = ad.dim.display_string();
                            let expected = rd.dim.display_string();
                            let err = TypeError::dimension_mismatch(arm.body.span, got.as_str(), expected.as_str());
                            self.report(err);
                            proof {
                                lemma_grown_push(e3, err);
                            }
                        }
                    },
                    _ => {},
                }
            }
            proof {
                lemma_grown_trans(e1, e3, self.errors@, g + b, cl);
                assert(self.errors@.subrange(0, e0.len() as int) =~= e1.subrange(0, e0.len() as int));
                lemma_reports_assoc(reports(e1), g + b + cl,
                    arms_reports(env0, sd, scr, arms@, i + 1, if acc is None { a } else { acc }));
            }
            i = i + 1;
        }
        proof {
            assert(reports(self.errors@) + Seq::<ErrorView>::empty() =~= reports(self.errors@));
        }
        result_pt
    }

    /// The fields of a struct literal, each inferred and checked against the
    /// struct's declaration when the struct is known.
    fn check_struct_fields(&mut self, name: &String, fields: &Vec<(String, Spanned<Expr>)>)
        requires
            old(self).env@.scopes.len() > 0,
        ensures
            final(self).env@ == old(self).env@,
            final(self).struct_defs@ == old(self).struct_defs@,
            grown(old(self).errors@, final(self).errors@,
                fields_reports(old(self).env@, old(self).sd(), name@, struct_get(old(self).sd(), name@), fields@, 0)),
        decreases fields, 0int,
    {
        let ghost e0 = self.errors@;
        let ghost env0 = self.env@;
        let ghost sd = self.sd();
        let ghost sg = struct_get(sd, name@);
        let ghost total = fields_reports(env0, sd, name@, sg, fields@, 0);
        proof {
            lemma_grown_none(e0);
        }
        let found = find_struct(&self.struct_defs, name.as_str());
        let mut i: usize = 0;
        while i < fields.len()
            invariant
                i <= fields@.len(),
                self.env@ == env0,
                env0 == old(self).env@,
                sd == old(self).sd(),
                env0.scopes.len() > 0,
                self.struct_defs@ == old(self).struct_defs@,
                sg == struct_get(sd, name@),
                match found {
                    Some(k) => k < self.struct_defs@.len() && sg == Some(fields_view(self.struct_defs@[k as int].1@)),
                    None => sg is None,
                },
                total == fields_reports(env0, sd, name@, sg, fields@, 0),
                extends(e0, self.errors@),
                reports(self.errors@) + fields_reports(env0, sd, name@, sg, fields@, i as int) == reports(e0) + total,
            decreases fields@.len() - i,
        {
            let ghost e1 = self.errors@;
            proof {
                assert(decreases_to!(*fields => fields@));
                assert(decreases_to!(fields@ => fields@[i as int]));
            }
            let inferred = self.infer_expr(&fields[i].1);
            let ghost e2 = self.errors@;
            let ghost c1 = infer_reports(env0, sd, fields@[i as int].1.node, fields@[i as int].1.span);
            let ghost c2 = match sg {
                Some(fs) => match field_get(fs, fields@[i as int].0@) {
                    Some(d) => clash(Some(scalar_of(d)), opt_view(inferred), fields@[i as int].1.span),
                    None => seq![error_at(TypeErrorCode::UnknownUnit, no_field_text(name@, fields@[i as int].0@), fields@[i as int].1.span)],
                },
                None => Seq::<ErrorView>::empty(),
            };
            proof {
                lemma_grown_none(e2);
            }
            match found {
                Some(k) => {
                    match find_field(&self.struct_defs[k].1, fields[i].0.as_str()) {
                        Some(expected_dim) => match inferred {
                            Some(pt) => {
                                if !pt.dim.addable_with(expected_dim) {
                                    let got = pt.dim.display_string();
                                    let expected = expected_dim.display_string();
                                    let err = TypeError::dimension_mismatch(fields[i].1.span, got.as_str(), expected.as_str());
                                    self.report(err);
                                    proof {
                                        lemma_grown_push(e2, err);
                                    }
                                }
                            },
                            None => {},
                        },
                        None => {
                            let m = no_field_message(name.as_str(), fields[i].0.as_str());
                            let err = TypeError::new(TypeErrorCode::UnknownUnit, m, fields[i].1.span);
                            self.report(err);
                            proof {
                                lemma_grown_push(e2, err);
                            }
                        },
                    }
                },
                None => {},
            }
            proof {
                lemma_grown_trans(e1, e2, self.errors@, c1, c2);
                assert(self.errors@.subrange(0, e0.len() as int) =~= e1.subrange(0, e0.len() as int));
                lemma_reports_assoc(reports(e1), c1 + c2, fields_reports(env0, sd, name@, sg, fields@, i + 1));
            }
            i = i + 1;
        }
        proof {
            assert(reports(self.errors@) + Seq::<ErrorView>::empty() =~= reports(self.errors@));
        }
    }

    fn infer_field_access(&mut self, expr: &Spanned<Expr>) -> (r: Option<PhysicalType>)
        requires
            old(self).env@.scopes.len() > 0,
            expr.node is FieldAccess,
        ensures
            opt_view(r) == infer(old(self).env@, old(self).sd(), expr.node),
            final(self).env@ == old(self).env@,
            final(self).struct_defs@ == old(self).struct_defs@,
            grown(old(self).errors@, final(self).errors@, infer_reports(old(self).env@, old(self).sd(), expr.node, expr.span)),
        decreases expr, 0int,
    {
        let ghost env0 = self.env@;
        let ghost e0 = self.errors@;
        let ghost sd = self.sd();
        match &expr.node {
            Expr::FieldAccess { expr: inner, field } => {
                let inner_pt = self.infer_expr(inner);
                let ghost e1 = self.errors@;
                let ghost c1 = infer_reports(env0, sd, inner.node, inner.span);
                proof {
                    lemma_grown_none(e1);
                    assert(c1 + Seq::<ErrorView>::empty() =~= c1);
                }
                match inner_pt {
                    Some(pt) => match &pt.struct_name {
                        Some(sn) => {
                            match find_struct(&self.struct_defs, sn.as_str()) {
                                Some(k) => match find_field(&self.struct_defs[k].1, field.as_str()) {
                                    Some(d) => return Some(PhysicalType::scalar(d)),
                                    None => {},
                                },
                                None => {},
                            }
                            let m = no_field_message(sn.as_str(), field.as_str());
                            let err = TypeError::new(TypeErrorCode::UnknownUnit, m, expr.span);
                            self.report(err);
                            proof {
                                lemma_grown_push(e1, err);
                                lemma_grown_trans(e0, e1, self.errors@, c1, seq![error_view(err)]);
                            }
                            None
                        },
                        None => {
                            let mut m = String::new();
                            push_str(&mut m, "field access requires a struct type");
                            proof {
                                assert(m@ =~= "field access requires a struct type"@);
                            }
                            let err = TypeError::new(TypeErrorCode::DimensionMismatch, m, expr.span);
                            self.report(err);
                            proof {
                                lemma_grown_push(e1, err);
                                lemma_grown_trans(e0, e1, self.errors@, c1, seq![error_view(err)]);
                            }
                            None
                        },
                    },
                    None => None,
                }
            },
            _ => None,
        }
    }

    /// Check the statements of a loop body in a scope of their own, in which
    /// the loop variable, if any, is a dimensionless scalar.
    fn check_scoped_body(&mut self, body: &Vec<Spanned<Stmt>>, var: Option<&str>)
        requires
            old(self).env@.scopes.len() > 0,
        ensures
            final(self).env@ == old(self).env@,
            final(self).struct_defs@ == old(self).struct_defs@,
            grown(old(self).errors@, final(self).errors@,
                scoped_reports(body_env(old(self).env@, var_view(var)), old(self).sd(), body@, 0)),
        decreases body, 0int,
    {
        let ghost env0 = self.env@;
        let ghost e0 = self.errors@;
        let ghost sd = self.sd();
        proof {
            lemma_grown_none(e0);
        }
        self.env.push_scope();
        match var {
            Some(v) => self.env.define(v, PhysicalType::scalar(DimVector::DIMENSIONLESS())),
            None => {},
        }
        let ghost benv = self.env@;
        let ghost total = scoped_reports(benv, sd, body@, 0);
        proof {
            assert(benv == body_env(env0, var_view(var)));
            assert(self.env@.scopes.drop_last() =~= env0.scopes);
        }
        let mut i: usize = 0;
        while i < body.len()
            invariant
                i <= body@.len(),
                env0.scopes.len() > 0,
                env0 == old(self).env@,
                sd == old(self).sd(),
                self.env@.scopes.len() == env0.scopes.len() + 1,
                self.env@.scopes.drop_last() == env0.scopes,
                self.env@.aliases == env0.aliases,
                self.struct_defs@ == old(self).struct_defs@,
                total == scoped_reports(benv, sd, body@, 0),
                extends(e0, self.errors@),
                reports(self.errors@) + scoped_reports(self.env@, sd, body@, i as int) == reports(e0) + total,
            decreases body@.len() - i,
        {
            let ghost e2 = self.errors@;
            let ghost env_i = self.env@;
            proof {
                assert(decreases_to!(*body => body@));
                assert(decreases_to!(body@ => body@[i as int]));
            }
            self.check_stmt(&body[i]);
            proof {
                lemma_stmt_env_frame(env_i, sd, body@[i as int].node);
                assert(self.errors@.subrange(0, e0.len() as int) =~= e2.subrange(0, e0.len() as int));
                lemma_reports_assoc(reports(e2), stmt_reports(env_i, sd, body@[i as int].node),
                    scoped_reports(stmt_env(env_i, sd, body@[i as int].node), sd, body@, i + 1));
            }
            i = i + 1;
        }
        self.env.pop_scope();
        proof {
            assert(self.env@.scopes =~= env0.scopes);
            assert(reports(self.errors@) + Seq::<ErrorView>::empty() =~= reports(self.errors@));
        }
    }

    /// The type of an annotated value (see [`annotated_init`]), given its
    /// inferred type.
    fn annotated(&self, declared: &Option<Spanned<DimExpr>>, init: &Expr, found: Option<PhysicalType>) -> (r: Option<PhysicalType>)
        requires
            opt_view(found) == infer(self.env@, self.sd(), *init),
        ensures
            opt_view(r) == annotated_init(self.env@, self.sd(), *declared, *init),
    {
        match (init, declared) {
            (Expr::Literal { suffix: None, .. }, Some(ds)) => match resolve_with_env(ds, &self.env) {
                Some(d) => Some(PhysicalType::scalar(d)),
                None => found,
            },
            _ => found,
        }
    }

    /// Check one statement; a `let` binds its name in the innermost scope.
    fn check_stmt(&mut self, stmt: &Spanned<Stmt>)
        requires
            old(self).env@.scopes.len() > 0,
        ensures
            final(self).env@ == stmt_env(old(self).env@, old(self).sd(), stmt.node),
            final(self).struct_defs@ == old(self).struct_defs@,
            grown(old(self).errors@, final(self).errors@, stmt_reports(old(self).env@, old(self).sd(), stmt.node)),
        decreases stmt, 1int,
    {
        let ghost e0 = self.errors@;
        let ghost env0 = self.env@;
        let ghost sd = self.sd();
        match &stmt.node {
            Stmt::Let { name, declared_type, init, .. } => {
                let found = self.infer_expr(init);
                let inferred = self.annotated(declared_type, &init.node, found);
                let ghost e1 = self.errors@;
                let ghost c1 = infer_reports(env0, sd, init.node, init.span);
                proof {
                    lemma_grown_none(e1);
                    assert(c1 + Seq::<ErrorView>::empty() =~= c1);
                }
                match declared_type {
                    Some(ds) => match resolve_with_env(ds, &self.env) {
                        Some(dd) => match inferred {
                            Some(ip) => {
                                if !dd.addable_with(ip.dim) {
                                    let declared = dd.display_string();
                                    let inf = ip.dim.display_string();
                                    let err = TypeError::annotation_conflict(init.span, declared.as_str(), inf.as_str());
                                    self.report(err);
                                    proof {
                                        lemma_grown_push(e1, err);
                                        lemma_grown_trans(e0, e1, self.errors@, c1, seq![error_view(err)]);
                                    }
                                } else {
                                    let shape = match tensor_shape(ds) {
                                        Some(s) => Some(s),
                                        None => ip.shape,
                                    };
                                    self.env.define(name.as_str(), PhysicalType { dim: dd, shape, struct_name: None });
                                }
                            },
                            None => {
                                let shape = tensor_shape(ds);
                                self.env.define(name.as_str(), PhysicalType { dim: dd, shape, struct_name: None });
                            },
                        },
                        None => {
                            let err = TypeError::unknown_unit(ds.span, name.as_str());
                            self.report(err);
                            proof {
                                lemma_grown_push(e1, err);
                                lemma_grown_trans(e0, e1, self.errors@, c1, seq![error_view(err)]);
                            }
                        },
                    },
                    None => match inferred {
                        Some(pt) => self.env.define(name.as_str(), pt),
                        None => {},
                    },
                }
            },
            Stmt::Assign { target, value } => {
                let expected = self.env.lookup(target.as_str());
                let got = self.infer_expr(value);
                let ghost e1 = self.errors@;
                let ghost c1 = infer_reports(env0, sd, value.node, value.span);
                proof {
                    lemma_grown_none(e1);
                    assert(c1 + Seq::<ErrorView>::empty() =~= c1);
                }
                match (expected, got) {
                    (Some(exp), Some(g)) => {
                        if !exp.dim.addable_with(g.dim) {
                            let gs = g.dim.display_string();
                            let es = exp.dim.display_string();
                            let err = TypeError::dimension_mismatch(value.span, gs.as_str(), es.as_str());
                            self.report(err);
                            proof {
                                lemma_grown_push(e1, err);
                                lemma_grown_trans(e0, e1, self.errors@, c1, seq![error_view(err)]);
                            }
                        } else if exp.shape.is_some() && !shape_eq(&exp.shape, &g.shape) {
                            let gs = shape_display(&g.shape);
                            let es = shape_display(&exp.shape);
                            let err = TypeError::shape_mismatch(value.span, gs.as_str(), es.as_str());
                            self.report(err);
                            proof {
                                lemma_grown_push(e1, err);
                                lemma_grown_trans(e0, e1, self.errors@, c1, seq![error_view(err)]);
                            }
                        }
                    },
                    _ => {},
                }
            },
            Stmt::Expr(e) => {
                self.infer_expr(e);
            },
            Stmt::Break | Stmt::Continue => {
                proof {
                    lemma_grown_none(e0);
                }
            },
        }
    }
}

impl Ctx {
    /// Register an item's alias, function signature, struct or constant.
    fn register_item(&mut self, item: &Spanned<Item>)
        requires
            old(self).env@.scopes.len() > 0,
        ensures
            final(self).env@ == reg_env(old(self).env@, old(self).sd(), item.node),
            final(self).sd() == reg_sd(old(self).env@, old(self).sd(), item.node),
            grown(old(self).errors@, final(self).errors@, reg_reports(old(self).env@, old(self).sd(), item.node)),
    {
        let ghost e0 = self.errors@;
        let ghost env0 = self.env@;
        let ghost sd = self.sd();
        proof {
            lemma_grown_none(e0);
        }
        match &item.node {
            Item::TypeAlias { name, dimension_expr, .. } => {
                match resolve_with_env(dimension_expr, &self.env) {
                    Some(dim) => self.env.register_alias(name.as_str(), dim),
                    None => {
                        let mut what = copy_string(name);
                        push_str(&mut what, " alias RHS");
                        let e = TypeError::unknown_unit(dimension_expr.span, what.as_str());
                        self.report(e);
                        proof {
                            lemma_grown_push(e0, e);
                        }
                    },
                }
                proof {
                    assert(self.env@ == reg_env(old(self).env@, old(self).sd(), item.node));
                }
            },
            Item::Function { name, params, return_type, .. } => {
                match return_type {
                    Some(ret_span) => match resolve_with_env(ret_span, &self.env) {
                        Some(dim) => self.env.register_fn(name.as_str(), dim),
                        None => {},
                    },
                    None => self.env.register_fn(name.as_str(), DimVector::DIMENSIONLESS()),
                }
                let ghost env1 = self.env@;
                let mut i: usize = 0;
                proof {
                    assert(params@.subrange(0, 0) =~= Seq::<crate::ast::Param>::empty());
                    assert(reports(e0) + Seq::<ErrorView>::empty() =~= reports(e0));
                }
                while i < params.len()
                    invariant
                        i <= params@.len(),
                        self.env@ == env1,
                        env1.aliases == env0.aliases,
                        self.struct_defs@ == old(self).struct_defs@,
                        extends(e0, self.errors@),
                        reports(self.errors@) == reports(e0) + params_unresolved(params@.subrange(0, i as int), env0.aliases),
                    decreases params@.len() - i,
                {
                    let ghost e1 = self.errors@;
                    let ghost sub = params@.subrange(0, i + 1);
                    proof {
                        assert(sub.drop_last() =~= params@.subrange(0, i as int));
                        assert(sub.last() == params@[i as int]);
                        lemma_grown_none(e1);
                    }
                    match resolve_with_env(&params[i].dim, &self.env) {
                        Some(_) => {},
                        None => {
                            let e = TypeError::unknown_unit(params[i].dim.span, params[i].name.as_str());
                            self.report(e);
                            proof {
                                lemma_grown_push(e1, e);
                            }
                        },
                    }
                    proof {
                        assert(self.errors@.subrange(0, e0.len() as int) =~= e1.subrange(0, e0.len() as int));
                        lemma_reports_assoc(reports(e0), params_unresolved(params@.subrange(0, i as int), env0.aliases),
                            unresolved(resolve_env(params@[i as int].dim.node, env0.aliases), params@[i as int].name@, params@[i as int].dim.span));
                    }
                    i = i + 1;
                }
                proof {
                    assert(params@.subrange(0, params@.len() as int) =~= params@);
                    assert(self.env@ == reg_env(old(self).env@, old(self).sd(), item.node));
                }
            },
            Item::Struct { name, fields, .. } => {
                let ghost aliases = self.env@.aliases;
                let mut field_dims: Vec<(String, DimVector)> = Vec::new();
                let mut i: usize = 0;
                proof {
                    assert(fields@.subrange(0, 0) =~= Seq::<crate::ast::Field>::empty());
                    assert(reports(e0) + Seq::<ErrorView>::empty() =~= reports(e0));
                }
                while i < fields.len()
                    invariant
                        i <= fields@.len(),
                        self.env@ == old(self).env@,
                        aliases == old(self).env@.aliases,
                        self.struct_defs@ == old(self).struct_defs@,
                        fields_view(field_dims@) == resolved_fields(fields@.subrange(0, i as int), aliases),
                        extends(e0, self.errors@),
                        reports(self.errors@) == reports(e0) + fields_unresolved(fields@.subrange(0, i as int), aliases),
                    decreases fields@.len() - i,
                {
                    let ghost e1 = self.errors@;
                    let ghost sub = fields@.subrange(0, i + 1);
                    proof {
                        assert(sub.drop_last() =~= fields@.subrange(0, i as int));
                        assert(sub.last() == fields@[i as int]);
                        lemma_grown_none(e1);
                    }
                    match resolve_with_env(&fields[i].dim, &self.env) {
                        Some(dim) => {
                            let ghost before = field_dims@;
                            field_dims.push((copy_string(&fields[i].name), dim));
                            proof {
                                assert(fields_view(field_dims@) =~= fields_view(before).push((fields@[i as int].name@, dim)));
                            }
                        },
                        None => {
                            let e = TypeError::unknown_unit(fields[i].dim.span, fields[i].name.as_str());
                            self.report(e);
                            proof {
                                lemma_grown_push(e1, e);
                            }
                        },
                    }
                    proof {
                        assert(self.errors@.subrange(0, e0.len() as int) =~= e1.subrange(0, e0.len() as int));
                        lemma_reports_assoc(reports(e0), fields_unresolved(fields@.subrange(0, i as int), aliases),
                            unresolved(resolve_env(fields@[i as int].dim.node, aliases), fields@[i as int].name@, fields@[i as int].dim.span));
                    }
                    i = i + 1;
                }
                proof {
                    assert(fields@.subrange(0, fields@.len() as int) =~= fields@);
                }
                let ghost before = self.struct_defs@;
                self.struct_defs.push((copy_string(name), field_dims));
                proof {
                    assert(self.sd() =~= structs_view(before).push((name@, resolved_fields(fields@, aliases))));
                }
            },
            Item::Const { name, dim, value, .. } => {
                let declared_dim = match dim {
                    Some(d) => resolve_with_env(d, &self.env),
                    None => None,
                };
                let found = self.infer_expr(value);
                let inferred = self.annotated(dim, &value.node, found);
                let ghost e1 = self.errors@;
                let ghost c1 = infer_reports(env0, sd, value.node, value.span);
                proof {
                    lemma_grown_none(e1);
                    assert(c1 + Seq::<ErrorView>::empty() =~= c1);
                }
                match (declared_dim, inferred) {
                    (Some(ddim), Some(inferred_pt)) => {
                        if !ddim.addable_with(inferred_pt.dim) {
                            let declared = ddim.display_string();
                            let inf = inferred_pt.dim.display_string();
                            let e = TypeError::annotation_conflict(value.span, declared.as_str(), inf.as_str());
                            self.report(e);
                            proof {
                                lemma_grown_push(e1, e);
                                lemma_grown_trans(e0, e1, self.errors@, c1, seq![error_view(e)]);
                            }
                        } else {
                            self.env.define(name.as_str(), PhysicalType { dim: ddim, shape: inferred_pt.shape, struct_name: None });
                        }
                    },
                    (Some(ddim), None) => self.env.define(name.as_str(), PhysicalType::scalar(ddim)),
                    (None, Some(pt)) => self.env.define(name.as_str(), pt),
                    (None, None) => {},
                }
            },
            Item::CustomOp { .. } | Item::Use { .. } | Item::Module { .. } | Item::MacroDef { .. }
            | Item::MacroCall { .. } => {},
        }
    }

    /// Check an item: a function body against its parameters and declared
    /// return type; a custom op's input and output units.
    fn check_item(&mut self, item: &Spanned<Item>)
        requires
            old(self).env@.scopes.len() > 0,
        ensures
            final(self).env@ == old(self).env@,
            final(self).struct_defs@ == old(self).struct_defs@,
            grown(old(self).errors@, final(self).errors@, item_reports(old(self).env@, old(self).sd(), item.node)),
    {
        let ghost env0 = self.env@;
        let ghost e0 = self.errors@;
        let ghost sd = self.sd();
        proof {
            lemma_grown_none(e0);
        }
        match &item.node {
            Item::Function { params, return_type, body, .. } => {
                self.env.push_scope();
                let mut i: usize = 0;
                proof {
                    assert(params@.subrange(0, 0) =~= Seq::<crate::ast::Param>::empty());
                }
                while i < params.len()
                    invariant
                        i <= params@.len(),
                        env0.scopes.len() > 0,
                        self.env@ == params_env(opened(env0), params@.subrange(0, i as int)),
                        self.env@.scopes.len() == env0.scopes.len() + 1,
                        self.env@.scopes.drop_last() == env0.scopes,
                        self.env@.aliases == env0.aliases,
                        self.struct_defs@ == old(self).struct_defs@,
                        self.errors@ == e0,
                    decreases params@.len() - i,
                {
                    let ghost sub = params@.subrange(0, i + 1);
                    proof {
                        assert(sub.drop_last() =~= params@.subrange(0, i as int));
                        assert(sub.last() == params@[i as int]);
                    }
                    match resolve_phys(&params[i].dim, &self.env) {
                        Some(pt) => {
                            let ghost before = self.env@;
                            self.env.define(params[i].name.as_str(), pt);
                            proof {
                                assert(self.env@.scopes.drop_last() =~= before.scopes.drop_last());
                            }
                        },
                        None => {},
                    }
                    i = i + 1;
                }
                proof {
                    assert(params@.subrange(0, params@.len() as int) =~= params@);
                }
                let ghost fenv = self.env@;
                let declared_return = match return_type {
                    Some(rt) => resolve_with_env(rt, &self.env),
                    None => None,
                };
                match body {
                    FunctionBody::Expression(expr) => {
                        let inferred = self.infer_expr(expr);
                        let ghost e1 = self.errors@;
                        let ghost c1 = infer_reports(fenv, sd, expr.node, expr.span);
                        proof {
                            lemma_grown_none(e1);
                            assert(c1 + Seq::<ErrorView>::empty() =~= c1);
                        }
                        match (inferred, declared_return) {
                            (Some(inf), Some(declared)) => {
                                if !declared.addable_with(inf.dim) {
                                    let ds = declared.display_string();
                                    let is = inf.display_string();
                                    let e = TypeError::return_type_mismatch(expr.span, ds.as_str(), is.as_str());
                                    self.report(e);
                                    proof {
                                        lemma_grown_push(e1, e);
                                        lemma_grown_trans(e0, e1, self.errors@, c1, seq![error_view(e)]);
                                    }
                                }
                            },
                            _ => {},
                        }
                    },
                    FunctionBody::Block(stmts) => {
                        self.check_scoped_stmts(stmts);
                    },
                }
                self.env.pop_scope();
                proof {
                    assert(self.env@.scopes =~= env0.scopes);
                }
            },
            Item::CustomOp { input_dim, output_dim, .. } => {
                match resolve_with_env(input_dim, &self.env) {
                    Some(_) => {},
                    None => {
                        let e = TypeError::unknown_unit(input_dim.span, "op input");
                        self.report(e);
                        proof {
                            lemma_grown_push(e0, e);
                        }
                    },
                }
                let ghost e1 = self.errors@;
                proof {
                    lemma_grown_none(e1);
                }
                match resolve_with_env(output_dim, &self.env) {
                    Some(_) => {},
                    None => {
                        let e = TypeError::unknown_unit(output_dim.span, "op output");
                        self.report(e);
                        proof {
                            lemma_grown_push(e1, e);
                        }
                    },
                }
                proof {
                    lemma_grown_trans(e0, e1, self.errors@, unresolved(resolve_env(input_dim.node, env0.aliases), "op input"@, input_dim.span),
                        unresolved(resolve_env(output_dim.node, env0.aliases), "op output"@, output_dim.span));
                }
            },
            _ => {},
        }
    }

    /// Check the statements of a function body in the function's scope.
    fn check_scoped_stmts(&mut self, stmts: &Vec<Spanned<Stmt>>)
        requires
            old(self).env@.scopes.len() > 0,
        ensures
            final(self).env@.scopes.len() == old(self).env@.scopes.len(),
            final(self).env@.scopes.drop_last() == old(self).env@.scopes.drop_last(),
            final(self).env@.aliases == old(self).env@.aliases,
            final(self).struct_defs@ == old(self).struct_defs@,
            grown(old(self).errors@, final(self).errors@, scoped_reports(old(self).env@, old(self).sd(), stmts@, 0)),
    {
        let ghost envf = self.env@;
        let ghost e0 = self.errors@;
        let ghost sd = self.sd();
        let ghost total = scoped_reports(envf, sd, stmts@, 0);
        proof {
            lemma_grown_none(e0);
        }
        let mut i: usize = 0;
        while i < stmts.len()
            invariant
                i <= stmts@.len(),
                envf == old(self).env@,
                sd == old(self).sd(),
                envf.scopes.len() > 0,
                self.env@.scopes.len() == envf.scopes.len(),
                self.env@.scopes.drop_last() == envf.scopes.drop_last(),
                self.env@.aliases == envf.aliases,
                self.struct_defs@ == old(self).struct_defs@,
                total == scoped_reports(envf, sd, stmts@, 0),
                extends(e0, self.errors@),
                reports(self.errors@) + scoped_reports(self.env@, sd, stmts@, i as int) == reports(e0) + total,
            decreases stmts@.len() - i,
        {
            let ghost e2 = self.errors@;
            let ghost env_i = self.env@;
            self.check_stmt(&stmts[i]);
            proof {
                lemma_stmt_env_frame(env_i, sd, stmts@[i as int].node);
                assert(self.errors@.subrange(0, e0.len() as int) =~= e2.subrange(0, e0.len() as int));
                lemma_reports_assoc(reports(e2), stmt_reports(env_i, sd, stmts@[i as int].node),
                    scoped_reports(stmt_env(env_i, sd, stmts@[i as int].node), sd, stmts@, i + 1));
            }
            i = i + 1;
        }
        proof {
            assert(reports(self.errors@) + Seq::<ErrorView>::empty() =~= reports(self.errors@));
        }
    }
}

/// The environment in which a file without imports is checked.
pub open spec fn base_env() -> TypeEnvView {
    TypeEnvView { scopes: seq![Seq::empty()], aliases: crate::types::env::builtin_aliases() }
}

/// Registering an item keeps the number of scopes.
pub proof fn lemma_reg_env_scopes(env: TypeEnvView, sd: StructsView, item: Item)
    requires
        env.scopes.len() > 0,
    ensures
        reg_env(env, sd, item).scopes.len() == env.scopes.len(),
{
}

/// Registration keeps the number of scopes.
proof fn lemma_register_all_scopes(env: TypeEnvView, sd: StructsView, items: Seq<Spanned<Item>>)
    requires
        env.scopes.len() > 0,
    ensures
        register_all(env, sd, items).0.scopes.len() == env.scopes.len(),
    decreases items.len(),
{
    if items.len() > 0 {
        lemma_register_all_scopes(env, sd, items.drop_last());
        let (e1, s1) = register_all(env, sd, items.drop_last());
        lemma_reg_env_scopes(e1, s1, items.last().node);
    }
}

/// An error among those of one item is among those of the items.
proof fn lemma_items_reports_contain(env: TypeEnvView, sd: StructsView, items: Seq<Spanned<Item>>, i: int, c: ErrorView)
    requires
        0 <= i < items.len(),
        item_reports(env, sd, items[i].node).contains(c),
    ensures
        items_reports(env, sd, items).contains(c),
    decreases items.len(),
{
    let front = items_reports(env, sd, items.drop_last());
    let ic = item_reports(env, sd, items.last().node);
    let all = items_reports(env, sd, items);
    assert(all == front + ic);
    if i == items.len() - 1 {
        let k = choose|k: int| 0 <= k < ic.len() && ic[k] == c;
        assert(all[front.len() + k] == c);
    } else {
        assert(items.drop_last()[i] == items[i]);
        lemma_items_reports_contain(env, sd, items.drop_last(), i, c);
        let k = choose|k: int| 0 <= k < front.len() && front[k] == c;
        assert(all[k] == c);
    }
}

/// An error among those of checking one item of a file is among the file's.
proof fn lemma_file_reports_contain(env: TypeEnvView, items: Seq<Spanned<Item>>, i: int, c: ErrorView)
    requires
        0 <= i < items.len(),
        item_reports(register_all(env, Seq::empty(), items).0, register_all(env, Seq::empty(), items).1, items[i].node).contains(c),
    ensures
        file_reports(env, items).contains(c),
{
    let (e, s) = register_all(env, Seq::empty(), items);
    lemma_items_reports_contain(e, s, items, i, c);
    let front = reg_all_reports(env, Seq::empty(), items);
    let back = items_reports(e, s, items);
    let k = choose|k: int| 0 <= k < back.len() && back[k] == c;
    assert(file_reports(env, items)[front.len() + k] == c);
}

/// The code of an error in a list is among the list's codes.
proof fn lemma_codes_of_contains(rs: Seq<ErrorView>, r: ErrorView)
    requires
        rs.contains(r),
    ensures
        codes_of(rs).contains(r.code),
{
    let k = choose|k: int| 0 <= k < rs.len() && rs[k] == r;
    assert(codes_of(rs)[k] == r.code);
}

/// A function of a file whose expression body's dimension differs from its
/// declared return dimension is reported as a return-type mismatch.
pub proof fn lemma_return_mismatch_reported(env: TypeEnvView, items: Seq<Spanned<Item>>, i: int)
    requires
        0 <= i < items.len(),
        fn_return_mismatch(register_all(env, Seq::empty(), items).0, register_all(env, Seq::empty(), items).1, items[i].node),
    ensures
        codes_of(file_reports(env, items)).contains(TypeErrorCode::ReturnTypeMismatch),
{
    let (e, s) = register_all(env, Seq::empty(), items);
    let ic = item_reports(e, s, items[i].node);
    let r = ic[ic.len() - 1];
    assert(r.code == TypeErrorCode::ReturnTypeMismatch);
    lemma_file_reports_contain(env, items, i, r);
    lemma_codes_of_contains(file_reports(env, items), r);
}

/// The environment in which statement `k` of `stmts` is checked, the
/// statements from `i` on being checked from `env`.
pub open spec fn env_at(env: TypeEnvView, sd: StructsView, stmts: Seq<Spanned<Stmt>>, i: int, k: int) -> TypeEnvView
    decreases k - i,
{
    if i < 0 || i >= k || i >= stmts.len() {
        env
    } else {
        env_at(stmt_env(env, sd, stmts[i].node), sd, stmts, i + 1, k)
    }
}

/// An error among those of one statement is among those of the statements.
proof fn lemma_scoped_reports_contain(env: TypeEnvView, sd: StructsView, stmts: Seq<Spanned<Stmt>>, i: int, k: int, c: ErrorView)
    requires
        0 <= i <= k < stmts.len(),
        stmt_reports(env_at(env, sd, stmts, i, k), sd, stmts[k].node).contains(c),
    ensures
        scoped_reports(env, sd, stmts, i).contains(c),
    decreases k - i,
{
    let first = stmt_reports(env, sd, stmts[i].node);
    let rest = scoped_reports(stmt_env(env, sd, stmts[i].node), sd, stmts, i + 1);
    let all = scoped_reports(env, sd, stmts, i);
    assert(all == first + rest);
    if i == k {
        let j = choose|j: int| 0 <= j < first.len() && first[j] == c;
        assert(all[j] == c);
    } else {
        lemma_scoped_reports_contain(stmt_env(env, sd, stmts[i].node), sd, stmts, i + 1, k, c);
        let j = choose|j: int| 0 <= j < rest.len() && rest[j] == c;
        assert(all[first.len() + j] == c);
    }
}

/// Whether `st` is a `let` whose annotation resolves to a dimension other
/// than the one inferred for its value.
pub open spec fn let_conflict(env: TypeEnvView, sd: StructsView, st: Stmt) -> bool {
    &&& st matches Stmt::Let { declared_type: Some(ds), init, .. }
    &&& resolve_env(ds.node, env.aliases) matches Some(dd)
    &&& annotated_init(env, sd, Some(ds), init.node) matches Some(ip)
    &&& dd != ip.dim
}

/// A `let` in a function's block body whose annotation names a dimension
/// other than its value's is reported as an annotation conflict.
pub proof fn lemma_let_conflict_reported(env: TypeEnvView, items: Seq<Spanned<Item>>, i: int, k: int)
    requires
        0 <= i < items.len(),
        items[i].node matches Item::Function { params, body: FunctionBody::Block(stmts), .. } && 0 <= k < stmts@.len()
            && let_conflict(
                env_at(
                    params_env(opened(register_all(env, Seq::empty(), items).0), params@),
                    register_all(env, Seq::empty(), items).1,
                    stmts@,
                    0,
                    k,
                ),
                register_all(env, Seq::empty(), items).1,
                stmts@[k].node,
            ),
    ensures
        codes_of(file_reports(env, items)).contains(TypeErrorCode::AnnotationConflict),
{
    let (e, s) = register_all(env, Seq::empty(), items);
    match items[i].node {
        Item::Function { params, body: FunctionBody::Block(stmts), .. } => {
            let fenv = params_env(opened(e), params@);
            let at = env_at(fenv, s, stmts@, 0, k);
            let sc = stmt_reports(at, s, stmts@[k].node);
            match stmts@[k].node {
                Stmt::Let { init, .. } => {
                    let ic = infer_reports(at, s, init.node, init.span);
                    let r = sc[ic.len() as int];
                    assert(r.code == TypeErrorCode::AnnotationConflict);
                    assert(sc.contains(r));
                    lemma_scoped_reports_contain(fenv, s, stmts@, 0, k, r);
                    lemma_file_reports_contain(env, items, i, r);
                    lemma_codes_of_contains(file_reports(env, items), r);
                },
                _ => {},
            }
        },
        _ => {},
    }
}

/// Check a file with no imports: the errors (codes, messages and spans) are
/// those of registering and then checking its items in the built-in
/// environment.
pub fn check(file: &SourceFile) -> (r: CheckResult)
    ensures
        reports(r.errors@) == file_reports(base_env(), file.items@),
{
    let imports = ImportBindings::new();
    proof {
        assert(import_env(imports).scopes[0] =~= Seq::<(Seq<char>, PhysicalTypeView)>::empty());
        assert(import_env(imports).scopes =~= base_env().scopes);
        assert(import_env(imports).aliases =~= base_env().aliases);
        assert(import_env(imports) == base_env());
    }
    check_with_imports(file, &imports)
}

/// Check a file in an environment that holds the imported names: register
/// every item, then check every item.
pub fn check_with_imports(file: &SourceFile, imports: &ImportBindings) -> (r: CheckResult)
    ensures
        reports(r.errors@) == file_reports(import_env(*imports), file.items@),
{
    let mut ctx = Ctx { env: TypeEnv::new(), errors: Vec::new(), struct_defs: Vec::new() };
    apply_imports(&mut ctx.env, imports);
    proof {
        assert(ctx.env@.scopes.len() == 1);
        assert(ctx.env@.scopes[0] =~= import_env(*imports).scopes[0]);
        assert(ctx.env@.scopes =~= import_env(*imports).scopes);
        assert(ctx.env@ == import_env(*imports));
        assert(ctx.sd() =~= Seq::empty());
        assert(reports(ctx.errors@) =~= Seq::<ErrorView>::empty());
    }
    let ghost env_start = ctx.env@;
    let mut i: usize = 0;
    proof {
        assert(file.items@.subrange(0, 0) =~= Seq::<Spanned<Item>>::empty());
    }
    while i < file.items.len()
        invariant
            i <= file.items@.len(),
            env_start == import_env(*imports),
            (ctx.env@, ctx.sd()) == register_all(env_start, Seq::empty(), file.items@.subrange(0, i as int)),
            ctx.env@.scopes.len() > 0,
            reports(ctx.errors@) == reg_all_reports(env_start, Seq::empty(), file.items@.subrange(0, i as int)),
        decreases file.items@.len() - i,
    {
        let ghost sub = file.items@.subrange(0, i + 1);
        proof {
            assert(sub.drop_last() =~= file.items@.subrange(0, i as int));
        }
        let ghost before = ctx.env@;
        let ghost sd_before = ctx.sd();
        ctx.register_item(&file.items[i]);
        proof {
            lemma_reg_env_scopes(before, sd_before, file.items@[i as int].node);
        }
        i = i + 1;
    }
    proof {
        assert(file.items@.subrange(0, file.items@.len() as int) =~= file.items@);
    }
    let ghost env_reg = ctx.env@;
    let ghost sd_reg = ctx.sd();
    let ghost reg_errs = reports(ctx.errors@);
    let mut j: usize = 0;
    proof {
        assert(file.items@.subrange(0, 0) =~= Seq::<Spanned<Item>>::empty());
        assert(reg_errs + Seq::<ErrorView>::empty() =~= reg_errs);
    }
    while j < file.items.len()
        invariant
            j <= file.items@.len(),
            ctx.env@ == env_reg,
            ctx.sd() == sd_reg,
            env_reg.scopes.len() > 0,
            reports(ctx.errors@) == reg_errs + items_reports(env_reg, sd_reg, file.items@.subrange(0, j as int)),
        decreases file.items@.len() - j,
    {
        let ghost sub = file.items@.subrange(0, j + 1);
        proof {
            assert(sub.drop_last() =~= file.items@.subrange(0, j as int));
        }
        let ghost before = ctx.errors@;
        ctx.check_item(&file.items[j]);
        proof {
            lemma_reports_assoc(reg_errs, items_reports(env_reg, sd_reg, file.items@.subrange(0, j as int)),
                item_reports(env_reg, sd_reg, file.items@[j as int].node));
        }
        j = j + 1;
    }
    proof {
        assert(file.items@.subrange(0, file.items@.len() as int) =~= file.items@);
    }
    CheckResult { errors: ctx.errors }
}

} // verus!
