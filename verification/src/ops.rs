//! The rewrite rules of custom ops that the optimizer understands.
use vstd::prelude::*;
use crate::ast::{Expr, Number, Spanned};
use crate::text::str_eq;

verus! {

/// The shape of a rewrite rule `pattern => replacement` of an op.
#[derive(Debug, Clone, Copy, PartialEq, Eq)]
pub enum RuleShape {
    /// `op(a) => b` for number literals `a` and `b`: a call of the op on the
    /// constant `arg` equals the constant `replacement`.
    LiteralArg { arg: Number, replacement: Number },
    /// `op(x) => x`: a call of the op equals its argument.
    Passthrough,
    /// Any other rule, which the optimizer does not apply.
    Other,
}

/// A plain number literal (without a unit suffix).
pub open spec fn plain_literal(e: Expr) -> Option<Number> {
    match e {
        Expr::Literal { value, suffix: None } => Some(value),
        _ => None,
    }
}

/// The shape of the rule `pattern => replacement` of the op `op_name`.
pub open spec fn rule_shape_spec(pattern: Expr, replacement: Expr, op_name: Seq<char>) -> RuleShape {
    match pattern {
        Expr::Call { func, args } => if func@ == op_name && args@.len() == 1 {
            match (plain_literal(args@[0].node), plain_literal(replacement)) {
                (Some(a), Some(b)) => RuleShape::LiteralArg { arg: a, replacement: b },
                _ => match (args@[0].node, replacement) {
                    (Expr::Variable(x), Expr::Variable(y)) => if x@ == y@ { RuleShape::Passthrough } else { RuleShape::Other },
                    _ => RuleShape::Other,
                },
            }
        } else {
            RuleShape::Other
        },
        _ => RuleShape::Other,
    }
}

fn plain_literal_of(e: &Expr) -> (r: Option<Number>)
    ensures
        r == plain_literal(*e),
{
    match e {
        Expr::Literal { value, suffix: None } => Some(*value),
        _ => None,
    }
}

/// The shape of the rule `pattern => replacement` of the op `op_name`.
pub fn rule_shape(pattern: &Spanned<Expr>, replacement: &Spanned<Expr>, op_name: &str) -> (r: RuleShape)
    ensures
        r == rule_shape_spec(pattern.node, replacement.node, op_name@),
{
    match &pattern.node {
        Expr::Call { func, args } => {
            if !str_eq(func.as_str(), op_name) || args.len() != 1 {
                return RuleShape::Other;
            }
            match (plain_literal_of(&args[0].node), plain_literal_of(&replacement.node)) {
                (Some(a), Some(b)) => RuleShape::LiteralArg { arg: a, replacement: b },
                _ => match (&args[0].node, &replacement.node) {
                    (Expr::Variable(x), Expr::Variable(y)) => {
                        if str_eq(x.as_str(), y.as_str()) {
                            RuleShape::Passthrough
                        } else {
                            RuleShape::Other
                        }
                    },
                    _ => RuleShape::Other,
                },
            }
        },
        _ => RuleShape::Other,
    }
}

} // verus!
