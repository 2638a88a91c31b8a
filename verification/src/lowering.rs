//! Lowering of function bodies to expression graphs.
//!
//! A body is lowered to the tree of graph operations that builds it:
//! constants, variables, arithmetic, calls, conditionals and loops.  Calls of
//! the program's own functions are inlined; comparisons become calls of the
//! helper functions `lt`, `gt` and `eq`.  Building the graph from the tree
//! (sharing equal subtrees) is left to the graph builder.
use vstd::prelude::*;
use crate::ast::{BinOp, Expr, FunctionBody, Item, MatchArm, Number, Param, Pattern, SourceFile, Spanned, Stmt};
use crate::diagnostics::{AeviaError, error_text};
use crate::text::{copy_string, nat_digits, push_str, push_u64, str_eq};

verus! {

/// Arithmetic operators of the graph.
#[derive(Debug, Clone, Copy, PartialEq, Eq, Structural)]
pub enum LOp {
    Add,
    Sub,
    Mul,
    Div,
    Pow,
    Mod,
}

/// A lowered expression: the graph operations that compute it.
#[derive(Debug)]
pub enum Lowered {
    Constant(Number),
    Variable(String),
    Binary(LOp, Box<Lowered>, Box<Lowered>),
    Neg(Box<Lowered>),
    /// A call of a named function with arguments.
    Call(String, Vec<Lowered>),
    /// `if_else(cond, then, else)`.
    IfElse(Box<Lowered>, Box<Lowered>, Box<Lowered>),
    /// `for_loop(start, end, step, body)`.
    ForLoop(Box<Lowered>, Box<Lowered>, Box<Lowered>, Box<Lowered>),
}

/// Model of a lowered expression.
pub enum LTerm {
    Constant(Number),
    Variable(Seq<char>),
    Binary(LOp, Box<LTerm>, Box<LTerm>),
    Neg(Box<LTerm>),
    Call(Seq<char>, Seq<LTerm>),
    IfElse(Box<LTerm>, Box<LTerm>, Box<LTerm>),
    ForLoop(Box<LTerm>, Box<LTerm>, Box<LTerm>, Box<LTerm>),
}

/// How deeply calls are inlined into each other: as many levels as there
/// are registered functions and ops (capped at `u32::MAX`).  A chain of calls
/// without recursion never calls a function twice, so it never needs more;
/// only a recursive call, which cannot be inlined, runs out.
pub open spec fn inline_depth(fns: Seq<(Seq<char>, Item)>) -> nat {
    if fns.len() > u32::MAX { u32::MAX as nat } else { fns.len() }
}

/// The model of a lowered expression.
pub open spec fn lview(t: Lowered) -> LTerm
    decreases t, 1int,
{
    match t {
        Lowered::Constant(n) => LTerm::Constant(n),
        Lowered::Variable(s) => LTerm::Variable(s@),
        Lowered::Binary(op, a, b) => LTerm::Binary(op, Box::new(lview(*a)), Box::new(lview(*b))),
        Lowered::Neg(a) => LTerm::Neg(Box::new(lview(*a))),
        Lowered::Call(f, args) => LTerm::Call(f@, lview_list(args@, 0)),
        Lowered::IfElse(a, b, c) => LTerm::IfElse(Box::new(lview(*a)), Box::new(lview(*b)), Box::new(lview(*c))),
        Lowered::ForLoop(a, b, c, d) => LTerm::ForLoop(
            Box::new(lview(*a)),
            Box::new(lview(*b)),
            Box::new(lview(*c)),
            Box::new(lview(*d)),
        ),
    }
}

/// The models of `v[i..]`.
pub open spec fn lview_list(v: Seq<Lowered>, i: int) -> Seq<LTerm>
    decreases v, v.len() - i,
{
    if i < 0 || i >= v.len() {
        Seq::empty()
    } else {
        seq![lview(v[i])] + lview_list(v, i + 1)
    }
}

/// The constant `n`.
pub open spec fn konst(mantissa: int) -> LTerm {
    LTerm::Constant(Number { mantissa: mantissa as i128, scale: 0 })
}

/// Model of a lowering environment: names bound to lowered values, the
/// latest binding of a name first in effect.
pub open spec fn env_view(env: Seq<(String, Lowered)>) -> Seq<(Seq<char>, LTerm)> {
    env.map_values(|p: (String, Lowered)| (p.0@, lview(p.1)))
}

/// The value bound to `name`, the latest binding winning.
pub open spec fn env_get(env: Seq<(Seq<char>, LTerm)>, name: Seq<char>) -> Option<LTerm>
    decreases env.len(),
{
    if env.len() == 0 {
        None
    } else if env.last().0 == name {
        Some(env.last().1)
    } else {
        env_get(env.drop_last(), name)
    }
}

/// The item registered under `name`, the latest registration winning.
pub open spec fn fn_lookup(fns: Seq<(Seq<char>, Item)>, name: Seq<char>) -> Option<Item>
    decreases fns.len(),
{
    if fns.len() == 0 {
        None
    } else if fns.last().0 == name {
        Some(fns.last().1)
    } else {
        fn_lookup(fns.drop_last(), name)
    }
}

/// The operator of a binary operation: an arithmetic operator, or the name
/// of the helper function of a comparison.
pub open spec fn binop_kind(op: BinOp) -> Result<LOp, Seq<char>> {
    match op {
        BinOp::Add => Ok(LOp::Add),
        BinOp::Sub => Ok(LOp::Sub),
        BinOp::Mul => Ok(LOp::Mul),
        BinOp::Div => Ok(LOp::Div),
        BinOp::Pow => Ok(LOp::Pow),
        BinOp::Mod => Ok(LOp::Mod),
        BinOp::Lt => Err("lt"@),
        BinOp::Gt => Err("gt"@),
        BinOp::Eq => Err("eq"@),
    }
}

/// The lowering of `lhs op rhs`, once both operands have lowered (the left
/// one first): an arithmetic operator becomes the graph operation of the
/// same operator, and a comparison becomes a call of its helper on the two
/// lowered operands in order: `<` calls `lt`, `>` calls `gt` and `==` calls
/// `eq`.
pub proof fn lemma_binary_lowering(
    fns: Seq<(Seq<char>, Item)>,
    op: BinOp,
    lhs: Spanned<Expr>,
    rhs: Spanned<Expr>,
    env: Seq<(Seq<char>, LTerm)>,
    fuel: nat,
    l: LTerm,
    env1: Seq<(Seq<char>, LTerm)>,
    r: LTerm,
    env2: Seq<(Seq<char>, LTerm)>,
)
    requires
        lower_spec(fns, lhs.node, env, fuel) == Ok::<(LTerm, Seq<(Seq<char>, LTerm)>), Seq<char>>((l, env1)),
        lower_spec(fns, rhs.node, env1, fuel) == Ok::<(LTerm, Seq<(Seq<char>, LTerm)>), Seq<char>>((r, env2)),
    ensures
        ({
            let low = lower_spec(fns, Expr::BinaryOp { op, lhs: Box::new(lhs), rhs: Box::new(rhs) }, env, fuel);
            &&& op == BinOp::Lt ==> low == Ok::<(LTerm, Seq<(Seq<char>, LTerm)>), Seq<char>>((LTerm::Call("lt"@, seq![l, r]), env2))
            &&& op == BinOp::Gt ==> low == Ok::<(LTerm, Seq<(Seq<char>, LTerm)>), Seq<char>>((LTerm::Call("gt"@, seq![l, r]), env2))
            &&& op == BinOp::Eq ==> low == Ok::<(LTerm, Seq<(Seq<char>, LTerm)>), Seq<char>>((LTerm::Call("eq"@, seq![l, r]), env2))
            &&& op == BinOp::Add ==> low == Ok::<(LTerm, Seq<(Seq<char>, LTerm)>), Seq<char>>((LTerm::Binary(LOp::Add, Box::new(l), Box::new(r)), env2))
            &&& op == BinOp::Sub ==> low == Ok::<(LTerm, Seq<(Seq<char>, LTerm)>), Seq<char>>((LTerm::Binary(LOp::Sub, Box::new(l), Box::new(r)), env2))
            &&& op == BinOp::Mul ==> low == Ok::<(LTerm, Seq<(Seq<char>, LTerm)>), Seq<char>>((LTerm::Binary(LOp::Mul, Box::new(l), Box::new(r)), env2))
            &&& op == BinOp::Div ==> low == Ok::<(LTerm, Seq<(Seq<char>, LTerm)>), Seq<char>>((LTerm::Binary(LOp::Div, Box::new(l), Box::new(r)), env2))
            &&& op == BinOp::Pow ==> low == Ok::<(LTerm, Seq<(Seq<char>, LTerm)>), Seq<char>>((LTerm::Binary(LOp::Pow, Box::new(l), Box::new(r)), env2))
            &&& op == BinOp::Mod ==> low == Ok::<(LTerm, Seq<(Seq<char>, LTerm)>), Seq<char>>((LTerm::Binary(LOp::Mod, Box::new(l), Box::new(r)), env2))
        }),
        "lt"@ != "gt"@ && "lt"@ != "eq"@ && "gt"@ != "eq"@,
{
    reveal_strlit("lt");
    reveal_strlit("gt");
    reveal_strlit("eq");
    assert("lt"@[0] != "gt"@[0] && "lt"@[0] != "eq"@[0] && "gt"@[0] != "eq"@[0]);
}

/// The lowering of `if c { t } else { x }`, once the condition and both
/// branches have lowered in that order: the choice between the lowered
/// branches, the then-branch taken when the lowered condition holds; a
/// missing else-branch yields the constant 0.  A negation lowers to the
/// negation of its lowered operand.
pub proof fn lemma_if_lowering(
    fns: Seq<(Seq<char>, Item)>,
    c: Spanned<Expr>,
    t: Spanned<Expr>,
    x: Spanned<Expr>,
    op: crate::ast::UnOp,
    env: Seq<(Seq<char>, LTerm)>,
    fuel: nat,
    lc: LTerm,
    env1: Seq<(Seq<char>, LTerm)>,
    lt: LTerm,
    env2: Seq<(Seq<char>, LTerm)>,
    lx: LTerm,
    env3: Seq<(Seq<char>, LTerm)>,
)
    requires
        lower_spec(fns, c.node, env, fuel) == Ok::<(LTerm, Seq<(Seq<char>, LTerm)>), Seq<char>>((lc, env1)),
        lower_spec(fns, t.node, env1, fuel) == Ok::<(LTerm, Seq<(Seq<char>, LTerm)>), Seq<char>>((lt, env2)),
        lower_spec(fns, x.node, env2, fuel) == Ok::<(LTerm, Seq<(Seq<char>, LTerm)>), Seq<char>>((lx, env3)),
    ensures
        lower_spec(fns, Expr::If { cond: Box::new(c), then_branch: Box::new(t), else_branch: Some(Box::new(x)) }, env, fuel)
            == Ok::<(LTerm, Seq<(Seq<char>, LTerm)>), Seq<char>>((LTerm::IfElse(Box::new(lc), Box::new(lt), Box::new(lx)), env3)),
        lower_spec(fns, Expr::If { cond: Box::new(c), then_branch: Box::new(t), else_branch: None }, env, fuel)
            == Ok::<(LTerm, Seq<(Seq<char>, LTerm)>), Seq<char>>((LTerm::IfElse(Box::new(lc), Box::new(lt), Box::new(konst(0))), env2)),
        lower_spec(fns, Expr::UnaryOp { op, expr: Box::new(c) }, env, fuel)
            == Ok::<(LTerm, Seq<(Seq<char>, LTerm)>), Seq<char>>((LTerm::Neg(Box::new(lc)), env1)),
{
}

/// The message of a call whose arguments do not match the parameters.
pub open spec fn arity_text(expected: nat, got: nat) -> Seq<char> {
    "arity mismatch: expected "@ + nat_digits(expected) + " arguments, got "@ + nat_digits(got)
}

/// The message of a call nested deeper than the inlining depth.
pub open spec fn depth_text(func: Seq<char>) -> Seq<char> {
    "call of `"@ + func + "` is nested too deeply to inline"@
}

/// The parameters bound to the lowered arguments, in order.
pub open spec fn bind_params(params: Seq<crate::ast::Param>, ts: Seq<LTerm>) -> Seq<(Seq<char>, LTerm)> {
    Seq::new(params.len(), |k: int| (params[k].name@, ts[k]))
}

/// Lowering of an expression in environment `env`, with `fuel` levels of
/// inlining left: the lowered expression and the environment afterwards
/// (`let`s inside nested blocks stay bound).
pub open spec fn lower_spec(fns: Seq<(Seq<char>, Item)>, e: Expr, env: Seq<(Seq<char>, LTerm)>, fuel: nat)
    -> Result<(LTerm, Seq<(Seq<char>, LTerm)>), Seq<char>>
    decreases fuel, e, 0int,
{
    match e {
        Expr::Literal { value, .. } => Ok((LTerm::Constant(value), env)),
        Expr::Variable(name) => match env_get(env, name@) {
            Some(t) => Ok((t, env)),
            None => Ok((LTerm::Variable(name@), env)),
        },
        Expr::BinaryOp { op, lhs, rhs } => match lower_spec(fns, lhs.node, env, fuel) {
            Err(m) => Err(m),
            Ok(l) => match lower_spec(fns, rhs.node, l.1, fuel) {
                Err(m) => Err(m),
                Ok(r) => match binop_kind(op) {
                    Ok(k) => Ok((LTerm::Binary(k, Box::new(l.0), Box::new(r.0)), r.1)),
                    Err(f) => Ok((LTerm::Call(f, seq![l.0, r.0]), r.1)),
                },
            },
        },
        Expr::UnaryOp { expr, .. } => match lower_spec(fns, expr.node, env, fuel) {
            Err(m) => Err(m),
            Ok(x) => Ok((LTerm::Neg(Box::new(x.0)), x.1)),
        },
        Expr::Call { func, args } => lower_call_spec(fns, func@, args@, env, fuel),
        Expr::Block(stmts) => lower_block_spec(fns, stmts@, 0, env, fuel, konst(0)),
        Expr::If { cond, then_branch, else_branch } => match lower_spec(fns, cond.node, env, fuel) {
            Err(m) => Err(m),
            Ok(c) => match lower_spec(fns, then_branch.node, c.1, fuel) {
                Err(m) => Err(m),
                Ok(t) => match else_branch {
                    Some(eb) => match lower_spec(fns, eb.node, t.1, fuel) {
                        Err(m) => Err(m),
                        Ok(x) => Ok((LTerm::IfElse(Box::new(c.0), Box::new(t.0), Box::new(x.0)), x.1)),
                    },
                    None => Ok((LTerm::IfElse(Box::new(c.0), Box::new(t.0), Box::new(konst(0))), t.1)),
                },
            },
        },
        Expr::Loop { body } => match lower_block_spec(fns, body@, 0, env, fuel, konst(0)) {
            Err(m) => Err(m),
            Ok(b) => Ok((LTerm::ForLoop(Box::new(konst(0)), Box::new(konst(1000000)), Box::new(konst(1)), Box::new(b.0)), env)),
        },
        Expr::While { cond, body } => match lower_spec(fns, cond.node, env, fuel) {
            Err(m) => Err(m),
            Ok(c) => match lower_block_spec(fns, body@, 0, c.1, fuel, konst(0)) {
                Err(m) => Err(m),
                Ok(b) => Ok((
                    LTerm::ForLoop(
                        Box::new(konst(0)),
                        Box::new(konst(1000000)),
                        Box::new(konst(1)),
                        Box::new(LTerm::IfElse(Box::new(c.0), Box::new(b.0), Box::new(konst(0)))),
                    ),
                    c.1,
                )),
            },
        },
        Expr::For { var, start, end, body } => match lower_spec(fns, start.node, env, fuel) {
            Err(m) => Err(m),
            Ok(s) => match lower_spec(fns, end.node, s.1, fuel) {
                Err(m) => Err(m),
                Ok(t) => match lower_block_spec(fns, body@, 0, t.1.push((var@, LTerm::Variable(var@))), fuel, konst(0)) {
                    Err(m) => Err(m),
                    Ok(b) => Ok((LTerm::ForLoop(Box::new(s.0), Box::new(t.0), Box::new(konst(1)), Box::new(b.0)), t.1)),
                },
            },
        },
        Expr::Match { scrutinee, arms } => match lower_spec(fns, scrutinee.node, env, fuel) {
            Err(m) => Err(m),
            Ok(s) => match lower_arms_spec(fns, s.0, arms@, 0, s.1, fuel) {
                Err(m) => Err(m),
                Ok(r) => Ok((r, s.1)),
            },
        },
        Expr::UnsafeTransmute { expr, .. } => lower_spec(fns, expr.node, env, fuel),
        Expr::MacroCall { name, .. } => Err(
            "macro `"@ + name@ + "!` was not expanded before lowering; run the expansion pass first"@,
        ),
        Expr::Print { expr } => lower_spec(fns, expr.node, env, fuel),
        Expr::Log { .. } => Ok((konst(0), env)),
        Expr::StructLit { name, .. } => Err("struct literal `"@ + name@ + "` cannot be lowered"@),
        Expr::FieldAccess { field, .. } => Err("field access `."@ + field@ + "` cannot be lowered"@),
    }
}

/// Lowering of the arguments `args[i..]`, in order, appended to `acc`.
pub open spec fn lower_args_spec(
    fns: Seq<(Seq<char>, Item)>,
    args: Seq<Spanned<Expr>>,
    i: int,
    env: Seq<(Seq<char>, LTerm)>,
    fuel: nat,
    acc: Seq<LTerm>,
) -> Result<(Seq<LTerm>, Seq<(Seq<char>, LTerm)>), Seq<char>>
    decreases fuel, args, args.len() - i,
{
    if i < 0 || i >= args.len() {
        Ok((acc, env))
    } else {
        match lower_spec(fns, args[i].node, env, fuel) {
            Err(m) => Err(m),
            Ok(x) => lower_args_spec(fns, args, i + 1, x.1, fuel, acc.push(x.0)),
        }
    }
}

/// Lowering of a call: the program's functions are inlined, their
/// parameters bound to the lowered arguments; anything else is a call node.
pub open spec fn lower_call_spec(
    fns: Seq<(Seq<char>, Item)>,
    func: Seq<char>,
    args: Seq<Spanned<Expr>>,
    env: Seq<(Seq<char>, LTerm)>,
    fuel: nat,
) -> Result<(LTerm, Seq<(Seq<char>, LTerm)>), Seq<char>>
    decreases fuel, args, args.len() + 1,
{
    match fn_lookup(fns, func) {
        Some(Item::Function { params, body, .. }) => if args.len() != params@.len() {
            Err(arity_text(params@.len(), args.len()))
        } else {
            match lower_args_spec(fns, args, 0, env, fuel, Seq::empty()) {
                Err(m) => Err(m),
                Ok(a) => if fuel == 0 {
                    Err(depth_text(func))
                } else {
                    let local = env + bind_params(params@, a.0);
                    match body {
                        FunctionBody::Expression(b) => match lower_spec(fns, b.node, local, (fuel - 1) as nat) {
                            Err(m) => Err(m),
                            Ok(x) => Ok((x.0, a.1)),
                        },
                        FunctionBody::Block(stmts) => match lower_block_spec(fns, stmts@, 0, local, (fuel - 1) as nat, konst(0)) {
                            Err(m) => Err(m),
                            Ok(x) => Ok((x.0, a.1)),
                        },
                    }
                },
            }
        },
        _ => match lower_args_spec(fns, args, 0, env, fuel, Seq::empty()) {
            Err(m) => Err(m),
            Ok(a) => Ok((LTerm::Call(func, a.0), a.1)),
        },
    }
}

/// Lowering of the statements `stmts[i..]`: the value of the last statement
/// (`last` so far), and the environment with the block's bindings.
pub open spec fn lower_block_spec(
    fns: Seq<(Seq<char>, Item)>,
    stmts: Seq<Spanned<Stmt>>,
    i: int,
    env: Seq<(Seq<char>, LTerm)>,
    fuel: nat,
    last: LTerm,
) -> Result<(LTerm, Seq<(Seq<char>, LTerm)>), Seq<char>>
    decreases fuel, stmts, stmts.len() - i,
{
    if i < 0 || i >= stmts.len() {
        Ok((last, env))
    } else {
        match stmts[i].node {
            Stmt::Let { name, init, .. } => match lower_spec(fns, init.node, env, fuel) {
                Err(m) => Err(m),
                Ok(x) => lower_block_spec(fns, stmts, i + 1, x.1.push((name@, x.0)), fuel, x.0),
            },
            Stmt::Assign { target, value } => match lower_spec(fns, value.node, env, fuel) {
                Err(m) => Err(m),
                Ok(x) => lower_block_spec(fns, stmts, i + 1, x.1.push((target@, x.0)), fuel, x.0),
            },
            Stmt::Expr(e) => match lower_spec(fns, e.node, env, fuel) {
                Err(m) => Err(m),
                Ok(x) => lower_block_spec(fns, stmts, i + 1, x.1, fuel, x.0),
            },
            Stmt::Break | Stmt::Continue => lower_block_spec(fns, stmts, i + 1, env, fuel, konst(0)),
        }
    }
}

/// The condition of a match arm, and its environment.
pub open spec fn arm_cond(p: Pattern, scr: LTerm, env: Seq<(Seq<char>, LTerm)>) -> (LTerm, Seq<(Seq<char>, LTerm)>) {
    match p {
        Pattern::Wildcard => (konst(1), env),
        Pattern::Literal(v) => (LTerm::Call("eq"@, seq![scr, LTerm::Constant(v)]), env),
        Pattern::Binding { name, .. } => (konst(1), env.push((name@, scr))),
    }
}

/// Lowering of the arms `arms[i..]` into a chain of conditionals, the first
/// arm outermost and `0` when none matches; later arms are lowered first.
pub open spec fn lower_arms_spec(
    fns: Seq<(Seq<char>, Item)>,
    scr: LTerm,
    arms: Seq<MatchArm>,
    i: int,
    env: Seq<(Seq<char>, LTerm)>,
    fuel: nat,
) -> Result<LTerm, Seq<char>>
    decreases fuel, arms, arms.len() - i,
{
    if i < 0 || i >= arms.len() {
        Ok(konst(0))
    } else {
        match lower_arms_spec(fns, scr, arms, i + 1, env, fuel) {
            Err(m) => Err(m),
            Ok(rest) => {
                let c = arm_cond(arms[i].pattern, scr, env);
                match lower_spec(fns, arms[i].body.node, c.1, fuel) {
                    Err(m) => Err(m),
                    Ok(b) => Ok(LTerm::IfElse(Box::new(c.0), Box::new(b.0), Box::new(rest))),
                }
            },
        }
    }
}

/// The parameters of a function bound to variables of their own names.
pub open spec fn params_env(params: Seq<Param>) -> Seq<(Seq<char>, LTerm)> {
    Seq::new(params.len(), |k: int| (params[k].name@, LTerm::Variable(params[k].name@)))
}

/// Lowering of a function body, its parameters standing for themselves and
/// calls inlined up to [`inline_depth`] levels.
pub open spec fn lower_body_spec(fns: Seq<(Seq<char>, Item)>, params: Seq<Param>, body: FunctionBody) -> Result<LTerm, Seq<char>> {
    let r = match body {
        FunctionBody::Expression(b) => lower_spec(fns, b.node, params_env(params), inline_depth(fns)),
        FunctionBody::Block(stmts) => lower_block_spec(fns, stmts@, 0, params_env(params), inline_depth(fns), konst(0)),
    };
    match r {
        Ok(x) => Ok(x.0),
        Err(m) => Err(m),
    }
}

/// The function a program runs: the last function named `main`, or else
/// the first function.
pub open spec fn entry_function(items: Seq<Spanned<Item>>) -> Option<int>
    decreases items.len(),
{
    if items.len() == 0 {
        None
    } else {
        let p = entry_function(items.drop_last());
        let last = items.len() - 1;
        match items[last].node {
            Item::Function { name, .. } => if name@ == "main"@ || p is None { Some(last) } else { p },
            _ => p,
        }
    }
}

/// The position of the function a program runs (see [`entry_function`]).
pub fn find_entry_function(items: &Vec<Spanned<Item>>) -> (r: Option<usize>)
    ensures
        match r {
            Some(k) => entry_function(items@) == Some(k as int) && k < items@.len(),
            None => entry_function(items@) is None,
        },
{
    let mut found: Option<usize> = None;
    let mut i: usize = 0;
    while i < items.len()
        invariant
            i <= items@.len(),
            match found {
                Some(k) => entry_function(items@.subrange(0, i as int)) == Some(k as int) && k < i,
                None => entry_function(items@.subrange(0, i as int)) is None,
            },
        decreases items@.len() - i,
    {
        proof {
            let pre = items@.subrange(0, i + 1);
            assert(pre.drop_last() =~= items@.subrange(0, i as int));
            assert(pre[i as int] == items@[i as int]);
        }
        match &items[i].node {
            Item::Function { name, .. } => {
                if str_eq(name.as_str(), "main") || found.is_none() {
                    found = Some(i);
                }
            },
            _ => {},
        }
        i = i + 1;
    }
    proof {
        assert(items@.subrange(0, items@.len() as int) =~= items@);
    }
    found
}

/// The functions a lowerer can inline: name and item, latest last.
pub struct Lowerer<'a> {
    pub functions: Vec<(String, &'a Item)>,
}

/// Model of a function table.
pub open spec fn fns_view<'a>(f: Seq<(String, &'a Item)>) -> Seq<(Seq<char>, Item)> {
    f.map_values(|p: (String, &'a Item)| (p.0@, *p.1))
}

/// The entries that the items of a file add to the function table: its
/// functions and custom ops, in order.
pub open spec fn registered(items: Seq<Spanned<Item>>) -> Seq<(Seq<char>, Item)>
    decreases items.len(),
{
    if items.len() == 0 {
        Seq::empty()
    } else {
        let p = registered(items.drop_last());
        match items.last().node {
            Item::Function { name, .. } => p.push((name@, items.last().node)),
            Item::CustomOp { name, .. } => p.push((name@, items.last().node)),
            _ => p,
        }
    }
}

/// Whether an exec lowering result agrees with its model.
pub open spec fn lowered(
    r: Result<Lowered, AeviaError>,
    m: Result<(LTerm, Seq<(Seq<char>, LTerm)>), Seq<char>>,
    env_after: Seq<(Seq<char>, LTerm)>,
) -> bool {
    match r {
        Ok(t) => m == Ok::<(LTerm, Seq<(Seq<char>, LTerm)>), Seq<char>>((lview(t), env_after)),
        Err(x) => x is Message && m == Err::<(LTerm, Seq<(Seq<char>, LTerm)>), Seq<char>>(error_text(x)),
    }
}

proof fn lemma_lview_list_push(v: Seq<Lowered>, x: Lowered, i: int)
    requires
        0 <= i <= v.len(),
    ensures
        lview_list(v.push(x), i) == lview_list(v, i).push(lview(x)),
    decreases v.len() - i,
{
    if i < v.len() {
        lemma_lview_list_push(v, x, i + 1);
        assert(v.push(x)[i] == v[i]);
        assert(seq![lview(v[i])] + lview_list(v, i + 1).push(lview(x)) =~= (seq![lview(v[i])] + lview_list(v, i + 1)).push(lview(x)));
    } else {
        assert(v.push(x)[i] == x);
        assert(lview_list(v.push(x), i + 1) =~= Seq::<LTerm>::empty());
        assert(lview_list(v, i) =~= Seq::<LTerm>::empty());
        assert(seq![lview(x)] + Seq::<LTerm>::empty() =~= Seq::<LTerm>::empty().push(lview(x)));
    }
}

proof fn lemma_lview_list_index(v: Seq<Lowered>, i: int)
    requires
        0 <= i <= v.len(),
    ensures
        lview_list(v, i).len() == v.len() - i,
        forall|k: int| 0 <= k < v.len() - i ==> #[trigger] lview_list(v, i)[k] == lview(v[i + k]),
    decreases v.len() - i,
{
    if i < v.len() {
        lemma_lview_list_index(v, i + 1);
        assert forall|k: int| 0 <= k < v.len() - i implies #[trigger] lview_list(v, i)[k] == lview(v[i + k]) by {
            if k > 0 {
                assert(lview_list(v, i)[k] == lview_list(v, i + 1)[k - 1]);
            }
        }
    }
}

fn konst_exec(mantissa: i128) -> (r: Lowered)
    ensures
        lview(r) == LTerm::Constant(Number { mantissa, scale: 0 }),
{
    Lowered::Constant(Number { mantissa, scale: 0 })
}

/// A copy of a lowered expression.
pub fn copy_lowered(t: &Lowered) -> (r: Lowered)
    ensures
        lview(r) == lview(*t),
    decreases t, 1int,
{
    match t {
        Lowered::Constant(n) => Lowered::Constant(*n),
        Lowered::Variable(s) => Lowered::Variable(copy_string(s)),
        Lowered::Binary(op, a, b) => Lowered::Binary(*op, Box::new(copy_lowered(a)), Box::new(copy_lowered(b))),
        Lowered::Neg(a) => Lowered::Neg(Box::new(copy_lowered(a))),
        Lowered::Call(f, args) => {
            let c = copy_lowered_list(args);
            Lowered::Call(copy_string(f), c)
        },
        Lowered::IfElse(a, b, c) => Lowered::IfElse(
            Box::new(copy_lowered(a)),
            Box::new(copy_lowered(b)),
            Box::new(copy_lowered(c)),
        ),
        Lowered::ForLoop(a, b, c, d) => Lowered::ForLoop(
            Box::new(copy_lowered(a)),
            Box::new(copy_lowered(b)),
            Box::new(copy_lowered(c)),
            Box::new(copy_lowered(d)),
        ),
    }
}

fn copy_lowered_list(v: &Vec<Lowered>) -> (r: Vec<Lowered>)
    ensures
        lview_list(r@, 0) == lview_list(v@, 0),
    decreases v, 0int,
{
    let mut out: Vec<Lowered> = Vec::new();
    let mut i: usize = 0;
    proof {
        lemma_lview_list_index(v@, 0);
    }
    while i < v.len()
        invariant
            i <= v@.len(),
            out@.len() == i,
            forall|k: int| 0 <= k < i ==> lview(#[trigger] out@[k]) == lview(v@[k]),
        decreases v@.len() - i,
    {
        proof {
            assert(decreases_to!(*v => v@));
            assert(decreases_to!(v@ => v@[i as int]));
        }
        let c = copy_lowered(&v[i]);
        out.push(c);
        i = i + 1;
    }
    proof {
        lemma_lview_list_index(out@, 0);
        lemma_lview_list_index(v@, 0);
        assert(lview_list(out@, 0) =~= lview_list(v@, 0));
    }
    out
}

fn copy_env(env: &Vec<(String, Lowered)>) -> (r: Vec<(String, Lowered)>)
    ensures
        env_view(r@) == env_view(env@),
{
    let mut out: Vec<(String, Lowered)> = Vec::new();
    let mut i: usize = 0;
    while i < env.len()
        invariant
            i <= env@.len(),
            env_view(out@) == env_view(env@).subrange(0, i as int),
        decreases env@.len() - i,
    {
        let ghost before = out@;
        let n = copy_string(&env[i].0);
        let t = copy_lowered(&env[i].1);
        out.push((n, t));
        proof {
            assert(env_view(out@) =~= env_view(before).push((env@[i as int].0@, lview(env@[i as int].1))));
            assert(env_view(env@).subrange(0, i + 1) =~= env_view(env@).subrange(0, i as int).push(env_view(env@)[i as int]));
        }
        i = i + 1;
    }
    proof {
        assert(env_view(env@).subrange(0, env@.len() as int) =~= env_view(env@));
    }
    out
}

fn env_push(env: &mut Vec<(String, Lowered)>, name: &String, t: Lowered)
    ensures
        env_view(final(env)@) == env_view(old(env)@).push((name@, lview(t))),
{
    let ghost before = env@;
    let n = copy_string(name);
    let ghost tv = lview(t);
    env.push((n, t));
    proof {
        assert(env_view(env@) =~= env_view(before).push((name@, tv)));
    }
}

fn env_lookup(env: &Vec<(String, Lowered)>, name: &String) -> (r: Option<Lowered>)
    ensures
        match r {
            Some(t) => env_get(env_view(env@), name@) == Some(lview(t)),
            None => env_get(env_view(env@), name@) is None,
        },
{
    let ghost ev = env_view(env@);
    let mut i: usize = env.len();
    proof {
        assert(ev.subrange(0, ev.len() as int) =~= ev);
    }
    while i > 0
        invariant
            i <= env@.len(),
            ev == env_view(env@),
            env_get(ev, name@) == env_get(ev.subrange(0, i as int), name@),
        decreases i,
    {
        proof {
            let pre = ev.subrange(0, i as int);
            assert(pre.drop_last() =~= ev.subrange(0, i - 1));
            assert(pre.last() == ev[i - 1]);
            assert(ev[i - 1] == (env@[i - 1].0@, lview(env@[i - 1].1)));
        }
        if str_eq(env[i - 1].0.as_str(), name.as_str()) {
            return Some(copy_lowered(&env[i - 1].1));
        }
        i = i - 1;
    }
    None
}

fn message3(a: &str, b: &str, c: &str) -> (e: AeviaError)
    ensures
        e matches AeviaError::Message(m) && m@ == a@ + b@ + c@,
{
    let mut m = String::new();
    push_str(&mut m, a);
    push_str(&mut m, b);
    push_str(&mut m, c);
    proof {
        assert(m@ =~= a@ + b@ + c@);
    }
    AeviaError::message(m)
}

proof fn lemma_args_len(
    fns: Seq<(Seq<char>, Item)>,
    args: Seq<Spanned<Expr>>,
    i: int,
    env: Seq<(Seq<char>, LTerm)>,
    fuel: nat,
    acc: Seq<LTerm>,
)
    requires
        0 <= i <= args.len(),
    ensures
        lower_args_spec(fns, args, i, env, fuel, acc) matches Ok(r) ==> r.0.len() == acc.len() + args.len() - i,
    decreases args.len() - i,
{
    if i < args.len() {
        match lower_spec(fns, args[i].node, env, fuel) {
            Err(_) => {},
            Ok(x) => lemma_args_len(fns, args, i + 1, x.1, fuel, acc.push(x.0)),
        }
    }
}

proof fn lemma_arms_err(
    fns: Seq<(Seq<char>, Item)>,
    scr: LTerm,
    arms: Seq<MatchArm>,
    i: int,
    j: int,
    env: Seq<(Seq<char>, LTerm)>,
    fuel: nat,
)
    requires
        0 <= i <= j,
        lower_arms_spec(fns, scr, arms, j, env, fuel) is Err,
    ensures
        lower_arms_spec(fns, scr, arms, i, env, fuel) == lower_arms_spec(fns, scr, arms, j, env, fuel),
    decreases j - i,
{
    if i < j {
        lemma_arms_err(fns, scr, arms, i + 1, j, env, fuel);
    }
}

impl<'a> Lowerer<'a> {
    /// A lowerer that knows no functions.
    pub fn new() -> (l: Self)
        ensures
            l.functions@.len() == 0,
    {
        Lowerer { functions: Vec::new() }
    }

    /// The function table.
    pub open spec fn fns(&self) -> Seq<(Seq<char>, Item)> {
        fns_view(self.functions@)
    }

    /// Registers the functions and custom ops of `file`, so that calls of
    /// its functions are inlined.
    pub fn register_items(&mut self, file: &'a SourceFile)
        ensures
            final(self).fns() == old(self).fns() + registered(file.items@),
    {
        let ghost f0 = self.fns();
        let mut i: usize = 0;
        proof {
            assert(f0 + registered(file.items@.subrange(0, 0)) =~= f0);
        }
        while i < file.items.len()
            invariant
                i <= file.items@.len(),
                self.fns() == f0 + registered(file.items@.subrange(0, i as int)),
            decreases file.items@.len() - i,
        {
            let ghost before = self.functions@;
            proof {
                let pre = file.items@.subrange(0, i + 1);
                assert(pre.drop_last() =~= file.items@.subrange(0, i as int));
                assert(pre.last() == file.items@[i as int]);
            }
            let item: &'a Item = &file.items[i].node;
            match item {
                Item::Function { name, .. } => {
                    self.functions.push((copy_string(name), item));
                    proof {
                        assert(fns_view(self.functions@) =~= fns_view(before).push((name@, *item)));
                    }
                },
                Item::CustomOp { name, .. } => {
                    self.functions.push((copy_string(name), item));
                    proof {
                        assert(fns_view(self.functions@) =~= fns_view(before).push((name@, *item)));
                    }
                },
                _ => {},
            }
            proof {
                let pre = file.items@.subrange(0, i + 1);
                assert(f0 + registered(pre) =~= self.fns());
            }
            i = i + 1;
        }
        proof {
            assert(file.items@.subrange(0, file.items@.len() as int) =~= file.items@);
        }
    }

    fn find_fn(&self, name: &String) -> (r: Option<&'a Item>)
        ensures
            match r {
                Some(it) => fn_lookup(self.fns(), name@) == Some(*it),
                None => fn_lookup(self.fns(), name@) is None,
            },
    {
        let ghost fv = self.fns();
        let mut i: usize = self.functions.len();
        proof {
            assert(fv.subrange(0, fv.len() as int) =~= fv);
        }
        while i > 0
            invariant
                i <= self.functions@.len(),
                fv == self.fns(),
                fn_lookup(fv, name@) == fn_lookup(fv.subrange(0, i as int), name@),
            decreases i,
        {
            proof {
                let pre = fv.subrange(0, i as int);
                assert(pre.drop_last() =~= fv.subrange(0, i - 1));
                assert(pre.last() == fv[i - 1]);
            }
            if str_eq(self.functions[i - 1].0.as_str(), name.as_str()) {
                return Some(self.functions[i - 1].1);
            }
            i = i - 1;
        }
        None
    }

    /// Lowers an expression in environment `env` (which keeps the bindings
    /// of nested blocks afterwards), with `fuel` levels of inlining left.
    pub fn lower_expr(&self, e: &Spanned<Expr>, env: &mut Vec<(String, Lowered)>, fuel: u32) -> (r: Result<Lowered, AeviaError>)
        ensures
            lowered(r, lower_spec(self.fns(), e.node, env_view(old(env)@), fuel as nat), env_view(final(env)@)),
        decreases fuel, e, 1int,
    {
        match &e.node {
            Expr::Literal { value, .. } => Ok(Lowered::Constant(*value)),
            Expr::Variable(name) => match env_lookup(env, name) {
                Some(t) => Ok(t),
                None => Ok(Lowered::Variable(copy_string(name))),
            },
            Expr::BinaryOp { .. } => self.lower_binary(e, env, fuel),
            Expr::UnaryOp { expr: inner, .. } => match self.lower_expr(inner, env, fuel) {
                Err(x) => Err(x),
                Ok(t) => Ok(Lowered::Neg(Box::new(t))),
            },
            Expr::Call { .. } => self.lower_call(e, env, fuel),
            Expr::Block(stmts) => self.lower_block(stmts, env, fuel),
            Expr::If { .. } => self.lower_if(e, env, fuel),
            Expr::Loop { body } => {
                let mut body_env = copy_env(env);
                match self.lower_block(body, &mut body_env, fuel) {
                    Err(x) => Err(x),
                    Ok(b) => Ok(Lowered::ForLoop(
                        Box::new(konst_exec(0)),
                        Box::new(konst_exec(1000000)),
                        Box::new(konst_exec(1)),
                        Box::new(b),
                    )),
                }
            },
            Expr::While { .. } => self.lower_while(e, env, fuel),
            Expr::For { .. } => self.lower_for(e, env, fuel),
            Expr::Match { .. } => self.lower_match(e, env, fuel),
            Expr::UnsafeTransmute { expr: inner, .. } => self.lower_expr(inner, env, fuel),
            Expr::MacroCall { name, .. } => Err(message3(
                "macro `",
                name.as_str(),
                "!` was not expanded before lowering; run the expansion pass first",
            )),
            Expr::Print { expr: inner } => self.lower_expr(inner, env, fuel),
            Expr::Log { .. } => Ok(konst_exec(0)),
            Expr::StructLit { name, .. } => Err(message3("struct literal `", name.as_str(), "` cannot be lowered")),
            Expr::FieldAccess { field, .. } => Err(message3("field access `.", field.as_str(), "` cannot be lowered")),
        }
    }

    fn lower_binary(&self, e: &Spanned<Expr>, env: &mut Vec<(String, Lowered)>, fuel: u32) -> (r: Result<Lowered, AeviaError>)
        requires
            e.node is BinaryOp,
        ensures
            lowered(r, lower_spec(self.fns(), e.node, env_view(old(env)@), fuel as nat), env_view(final(env)@)),
        decreases fuel, e, 0int,
    {
        match &e.node {
            Expr::BinaryOp { op, lhs, rhs } => {
                let l = match self.lower_expr(lhs, env, fuel) {
                    Err(x) => return Err(x),
                    Ok(t) => t,
                };
                let r = match self.lower_expr(rhs, env, fuel) {
                    Err(x) => return Err(x),
                    Ok(t) => t,
                };
                let kind = match op {
                    BinOp::Add => LOp::Add,
                    BinOp::Sub => LOp::Sub,
                    BinOp::Mul => LOp::Mul,
                    BinOp::Div => LOp::Div,
                    BinOp::Pow => LOp::Pow,
                    BinOp::Mod => LOp::Mod,
                    BinOp::Lt | BinOp::Gt | BinOp::Eq => {
                        let mut f = String::new();
                        match op {
                            BinOp::Lt => push_str(&mut f, "lt"),
                            BinOp::Gt => push_str(&mut f, "gt"),
                            _ => push_str(&mut f, "eq"),
                        }
                        let ghost lv = lview(l);
                        let ghost rv = lview(r);
                        let mut args: Vec<Lowered> = Vec::new();
                        args.push(l);
                        args.push(r);
                        proof {
                            lemma_lview_list_index(args@, 0);
                            assert(lview_list(args@, 0) =~= seq![lv, rv]);
                            assert(f@ =~= binop_kind(*op)->Err_0);
                        }
                        return Ok(Lowered::Call(f, args));
                    },
                };
                Ok(Lowered::Binary(kind, Box::new(l), Box::new(r)))
            },
            _ => {
                proof {
                    assert(false);
                }
                Err(message3("", "", ""))
            },
        }
    }

    fn lower_if(&self, e: &Spanned<Expr>, env: &mut Vec<(String, Lowered)>, fuel: u32) -> (r: Result<Lowered, AeviaError>)
        requires
            e.node is If,
        ensures
            lowered(r, lower_spec(self.fns(), e.node, env_view(old(env)@), fuel as nat), env_view(final(env)@)),
        decreases fuel, e, 0int,
    {
        match &e.node {
            Expr::If { cond, then_branch, else_branch } => {
                let c = match self.lower_expr(cond, env, fuel) {
                    Err(x) => return Err(x),
                    Ok(t) => t,
                };
                let t = match self.lower_expr(then_branch, env, fuel) {
                    Err(x) => return Err(x),
                    Ok(t) => t,
                };
                let x = match else_branch {
                    Some(eb) => match self.lower_expr(eb, env, fuel) {
                        Err(x) => return Err(x),
                        Ok(t) => t,
                    },
                    None => konst_exec(0),
                };
                Ok(Lowered::IfElse(Box::new(c), Box::new(t), Box::new(x)))
            },
            _ => {
                proof {
                    assert(false);
                }
                Err(message3("", "", ""))
            },
        }
    }

    fn lower_while(&self, e: &Spanned<Expr>, env: &mut Vec<(String, Lowered)>, fuel: u32) -> (r: Result<Lowered, AeviaError>)
        requires
            e.node is While,
        ensures
            lowered(r, lower_spec(self.fns(), e.node, env_view(old(env)@), fuel as nat), env_view(final(env)@)),
        decreases fuel, e, 0int,
    {
        match &e.node {
            Expr::While { cond, body } => {
                let c = match self.lower_expr(cond, env, fuel) {
                    Err(x) => return Err(x),
                    Ok(t) => t,
                };
                let mut body_env = copy_env(env);
                let b = match self.lower_block(body, &mut body_env, fuel) {
                    Err(x) => return Err(x),
                    Ok(t) => t,
                };
                let guarded = Lowered::IfElse(Box::new(c), Box::new(b), Box::new(konst_exec(0)));
                proof {
                    assert(lview(guarded) == LTerm::IfElse(Box::new(lview(c)), Box::new(lview(b)), Box::new(konst(0))));
                }
                Ok(Lowered::ForLoop(
                    Box::new(konst_exec(0)),
                    Box::new(konst_exec(1000000)),
                    Box::new(konst_exec(1)),
                    Box::new(guarded),
                ))
            },
            _ => {
                proof {
                    assert(false);
                }
                Err(message3("", "", ""))
            },
        }
    }

    fn lower_for(&self, e: &Spanned<Expr>, env: &mut Vec<(String, Lowered)>, fuel: u32) -> (r: Result<Lowered, AeviaError>)
        requires
            e.node is For,
        ensures
            lowered(r, lower_spec(self.fns(), e.node, env_view(old(env)@), fuel as nat), env_view(final(env)@)),
        decreases fuel, e, 0int,
    {
        match &e.node {
            Expr::For { var, start, end, body } => {
                let s = match self.lower_expr(start, env, fuel) {
                    Err(x) => return Err(x),
                    Ok(t) => t,
                };
                let t = match self.lower_expr(end, env, fuel) {
                    Err(x) => return Err(x),
                    Ok(t) => t,
                };
                let mut body_env = copy_env(env);
                env_push(&mut body_env, var, Lowered::Variable(copy_string(var)));
                let b = match self.lower_block(body, &mut body_env, fuel) {
                    Err(x) => return Err(x),
                    Ok(t) => t,
                };
                Ok(Lowered::ForLoop(Box::new(s), Box::new(t), Box::new(konst_exec(1)), Box::new(b)))
            },
            _ => {
                proof {
                    assert(false);
                }
                Err(message3("", "", ""))
            },
        }
    }

    fn lower_match(&self, e: &Spanned<Expr>, env: &mut Vec<(String, Lowered)>, fuel: u32) -> (r: Result<Lowered, AeviaError>)
        requires
            e.node is Match,
        ensures
            lowered(r, lower_spec(self.fns(), e.node, env_view(old(env)@), fuel as nat), env_view(final(env)@)),
        decreases fuel, e, 0int,
    {
        match &e.node {
            Expr::Match { scrutinee, arms } => {
                let s = match self.lower_expr(scrutinee, env, fuel) {
                    Err(x) => return Err(x),
                    Ok(t) => t,
                };
                self.lower_arms(&s, arms, env, fuel)
            },
            _ => {
                proof {
                    assert(false);
                }
                Err(message3("", "", ""))
            },
        }
    }

    fn lower_arms(&self, scr: &Lowered, arms: &Vec<MatchArm>, env: &Vec<(String, Lowered)>, fuel: u32) -> (r: Result<Lowered, AeviaError>)
        ensures
            match r {
                Ok(t) => lower_arms_spec(self.fns(), lview(*scr), arms@, 0, env_view(env@), fuel as nat)
                    == Ok::<LTerm, Seq<char>>(lview(t)),
                Err(x) => x is Message && lower_arms_spec(self.fns(), lview(*scr), arms@, 0, env_view(env@), fuel as nat)
                    == Err::<LTerm, Seq<char>>(error_text(x)),
            },
        decreases fuel, arms, 0int,
    {
        let ghost sv = lview(*scr);
        let ghost ev = env_view(env@);
        let mut result = konst_exec(0);
        let mut k: usize = arms.len();
        while k > 0
            invariant
                k <= arms@.len(),
                sv == lview(*scr),
                ev == env_view(env@),
                lower_arms_spec(self.fns(), sv, arms@, k as int, ev, fuel as nat) == Ok::<LTerm, Seq<char>>(lview(result)),
            decreases k,
        {
            proof {
                assert(decreases_to!(*arms => arms@));
                assert(decreases_to!(arms@ => arms@[k - 1]));
                assert(decreases_to!(arms@[k - 1] => arms@[k - 1].body));
            }
            let arm = &arms[k - 1];
            let mut arm_env = copy_env(env);
            let cond = match &arm.pattern {
                Pattern::Wildcard => konst_exec(1),
                Pattern::Literal(v) => {
                    let mut f = String::new();
                    push_str(&mut f, "eq");
                    let mut args: Vec<Lowered> = Vec::new();
                    args.push(copy_lowered(scr));
                    args.push(Lowered::Constant(*v));
                    proof {
                        lemma_lview_list_index(args@, 0);
                        assert(lview_list(args@, 0) =~= seq![sv, LTerm::Constant(*v)]);
                        assert(f@ =~= "eq"@);
                    }
                    Lowered::Call(f, args)
                },
                Pattern::Binding { name, .. } => {
                    env_push(&mut arm_env, name, copy_lowered(scr));
                    konst_exec(1)
                },
            };
            match self.lower_expr(&arm.body, &mut arm_env, fuel) {
                Err(x) => {
                    proof {
                        lemma_arms_err(self.fns(), sv, arms@, 0, k - 1, ev, fuel as nat);
                    }
                    return Err(x);
                },
                Ok(b) => {
                    result = Lowered::IfElse(Box::new(cond), Box::new(b), Box::new(result));
                },
            }
            k = k - 1;
        }
        Ok(result)
    }

    fn lower_args(&self, args: &Vec<Spanned<Expr>>, env: &mut Vec<(String, Lowered)>, fuel: u32) -> (r: Result<Vec<Lowered>, AeviaError>)
        ensures
            match r {
                Ok(ts) => lower_args_spec(self.fns(), args@, 0, env_view(old(env)@), fuel as nat, Seq::empty())
                    == Ok::<(Seq<LTerm>, Seq<(Seq<char>, LTerm)>), Seq<char>>((lview_list(ts@, 0), env_view(final(env)@))),
                Err(x) => x is Message && lower_args_spec(self.fns(), args@, 0, env_view(old(env)@), fuel as nat, Seq::empty())
                    == Err::<(Seq<LTerm>, Seq<(Seq<char>, LTerm)>), Seq<char>>(error_text(x)),
            },
        decreases fuel, args, 0int,
    {
        let ghost whole = lower_args_spec(self.fns(), args@, 0, env_view(env@), fuel as nat, Seq::empty());
        let mut ts: Vec<Lowered> = Vec::new();
        let mut i: usize = 0;
        proof {
            assert(lview_list(ts@, 0) =~= Seq::<LTerm>::empty());
        }
        while i < args.len()
            invariant
                whole == lower_args_spec(self.fns(), args@, 0, env_view(old(env)@), fuel as nat, Seq::empty()),
                i <= args@.len(),
                ts@.len() == i,
                whole == lower_args_spec(self.fns(), args@, i as int, env_view(env@), fuel as nat, lview_list(ts@, 0)),
            decreases args@.len() - i,
        {
            proof {
                assert(decreases_to!(*args => args@));
                assert(decreases_to!(args@ => args@[i as int]));
            }
            match self.lower_expr(&args[i], env, fuel) {
                Err(x) => return Err(x),
                Ok(t) => {
                    proof {
                        lemma_lview_list_push(ts@, t, 0);
                    }
                    ts.push(t);
                },
            }
            i = i + 1;
        }
        Ok(ts)
    }

    fn lower_call(&self, e: &Spanned<Expr>, env: &mut Vec<(String, Lowered)>, fuel: u32) -> (r: Result<Lowered, AeviaError>)
        requires
            e.node is Call,
        ensures
            lowered(r, lower_spec(self.fns(), e.node, env_view(old(env)@), fuel as nat), env_view(final(env)@)),
        decreases fuel, e, 0int,
    {
        match &e.node {
            Expr::Call { func, args } => {
                let found = self.find_fn(func);
                let inline: Option<(&Vec<crate::ast::Param>, &FunctionBody)> = match found {
                    Some(Item::Function { params, body, .. }) => Some((params, body)),
                    _ => None,
                };
                proof {
                    assert(lower_spec(self.fns(), e.node, env_view(env@), fuel as nat)
                        == lower_call_spec(self.fns(), func@, args@, env_view(env@), fuel as nat));
                    match inline {
                        Some(pb) => {
                            assert(fn_lookup(self.fns(), func@) matches Some(Item::Function { params, body, .. })
                                && params == *pb.0 && body == *pb.1);
                        },
                        None => {
                            assert(!(fn_lookup(self.fns(), func@) matches Some(Item::Function { .. })));
                        },
                    }
                }
                match inline {
                    Some((params, body)) => {
                        if args.len() != params.len() {
                            let mut m = String::new();
                            push_str(&mut m, "arity mismatch: expected ");
                            push_u64(&mut m, params.len() as u64);
                            push_str(&mut m, " arguments, got ");
                            push_u64(&mut m, args.len() as u64);
                            proof {
                                assert(params.len() as u64 as nat == params@.len());
                                assert(args.len() as u64 as nat == args@.len());
                                assert(m@ =~= arity_text(params@.len(), args@.len()));
                            }
                            return Err(AeviaError::message(m));
                        }
                        let mut local = copy_env(env);
                        let ghost local0 = env_view(local@);
                        let ts = match self.lower_args(args, env, fuel) {
                            Err(x) => return Err(x),
                            Ok(ts) => ts,
                        };
                        if fuel == 0 {
                            let mut m = String::new();
                            push_str(&mut m, "call of `");
                            push_str(&mut m, func.as_str());
                            push_str(&mut m, "` is nested too deeply to inline");
                            proof {
                                assert(m@ =~= depth_text(func@));
                            }
                            return Err(AeviaError::message(m));
                        }
                        let ghost tsv = lview_list(ts@, 0);
                        proof {
                            lemma_lview_list_index(ts@, 0);
                            lemma_args_len(self.fns(), args@, 0, local0, fuel as nat, Seq::empty());
                        }
                        let mut k: usize = 0;
                        while k < params.len()
                            invariant
                                k <= params@.len(),
                                params@.len() == ts@.len(),
                                tsv == lview_list(ts@, 0),
                                tsv.len() == ts@.len(),
                                forall|j: int| 0 <= j < ts@.len() ==> #[trigger] tsv[j] == lview(ts@[j]),
                                env_view(local@) == local0 + bind_params(params@, tsv).subrange(0, k as int),
                            decreases params@.len() - k,
                        {
                            let ghost before = env_view(local@);
                            env_push(&mut local, &params[k].name, copy_lowered(&ts[k]));
                            proof {
                                let bp = bind_params(params@, tsv);
                                assert(bp[k as int] == (params@[k as int].name@, tsv[k as int]));
                                assert(bp.subrange(0, k + 1) =~= bp.subrange(0, k as int).push(bp[k as int]));
                            }
                            k = k + 1;
                        }
                        proof {
                            let bp = bind_params(params@, tsv);
                            assert(bp.subrange(0, params@.len() as int) =~= bp);
                        }
                        match body {
                            FunctionBody::Expression(b) => self.lower_expr(b, &mut local, fuel - 1),
                            FunctionBody::Block(stmts) => self.lower_block(stmts, &mut local, fuel - 1),
                        }
                    },
                    _ => {
                        let ts = match self.lower_args(args, env, fuel) {
                            Err(x) => return Err(x),
                            Ok(ts) => ts,
                        };
                        Ok(Lowered::Call(copy_string(func), ts))
                    },
                }
            },
            _ => {
                proof {
                    assert(false);
                }
                Err(message3("", "", ""))
            },
        }
    }

    /// Lowers a block: the value of its last statement (`0` when it has
    /// none), its bindings left in `env`.
    pub fn lower_block(&self, stmts: &Vec<Spanned<Stmt>>, env: &mut Vec<(String, Lowered)>, fuel: u32) -> (r: Result<Lowered, AeviaError>)
        ensures
            lowered(r, lower_block_spec(self.fns(), stmts@, 0, env_view(old(env)@), fuel as nat, konst(0)), env_view(final(env)@)),
        decreases fuel, stmts, 0int,
    {
        let ghost whole = lower_block_spec(self.fns(), stmts@, 0, env_view(env@), fuel as nat, konst(0));
        let mut last = konst_exec(0);
        let mut i: usize = 0;
        while i < stmts.len()
            invariant
                whole == lower_block_spec(self.fns(), stmts@, 0, env_view(old(env)@), fuel as nat, konst(0)),
                i <= stmts@.len(),
                whole == lower_block_spec(self.fns(), stmts@, i as int, env_view(env@), fuel as nat, lview(last)),
            decreases stmts@.len() - i,
        {
            proof {
                assert(decreases_to!(*stmts => stmts@));
                assert(decreases_to!(stmts@ => stmts@[i as int]));
                assert(decreases_to!(stmts@[i as int] => stmts@[i as int].node));
            }
            match &stmts[i].node {
                Stmt::Let { name, init, .. } => {
                    match self.lower_expr(init, env, fuel) {
                        Err(x) => return Err(x),
                        Ok(t) => {
                            let c = copy_lowered(&t);
                            env_push(env, name, c);
                            last = t;
                        },
                    }
                },
                Stmt::Assign { target, value } => {
                    match self.lower_expr(value, env, fuel) {
                        Err(x) => return Err(x),
                        Ok(t) => {
                            let c = copy_lowered(&t);
                            env_push(env, target, c);
                            last = t;
                        },
                    }
                },
                Stmt::Expr(inner) => {
                    match self.lower_expr(inner, env, fuel) {
                        Err(x) => return Err(x),
                        Ok(t) => {
                            last = t;
                        },
                    }
                },
                Stmt::Break | Stmt::Continue => {
                    last = konst_exec(0);
                },
            }
            i = i + 1;
        }
        Ok(last)
    }

    /// Lowers the body of a function whose parameters stand for themselves.
    pub fn lower_body(&self, params: &Vec<Param>, body: &FunctionBody) -> (r: Result<Lowered, AeviaError>)
        ensures
            match r {
                Ok(t) => lower_body_spec(self.fns(), params@, *body) == Ok::<LTerm, Seq<char>>(lview(t)),
                Err(x) => x is Message && lower_body_spec(self.fns(), params@, *body) == Err::<LTerm, Seq<char>>(error_text(x)),
            },
    {
        let mut env: Vec<(String, Lowered)> = Vec::new();
        let mut k: usize = 0;
        proof {
            assert(env_view(env@) =~= params_env(params@).subrange(0, 0));
        }
        while k < params.len()
            invariant
                k <= params@.len(),
                env_view(env@) == params_env(params@).subrange(0, k as int),
            decreases params@.len() - k,
        {
            let ghost before = env_view(env@);
            env_push(&mut env, &params[k].name, Lowered::Variable(copy_string(&params[k].name)));
            proof {
                let pe = params_env(params@);
                assert(pe.subrange(0, k + 1) =~= pe.subrange(0, k as int).push(pe[k as int]));
            }
            k = k + 1;
        }
        proof {
            assert(params_env(params@).subrange(0, params@.len() as int) =~= params_env(params@));
        }
        let depth: u32 = if self.functions.len() > 4294967295usize { 4294967295u32 } else { self.functions.len() as u32 };
        proof {
            assert(depth as nat == inline_depth(self.fns()));
        }
        match body {
            FunctionBody::Expression(b) => self.lower_expr(b, &mut env, depth),
            FunctionBody::Block(stmts) => self.lower_block(stmts, &mut env, depth),
        }
    }

}

} // verus!
