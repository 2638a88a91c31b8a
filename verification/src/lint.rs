//! Static analysis: dimensional check results and advisory lints.
use vstd::prelude::*;
use crate::ast::{Expr, FunctionBody, Item, SourceFile, Spanned, Stmt, Visibility};
use crate::modules::{table_view, ImportBindings};
use crate::modules::resolve::{entry_ast, module_index, LoadedModule, ModuleProgram};
use crate::text::{chars_of, chars_eq, copy_string, push_str, str_eq};
use crate::types::checker::{check_with_imports, file_reports, import_env, reports};
use crate::types::error::{code_text, error_view, ErrorView, TypeError};

verus! {

/// Severity of a lint finding.
#[derive(Debug, Clone, Copy, PartialEq, Eq, Structural)]
pub enum LintLevel {
    Error,
    Warning,
}

/// A single lint diagnostic.
#[derive(Debug, Clone)]
pub struct Lint {
    pub level: LintLevel,
    pub message: String,
    /// The file the finding is about.
    pub file: String,
}

/// Model of a lint: level, message and file.
pub type LintView = (LintLevel, Seq<char>, Seq<char>);

/// Model of a list of lints.
pub open spec fn lints_view(l: Seq<Lint>) -> Seq<LintView> {
    l.map_values(|x: Lint| (x.level, x.message@, x.file@))
}

/// Whether some lint is an error.
pub open spec fn has_error(l: Seq<LintView>) -> bool {
    exists|i: int| 0 <= i < l.len() && (#[trigger] l[i]).0 == LintLevel::Error
}

/// Aggregated lint results for one or more files.
#[derive(Debug)]
pub struct LintReport {
    pub lints: Vec<Lint>,
}

impl LintReport {
    /// An empty report.
    pub fn new() -> (r: Self)
        ensures
            r.lints@.len() == 0,
    {
        LintReport { lints: Vec::new() }
    }

    /// Whether no finding is an error.
    pub fn ok(&self) -> (r: bool)
        ensures
            r == !has_error(lints_view(self.lints@)),
    {
        let mut i: usize = 0;
        while i < self.lints.len()
            invariant
                i <= self.lints@.len(),
                forall|k: int| 0 <= k < i ==> (#[trigger] lints_view(self.lints@)[k]).0 != LintLevel::Error,
            decreases self.lints@.len() - i,
        {
            if self.lints[i].level == LintLevel::Error {
                proof {
                    assert(lints_view(self.lints@)[i as int].0 == LintLevel::Error);
                }
                return false;
            }
            i = i + 1;
        }
        true
    }

    /// Record a finding about `file`.
    pub fn push(&mut self, level: LintLevel, file: &str, message: String)
        ensures
            lints_view(final(self).lints@) == lints_view(old(self).lints@).push((level, message@, file@)),
    {
        let mut f = String::new();
        push_str(&mut f, file);
        self.lints.push(Lint { level, message, file: f });
        proof {
            assert(lints_view(self.lints@) =~= lints_view(old(self).lints@).push((level, message@, file@)));
        }
    }
}

// ── Names used by a file ────────────────────────────────────────────────────

/// Whether an expression uses the name `n`: as a variable, a called
/// function, an invoked macro or an accessed field.
pub open spec fn expr_uses(e: Expr, n: Seq<char>) -> bool
    decreases e, 0int,
{
    match e {
        Expr::Variable(name) => name@ == n,
        Expr::Call { func, args } => func@ == n || exprs_use(args@, n, 0),
        Expr::BinaryOp { lhs, rhs, .. } => expr_uses(lhs.node, n) || expr_uses(rhs.node, n),
        Expr::UnaryOp { expr, .. } => expr_uses(expr.node, n),
        Expr::Block(stmts) => stmts_use(stmts@, n, 0),
        Expr::If { cond, then_branch, else_branch } => expr_uses(cond.node, n) || expr_uses(then_branch.node, n)
            || match else_branch {
                Some(eb) => expr_uses(eb.node, n),
                None => false,
            },
        Expr::Loop { body } => stmts_use(body@, n, 0),
        Expr::While { cond, body } => expr_uses(cond.node, n) || stmts_use(body@, n, 0),
        Expr::For { start, end, body, .. } => expr_uses(start.node, n) || expr_uses(end.node, n) || stmts_use(body@, n, 0),
        Expr::Match { scrutinee, arms } => expr_uses(scrutinee.node, n) || arms_use(arms@, n, 0),
        Expr::UnsafeTransmute { expr, .. } => expr_uses(expr.node, n),
        Expr::MacroCall { name, .. } => name@ == n,
        Expr::Print { expr } => expr_uses(expr.node, n),
        Expr::StructLit { fields, .. } => fields_use(fields@, n, 0),
        Expr::FieldAccess { expr, field } => expr_uses(expr.node, n) || field@ == n,
        Expr::Literal { .. } | Expr::Log { .. } => false,
    }
}

/// Whether an expression from index `i` on uses `n`.
pub open spec fn exprs_use(v: Seq<Spanned<Expr>>, n: Seq<char>, i: int) -> bool
    decreases v, v.len() - i,
{
    if i < 0 || i >= v.len() { false } else { expr_uses(v[i].node, n) || exprs_use(v, n, i + 1) }
}

/// Whether a statement from index `i` on uses `n`.
pub open spec fn stmts_use(v: Seq<Spanned<Stmt>>, n: Seq<char>, i: int) -> bool
    decreases v, v.len() - i,
{
    if i < 0 || i >= v.len() { false } else { stmt_uses(v[i].node, n) || stmts_use(v, n, i + 1) }
}

/// Whether a match arm body from index `i` on uses `n`.
pub open spec fn arms_use(v: Seq<crate::ast::MatchArm>, n: Seq<char>, i: int) -> bool
    decreases v, v.len() - i,
{
    if i < 0 || i >= v.len() { false } else { expr_uses(v[i].body.node, n) || arms_use(v, n, i + 1) }
}

/// Whether a struct literal field value from index `i` on uses `n`.
pub open spec fn fields_use(v: Seq<(String, Spanned<Expr>)>, n: Seq<char>, i: int) -> bool
    decreases v, v.len() - i,
{
    if i < 0 || i >= v.len() { false } else { expr_uses(v[i].1.node, n) || fields_use(v, n, i + 1) }
}

/// Whether a statement uses `n`.
pub open spec fn stmt_uses(st: Stmt, n: Seq<char>) -> bool
    decreases st, 0int,
{
    match st {
        Stmt::Let { init, .. } => expr_uses(init.node, n),
        Stmt::Assign { value, .. } => expr_uses(value.node, n),
        Stmt::Expr(e) => expr_uses(e.node, n),
        Stmt::Break | Stmt::Continue => false,
    }
}

/// Whether an item uses `n` (function bodies, constants, inline modules).
pub open spec fn item_uses(item: Item, n: Seq<char>) -> bool
    decreases item, 0int,
{
    match item {
        Item::Module { body: Some(items), .. } => items_use(items@, n, 0),
        Item::Function { body, .. } => match body {
            FunctionBody::Expression(e) => expr_uses(e.node, n),
            FunctionBody::Block(stmts) => stmts_use(stmts@, n, 0),
        },
        Item::Const { value, .. } => expr_uses(value.node, n),
        _ => false,
    }
}

/// Whether an item from index `i` on uses `n`.
pub open spec fn items_use(v: Seq<Spanned<Item>>, n: Seq<char>, i: int) -> bool
    decreases v, v.len() - i,
{
    if i < 0 || i >= v.len() { false } else { item_uses(v[i].node, n) || items_use(v, n, i + 1) }
}

/// Whether an expression uses `n`.
pub fn uses_in_expr(e: &Expr, n: &str) -> (r: bool)
    ensures
        r == expr_uses(*e, n@),
    decreases e, 1int,
{
    match e {
        Expr::Variable(name) => str_eq(name.as_str(), n),
        Expr::Call { func, args } => str_eq(func.as_str(), n) || uses_in_exprs(args, n),
        Expr::BinaryOp { lhs, rhs, .. } => uses_in_expr(&lhs.node, n) || uses_in_expr(&rhs.node, n),
        Expr::UnaryOp { expr, .. } => uses_in_expr(&expr.node, n),
        Expr::Block(stmts) => uses_in_stmts(stmts, n),
        Expr::If { cond, then_branch, else_branch } => uses_in_expr(&cond.node, n)
            || uses_in_expr(&then_branch.node, n) || match else_branch {
                Some(eb) => uses_in_expr(&eb.node, n),
                None => false,
            },
        Expr::Loop { body } => uses_in_stmts(body, n),
        Expr::While { cond, body } => uses_in_expr(&cond.node, n) || uses_in_stmts(body, n),
        Expr::For { start, end, body, .. } => uses_in_expr(&start.node, n) || uses_in_expr(&end.node, n)
            || uses_in_stmts(body, n),
        Expr::Match { scrutinee, arms } => uses_in_expr(&scrutinee.node, n) || uses_in_arms(arms, n),
        Expr::UnsafeTransmute { expr, .. } => uses_in_expr(&expr.node, n),
        Expr::MacroCall { name, .. } => str_eq(name.as_str(), n),
        Expr::Print { expr } => uses_in_expr(&expr.node, n),
        Expr::StructLit { fields, .. } => uses_in_fields(fields, n),
        Expr::FieldAccess { expr, field } => uses_in_expr(&expr.node, n) || str_eq(field.as_str(), n),
        Expr::Literal { .. } | Expr::Log { .. } => false,
    }
}

fn uses_in_exprs(v: &Vec<Spanned<Expr>>, n: &str) -> (r: bool)
    ensures
        r == exprs_use(v@, n@, 0),
    decreases v, 0int,
{
    let mut i: usize = 0;
    while i < v.len()
        invariant
            i <= v@.len(),
            exprs_use(v@, n@, 0) == exprs_use(v@, n@, i as int),
        decreases v@.len() - i,
    {
        proof {
            assert(decreases_to!(*v => v@));
            assert(decreases_to!(v@ => v@[i as int]));
        }
        if uses_in_expr(&v[i].node, n) {
            return true;
        }
        i = i + 1;
    }
    false
}

fn uses_in_stmts(v: &Vec<Spanned<Stmt>>, n: &str) -> (r: bool)
    ensures
        r == stmts_use(v@, n@, 0),
    decreases v, 0int,
{
    let mut i: usize = 0;
    while i < v.len()
        invariant
            i <= v@.len(),
            stmts_use(v@, n@, 0) == stmts_use(v@, n@, i as int),
        decreases v@.len() - i,
    {
        proof {
            assert(decreases_to!(*v => v@));
            assert(decreases_to!(v@ => v@[i as int]));
        }
        if uses_in_stmt(&v[i].node, n) {
            return true;
        }
        i = i + 1;
    }
    false
}

fn uses_in_arms(v: &Vec<crate::ast::MatchArm>, n: &str) -> (r: bool)
    ensures
        r == arms_use(v@, n@, 0),
    decreases v, 0int,
{
    let mut i: usize = 0;
    while i < v.len()
        invariant
            i <= v@.len(),
            arms_use(v@, n@, 0) == arms_use(v@, n@, i as int),
        decreases v@.len() - i,
    {
        proof {
            assert(decreases_to!(*v => v@));
            assert(decreases_to!(v@ => v@[i as int]));
        }
        if uses_in_expr(&v[i].body.node, n) {
            return true;
        }
        i = i + 1;
    }
    false
}

fn uses_in_fields(v: &Vec<(String, Spanned<Expr>)>, n: &str) -> (r: bool)
    ensures
        r == fields_use(v@, n@, 0),
    decreases v, 0int,
{
    let mut i: usize = 0;
    while i < v.len()
        invariant
            i <= v@.len(),
            fields_use(v@, n@, 0) == fields_use(v@, n@, i as int),
        decreases v@.len() - i,
    {
        proof {
            assert(decreases_to!(*v => v@));
            assert(decreases_to!(v@ => v@[i as int]));
        }
        if uses_in_expr(&v[i].1.node, n) {
            return true;
        }
        i = i + 1;
    }
    false
}

fn uses_in_stmt(st: &Stmt, n: &str) -> (r: bool)
    ensures
        r == stmt_uses(*st, n@),
    decreases st, 1int,
{
    match st {
        Stmt::Let { init, .. } => uses_in_expr(&init.node, n),
        Stmt::Assign { value, .. } => uses_in_expr(&value.node, n),
        Stmt::Expr(e) => uses_in_expr(&e.node, n),
        Stmt::Break | Stmt::Continue => false,
    }
}

fn uses_in_item(item: &Item, n: &str) -> (r: bool)
    ensures
        r == item_uses(*item, n@),
    decreases item, 1int,
{
    match item {
        Item::Module { body: Some(items), .. } => uses_in_items(items, n),
        Item::Function { body, .. } => match body {
            FunctionBody::Expression(e) => uses_in_expr(&e.node, n),
            FunctionBody::Block(stmts) => uses_in_stmts(stmts, n),
        },
        Item::Const { value, .. } => uses_in_expr(&value.node, n),
        _ => false,
    }
}

/// Whether some item of the list uses `n`.
pub fn uses_in_items(v: &Vec<Spanned<Item>>, n: &str) -> (r: bool)
    ensures
        r == items_use(v@, n@, 0),
    decreases v, 0int,
{
    let mut i: usize = 0;
    while i < v.len()
        invariant
            i <= v@.len(),
            items_use(v@, n@, 0) == items_use(v@, n@, i as int),
        decreases v@.len() - i,
    {
        proof {
            assert(decreases_to!(*v => v@));
            assert(decreases_to!(v@ => v@[i as int]));
        }
        if uses_in_item(&v[i].node, n) {
            return true;
        }
        i = i + 1;
    }
    false
}


// ── Unsafe transmutes ───────────────────────────────────────────────────────

/// The number of `unsafe transmute` expressions in an expression.
pub open spec fn expr_transmutes(e: Expr) -> nat
    decreases e, 0int,
{
    match e {
        Expr::BinaryOp { lhs, rhs, .. } => expr_transmutes(lhs.node) + expr_transmutes(rhs.node),
        Expr::UnaryOp { expr, .. } => expr_transmutes(expr.node),
        Expr::Call { args, .. } => exprs_transmutes(args@, 0),
        Expr::Block(stmts) => stmts_transmutes(stmts@, 0),
        Expr::If { cond, then_branch, else_branch } => expr_transmutes(cond.node) + expr_transmutes(then_branch.node)
            + match else_branch {
                Some(eb) => expr_transmutes(eb.node),
                None => 0,
            },
        Expr::Loop { body } => stmts_transmutes(body@, 0),
        Expr::While { cond, body } => expr_transmutes(cond.node) + stmts_transmutes(body@, 0),
        Expr::For { start, end, body, .. } => expr_transmutes(start.node) + expr_transmutes(end.node)
            + stmts_transmutes(body@, 0),
        Expr::Match { scrutinee, arms } => expr_transmutes(scrutinee.node) + arms_transmutes(arms@, 0),
        Expr::UnsafeTransmute { expr, .. } => 1 + expr_transmutes(expr.node),
        Expr::Print { expr } => expr_transmutes(expr.node),
        Expr::StructLit { fields, .. } => fields_transmutes(fields@, 0),
        Expr::FieldAccess { expr, .. } => expr_transmutes(expr.node),
        Expr::Literal { .. } | Expr::Variable(_) | Expr::MacroCall { .. } | Expr::Log { .. } => 0,
    }
}

/// Transmutes in the expressions from index `i` on.
pub open spec fn exprs_transmutes(v: Seq<Spanned<Expr>>, i: int) -> nat
    decreases v, v.len() - i,
{
    if i < 0 || i >= v.len() { 0 } else { expr_transmutes(v[i].node) + exprs_transmutes(v, i + 1) }
}

/// Transmutes in the statements from index `i` on.
pub open spec fn stmts_transmutes(v: Seq<Spanned<Stmt>>, i: int) -> nat
    decreases v, v.len() - i,
{
    if i < 0 || i >= v.len() { 0 } else { stmt_transmutes(v[i].node) + stmts_transmutes(v, i + 1) }
}

/// Transmutes in the match arm bodies from index `i` on.
pub open spec fn arms_transmutes(v: Seq<crate::ast::MatchArm>, i: int) -> nat
    decreases v, v.len() - i,
{
    if i < 0 || i >= v.len() { 0 } else { expr_transmutes(v[i].body.node) + arms_transmutes(v, i + 1) }
}

/// Transmutes in the struct literal field values from index `i` on.
pub open spec fn fields_transmutes(v: Seq<(String, Spanned<Expr>)>, i: int) -> nat
    decreases v, v.len() - i,
{
    if i < 0 || i >= v.len() { 0 } else { expr_transmutes(v[i].1.node) + fields_transmutes(v, i + 1) }
}

/// Transmutes in a statement.
pub open spec fn stmt_transmutes(st: Stmt) -> nat
    decreases st, 0int,
{
    match st {
        Stmt::Let { init, .. } => expr_transmutes(init.node),
        Stmt::Assign { value, .. } => expr_transmutes(value.node),
        Stmt::Expr(e) => expr_transmutes(e.node),
        Stmt::Break | Stmt::Continue => 0,
    }
}

/// Transmutes in an item: function bodies, constants and inline modules.
pub open spec fn item_transmutes(item: Item) -> nat
    decreases item, 0int,
{
    match item {
        Item::Module { body: Some(items), .. } => items_transmutes(items@, 0),
        Item::Function { body, .. } => match body {
            FunctionBody::Expression(e) => expr_transmutes(e.node),
            FunctionBody::Block(stmts) => stmts_transmutes(stmts@, 0),
        },
        Item::Const { value, .. } => expr_transmutes(value.node),
        _ => 0,
    }
}

/// Transmutes in the items from index `i` on.
pub open spec fn items_transmutes(v: Seq<Spanned<Item>>, i: int) -> nat
    decreases v, v.len() - i,
{
    if i < 0 || i >= v.len() { 0 } else { item_transmutes(v[i].node) + items_transmutes(v, i + 1) }
}

/// `n` copies of `x`.
pub open spec fn repeat(x: LintView, n: nat) -> Seq<LintView> {
    Seq::new(n, |i: int| x)
}

pub proof fn lemma_repeat_add(x: LintView, a: nat, b: nat)
    ensures
        repeat(x, a) + repeat(x, b) == repeat(x, a + b),
{
    assert(repeat(x, a) + repeat(x, b) =~= repeat(x, a + b));
}

/// The warning about an unsafe transmute in `file`.
pub open spec fn transmute_warning(file: Seq<char>) -> LintView {
    (LintLevel::Warning, "unsafe `transmute` bypasses dimensional safety guarantees"@, file)
}

/// A report whose lints grew by `n` transmute warnings about `file`.
pub open spec fn grew_by(old: Seq<Lint>, new: Seq<Lint>, file: Seq<char>, n: nat) -> bool {
    lints_view(new) == lints_view(old) + repeat(transmute_warning(file), n)
}

proof fn lemma_grew_trans(a: Seq<Lint>, b: Seq<Lint>, c: Seq<Lint>, file: Seq<char>, x: nat, y: nat)
    requires
        grew_by(a, b, file, x),
        grew_by(b, c, file, y),
    ensures
        grew_by(a, c, file, x + y),
{
    lemma_repeat_add(transmute_warning(file), x, y);
    assert(lints_view(a) + repeat(transmute_warning(file), x) + repeat(transmute_warning(file), y)
        =~= lints_view(a) + (repeat(transmute_warning(file), x) + repeat(transmute_warning(file), y)));
}

proof fn lemma_grew_zero(a: Seq<Lint>, file: Seq<char>)
    ensures
        grew_by(a, a, file, 0),
{
    assert(lints_view(a) + repeat(transmute_warning(file), 0) =~= lints_view(a));
}

fn warn_transmute(path: &str, report: &mut LintReport)
    ensures
        grew_by(old(report).lints@, final(report).lints@, path@, 1),
{
    let mut m = String::new();
    push_str(&mut m, "unsafe `transmute` bypasses dimensional safety guarantees");
    report.push(LintLevel::Warning, path, m);
    proof {
        assert(lints_view(report.lints@) =~= lints_view(old(report).lints@) + repeat(transmute_warning(path@), 1));
    }
}

/// Report each `unsafe transmute` in an expression.
fn walk_expr(path: &str, expr: &Expr, report: &mut LintReport)
    ensures
        grew_by(old(report).lints@, final(report).lints@, path@, expr_transmutes(*expr)),
    decreases expr, 1int,
{
    let ghost l0 = report.lints@;
    proof {
        lemma_grew_zero(l0, path@);
    }
    match expr {
        Expr::BinaryOp { lhs, rhs, .. } => {
            walk_expr(path, &lhs.node, report);
            let ghost l1 = report.lints@;
            walk_expr(path, &rhs.node, report);
            proof {
                lemma_grew_trans(l0, l1, report.lints@, path@, expr_transmutes(lhs.node), expr_transmutes(rhs.node));
            }
        },
        Expr::UnaryOp { expr, .. } => walk_expr(path, &expr.node, report),
        Expr::Call { args, .. } => walk_exprs(path, args, report),
        Expr::Block(stmts) => walk_stmts(path, stmts, report),
        Expr::If { cond, then_branch, else_branch } => {
            walk_expr(path, &cond.node, report);
            let ghost l1 = report.lints@;
            walk_expr(path, &then_branch.node, report);
            let ghost l2 = report.lints@;
            proof {
                lemma_grew_trans(l0, l1, l2, path@, expr_transmutes(cond.node), expr_transmutes(then_branch.node));
                lemma_grew_zero(l2, path@);
            }
            match else_branch {
                Some(eb) => walk_expr(path, &eb.node, report),
                None => {},
            }
            proof {
                let k: nat = match else_branch { Some(eb) => expr_transmutes(eb.node), None => 0 };
                lemma_grew_trans(l0, l2, report.lints@, path@, expr_transmutes(cond.node) + expr_transmutes(then_branch.node), k);
            }
        },
        Expr::Loop { body } => walk_stmts(path, body, report),
        Expr::While { cond, body } => {
            walk_expr(path, &cond.node, report);
            let ghost l1 = report.lints@;
            walk_stmts(path, body, report);
            proof {
                lemma_grew_trans(l0, l1, report.lints@, path@, expr_transmutes(cond.node), stmts_transmutes(body@, 0));
            }
        },
        Expr::For { start, end, body, .. } => {
            walk_expr(path, &start.node, report);
            let ghost l1 = report.lints@;
            walk_expr(path, &end.node, report);
            let ghost l2 = report.lints@;
            walk_stmts(path, body, report);
            proof {
                lemma_grew_trans(l0, l1, l2, path@, expr_transmutes(start.node), expr_transmutes(end.node));
                lemma_grew_trans(l0, l2, report.lints@, path@, expr_transmutes(start.node) + expr_transmutes(end.node),
                    stmts_transmutes(body@, 0));
            }
        },
        Expr::Match { scrutinee, arms } => {
            walk_expr(path, &scrutinee.node, report);
            let ghost l1 = report.lints@;
            walk_arms(path, arms, report);
            proof {
                lemma_grew_trans(l0, l1, report.lints@, path@, expr_transmutes(scrutinee.node), arms_transmutes(arms@, 0));
            }
        },
        Expr::UnsafeTransmute { expr, .. } => {
            warn_transmute(path, report);
            let ghost l1 = report.lints@;
            walk_expr(path, &expr.node, report);
            proof {
                lemma_grew_trans(l0, l1, report.lints@, path@, 1, expr_transmutes(expr.node));
            }
        },
        Expr::Print { expr } => walk_expr(path, &expr.node, report),
        Expr::StructLit { fields, .. } => walk_fields(path, fields, report),
        Expr::FieldAccess { expr, .. } => walk_expr(path, &expr.node, report),
        Expr::Literal { .. } | Expr::Variable(_) | Expr::MacroCall { .. } | Expr::Log { .. } => {},
    }
}

fn walk_exprs(path: &str, v: &Vec<Spanned<Expr>>, report: &mut LintReport)
    ensures
        grew_by(old(report).lints@, final(report).lints@, path@, exprs_transmutes(v@, 0)),
    decreases v, 0int,
{
    let ghost l0 = report.lints@;
    proof {
        lemma_grew_zero(l0, path@);
    }
    let mut i: usize = 0;
    while i < v.len()
        invariant
            i <= v@.len(),
            grew_by(l0, report.lints@, path@, (exprs_transmutes(v@, 0) - exprs_transmutes(v@, i as int)) as nat),
            exprs_transmutes(v@, 0) >= exprs_transmutes(v@, i as int),
        decreases v@.len() - i,
    {
        proof {
            assert(decreases_to!(*v => v@));
            assert(decreases_to!(v@ => v@[i as int]));
        }
        let ghost l1 = report.lints@;
        walk_expr(path, &v[i].node, report);
        proof {
            lemma_grew_trans(l0, l1, report.lints@, path@, (exprs_transmutes(v@, 0) - exprs_transmutes(v@, i as int)) as nat,
                expr_transmutes(v@[i as int].node));
        }
        i = i + 1;
    }
}

fn walk_stmts(path: &str, v: &Vec<Spanned<Stmt>>, report: &mut LintReport)
    ensures
        grew_by(old(report).lints@, final(report).lints@, path@, stmts_transmutes(v@, 0)),
    decreases v, 0int,
{
    let ghost l0 = report.lints@;
    proof {
        lemma_grew_zero(l0, path@);
    }
    let mut i: usize = 0;
    while i < v.len()
        invariant
            i <= v@.len(),
            grew_by(l0, report.lints@, path@, (stmts_transmutes(v@, 0) - stmts_transmutes(v@, i as int)) as nat),
            stmts_transmutes(v@, 0) >= stmts_transmutes(v@, i as int),
        decreases v@.len() - i,
    {
        proof {
            assert(decreases_to!(*v => v@));
            assert(decreases_to!(v@ => v@[i as int]));
        }
        let ghost l1 = report.lints@;
        walk_stmt(path, &v[i].node, report);
        proof {
            lemma_grew_trans(l0, l1, report.lints@, path@, (stmts_transmutes(v@, 0) - stmts_transmutes(v@, i as int)) as nat,
                stmt_transmutes(v@[i as int].node));
        }
        i = i + 1;
    }
}

fn walk_arms(path: &str, v: &Vec<crate::ast::MatchArm>, report: &mut LintReport)
    ensures
        grew_by(old(report).lints@, final(report).lints@, path@, arms_transmutes(v@, 0)),
    decreases v, 0int,
{
    let ghost l0 = report.lints@;
    proof {
        lemma_grew_zero(l0, path@);
    }
    let mut i: usize = 0;
    while i < v.len()
        invariant
            i <= v@.len(),
            grew_by(l0, report.lints@, path@, (arms_transmutes(v@, 0) - arms_transmutes(v@, i as int)) as nat),
            arms_transmutes(v@, 0) >= arms_transmutes(v@, i as int),
        decreases v@.len() - i,
    {
        proof {
            assert(decreases_to!(*v => v@));
            assert(decreases_to!(v@ => v@[i as int]));
        }
        let ghost l1 = report.lints@;
        walk_expr(path, &v[i].body.node, report);
        proof {
            lemma_grew_trans(l0, l1, report.lints@, path@, (arms_transmutes(v@, 0) - arms_transmutes(v@, i as int)) as nat,
                expr_transmutes(v@[i as int].body.node));
        }
        i = i + 1;
    }
}

fn walk_fields(path: &str, v: &Vec<(String, Spanned<Expr>)>, report: &mut LintReport)
    ensures
        grew_by(old(report).lints@, final(report).lints@, path@, fields_transmutes(v@, 0)),
    decreases v, 0int,
{
    let ghost l0 = report.lints@;
    proof {
        lemma_grew_zero(l0, path@);
    }
    let mut i: usize = 0;
    while i < v.len()
        invariant
            i <= v@.len(),
            grew_by(l0, report.lints@, path@, (fields_transmutes(v@, 0) - fields_transmutes(v@, i as int)) as nat),
            fields_transmutes(v@, 0) >= fields_transmutes(v@, i as int),
        decreases v@.len() - i,
    {
        proof {
            assert(decreases_to!(*v => v@));
            assert(decreases_to!(v@ => v@[i as int]));
        }
        let ghost l1 = report.lints@;
        walk_expr(path, &v[i].1.node, report);
        proof {
            lemma_grew_trans(l0, l1, report.lints@, path@, (fields_transmutes(v@, 0) - fields_transmutes(v@, i as int)) as nat,
                expr_transmutes(v@[i as int].1.node));
        }
        i = i + 1;
    }
}

fn walk_stmt(path: &str, st: &Stmt, report: &mut LintReport)
    ensures
        grew_by(old(report).lints@, final(report).lints@, path@, stmt_transmutes(*st)),
    decreases st, 1int,
{
    match st {
        Stmt::Let { init, .. } => walk_expr(path, &init.node, report),
        Stmt::Assign { value, .. } => walk_expr(path, &value.node, report),
        Stmt::Expr(e) => walk_expr(path, &e.node, report),
        Stmt::Break | Stmt::Continue => {
            proof {
                lemma_grew_zero(report.lints@, path@);
            }
        },
    }
}

fn walk_item(path: &str, item: &Item, report: &mut LintReport)
    ensures
        grew_by(old(report).lints@, final(report).lints@, path@, item_transmutes(*item)),
    decreases item, 1int,
{
    match item {
        Item::Module { body: Some(items), .. } => walk_items(path, items, report),
        Item::Function { body, .. } => match body {
            FunctionBody::Expression(e) => walk_expr(path, &e.node, report),
            FunctionBody::Block(stmts) => walk_stmts(path, stmts, report),
        },
        Item::Const { value, .. } => walk_expr(path, &value.node, report),
        _ => {
            proof {
                lemma_grew_zero(report.lints@, path@);
            }
        },
    }
}

fn walk_items(path: &str, v: &Vec<Spanned<Item>>, report: &mut LintReport)
    ensures
        grew_by(old(report).lints@, final(report).lints@, path@, items_transmutes(v@, 0)),
    decreases v, 0int,
{
    let ghost l0 = report.lints@;
    proof {
        lemma_grew_zero(l0, path@);
    }
    let mut i: usize = 0;
    while i < v.len()
        invariant
            i <= v@.len(),
            grew_by(l0, report.lints@, path@, (items_transmutes(v@, 0) - items_transmutes(v@, i as int)) as nat),
            items_transmutes(v@, 0) >= items_transmutes(v@, i as int),
        decreases v@.len() - i,
    {
        proof {
            assert(decreases_to!(*v => v@));
            assert(decreases_to!(v@ => v@[i as int]));
        }
        let ghost l1 = report.lints@;
        walk_item(path, &v[i].node, report);
        proof {
            lemma_grew_trans(l0, l1, report.lints@, path@, (items_transmutes(v@, 0) - items_transmutes(v@, i as int)) as nat,
                item_transmutes(v@[i as int].node));
        }
        i = i + 1;
    }
}


// ── Findings of a file ──────────────────────────────────────────────────────

/// The error finding of each type error, in order: its code tag and message.
pub open spec fn error_lints(path: Seq<char>, errs: Seq<ErrorView>) -> Seq<LintView> {
    errs.map_values(|e: ErrorView| (LintLevel::Error, code_text(e.code) + seq![' '] + e.message, path))
}

/// A warning for each imported function (in import order) that no item uses.
pub open spec fn unused_imports(path: Seq<char>, fns: Seq<(Seq<char>, crate::types::dim::DimVector)>, items: Seq<Spanned<Item>>) -> Seq<LintView>
    decreases fns.len(),
{
    if fns.len() == 0 {
        Seq::empty()
    } else {
        unused_imports(path, fns.drop_last(), items) + if !items_use(items, fns.last().0, 0) {
            seq![(LintLevel::Warning, "unused import `"@ + fns.last().0 + "`"@, path)]
        } else {
            Seq::empty()
        }
    }
}

/// A name is used by a binary operation exactly when either operand uses it.
pub proof fn lemma_operand_uses(op: crate::ast::BinOp, lhs: Spanned<Expr>, rhs: Spanned<Expr>, n: Seq<char>)
    ensures
        expr_uses(Expr::BinaryOp { op, lhs: Box::new(lhs), rhs: Box::new(rhs) }, n)
            == (expr_uses(lhs.node, n) || expr_uses(rhs.node, n)),
{
}

/// A name that one expression of a list uses is used by the list.
proof fn lemma_expr_use_counts(v: Seq<Spanned<Expr>>, n: Seq<char>, i: int, j: int)
    requires
        0 <= j <= i < v.len(),
        expr_uses(v[i].node, n),
    ensures
        exprs_use(v, n, j),
    decreases i - j,
{
    if j < i {
        lemma_expr_use_counts(v, n, i, j + 1);
    }
}

/// A name used by an operand, an argument, a condition, a branch, a bound
/// or a scrutinee of an expression is used by the expression, and so is the
/// name of a called function or of an accessed field.
pub proof fn lemma_enclosing_expr_uses(e: Expr, n: Seq<char>)
    ensures
        match e {
            Expr::BinaryOp { lhs, rhs, .. } => expr_uses(lhs.node, n) || expr_uses(rhs.node, n) ==> expr_uses(e, n),
            Expr::UnaryOp { expr, .. } => expr_uses(expr.node, n) ==> expr_uses(e, n),
            Expr::Call { func, args } => (func@ == n || exists|i: int| 0 <= i < args@.len() && expr_uses(#[trigger] args@[i].node, n))
                ==> expr_uses(e, n),
            Expr::If { cond, then_branch, else_branch } => (expr_uses(cond.node, n) || expr_uses(then_branch.node, n)
                || (else_branch is Some && expr_uses(else_branch->0.node, n))) ==> expr_uses(e, n),
            Expr::While { cond, .. } => expr_uses(cond.node, n) ==> expr_uses(e, n),
            Expr::For { start, end, .. } => expr_uses(start.node, n) || expr_uses(end.node, n) ==> expr_uses(e, n),
            Expr::Match { scrutinee, .. } => expr_uses(scrutinee.node, n) ==> expr_uses(e, n),
            Expr::UnsafeTransmute { expr, .. } => expr_uses(expr.node, n) ==> expr_uses(e, n),
            Expr::Print { expr } => expr_uses(expr.node, n) ==> expr_uses(e, n),
            Expr::FieldAccess { expr, field } => expr_uses(expr.node, n) || field@ == n ==> expr_uses(e, n),
            Expr::Variable(name) => name@ == n ==> expr_uses(e, n),
            _ => true,
        },
{
    if let Expr::Call { func, args } = e {
        if exists|i: int| 0 <= i < args@.len() && expr_uses(#[trigger] args@[i].node, n) {
            let i = choose|i: int| 0 <= i < args@.len() && expr_uses(#[trigger] args@[i].node, n);
            lemma_expr_use_counts(args@, n, i, 0);
        }
    }
}

/// A name that one statement of a list uses is used by the list.
proof fn lemma_stmt_use_counts(v: Seq<Spanned<Stmt>>, n: Seq<char>, i: int, j: int)
    requires
        0 <= j <= i < v.len(),
        stmt_uses(v[i].node, n),
    ensures
        stmts_use(v, n, j),
    decreases i - j,
{
    if j < i {
        lemma_stmt_use_counts(v, n, i, j + 1);
    }
}

/// A name used by a statement of a block, of a loop's body, of a `while`
/// body or of a `for` body is used by that expression; a statement uses
/// the names its expression uses.
pub proof fn lemma_body_uses(e: Expr, n: Seq<char>, i: int)
    ensures
        match e {
            Expr::Block(stmts) => 0 <= i < stmts@.len() && stmt_uses(stmts@[i].node, n) ==> expr_uses(e, n),
            Expr::Loop { body } => 0 <= i < body@.len() && stmt_uses(body@[i].node, n) ==> expr_uses(e, n),
            Expr::While { body, .. } => 0 <= i < body@.len() && stmt_uses(body@[i].node, n) ==> expr_uses(e, n),
            Expr::For { body, .. } => 0 <= i < body@.len() && stmt_uses(body@[i].node, n) ==> expr_uses(e, n),
            _ => true,
        },
        forall|x: Spanned<Expr>| expr_uses(x.node, n) ==> #[trigger] stmt_uses(Stmt::Expr(x), n),
{
    match e {
        Expr::Block(stmts) => if 0 <= i < stmts@.len() && stmt_uses(stmts@[i].node, n) {
            lemma_stmt_use_counts(stmts@, n, i, 0);
        },
        Expr::Loop { body } => if 0 <= i < body@.len() && stmt_uses(body@[i].node, n) {
            lemma_stmt_use_counts(body@, n, i, 0);
        },
        Expr::While { body, .. } => if 0 <= i < body@.len() && stmt_uses(body@[i].node, n) {
            lemma_stmt_use_counts(body@, n, i, 0);
        },
        Expr::For { body, .. } => if 0 <= i < body@.len() && stmt_uses(body@[i].node, n) {
            lemma_stmt_use_counts(body@, n, i, 0);
        },
        _ => {},
    }
}

/// A name that one item of a list uses is used by the list.
proof fn lemma_item_use_counts(items: Seq<Spanned<Item>>, n: Seq<char>, i: int, j: int)
    requires
        0 <= j <= i < items.len(),
        item_uses(items[i].node, n),
    ensures
        items_use(items, n, j),
    decreases i - j,
{
    if j < i {
        lemma_item_use_counts(items, n, i, j + 1);
    }
}

/// The text of an unused-import warning names the import it is about.
proof fn lemma_unused_text_names(a: Seq<char>, b: Seq<char>)
    requires
        "unused import `"@ + a + "`"@ == "unused import `"@ + b + "`"@,
    ensures
        a == b,
{
    reveal_strlit("unused import `");
    reveal_strlit("`");
    let ta = "unused import `"@ + a + "`"@;
    let tb = "unused import `"@ + b + "`"@;
    assert(ta.len() == 15 + a.len() + 1);
    assert(tb.len() == 15 + b.len() + 1);
    assert(a =~= ta.subrange(15, 15 + a.len() as int));
    assert(b =~= tb.subrange(15, 15 + b.len() as int));
}

/// An imported function that some item of the file uses, anywhere in a
/// function body, a constant or an inline module (such as in either operand
/// of a binary operation), gets no unused-import warning.
pub proof fn lemma_used_import_not_reported(
    path: Seq<char>,
    fns: Seq<(Seq<char>, crate::types::dim::DimVector)>,
    items: Seq<Spanned<Item>>,
    n: Seq<char>,
    i: int,
)
    requires
        0 <= i < items.len(),
        item_uses(items[i].node, n),
    ensures
        forall|k: int| 0 <= k < unused_imports(path, fns, items).len()
            ==> (#[trigger] unused_imports(path, fns, items)[k]).1 != "unused import `"@ + n + "`"@,
    decreases fns.len(),
{
    lemma_item_use_counts(items, n, i, 0);
    if fns.len() > 0 {
        lemma_used_import_not_reported(path, fns.drop_last(), items, n, i);
        let front = unused_imports(path, fns.drop_last(), items);
        let all = unused_imports(path, fns, items);
        assert forall|k: int| 0 <= k < all.len() implies (#[trigger] all[k]).1 != "unused import `"@ + n + "`"@ by {
            if k < front.len() {
                assert(all[k] == front[k]);
            } else {
                assert(!items_use(items, fns.last().0, 0));
                assert(all[k].1 == "unused import `"@ + fns.last().0 + "`"@);
                if all[k].1 == "unused import `"@ + n + "`"@ {
                    lemma_unused_text_names(fns.last().0, n);
                }
            }
        }
    }
}

/// The warnings of an item: a public function other than `main` without a
/// declared return type, and each unsafe transmute it contains.
pub open spec fn item_lints(path: Seq<char>, item: Item) -> Seq<LintView> {
    (match item {
        Item::Function { name, visibility, return_type, .. } =>
            if visibility == Visibility::Public && return_type is None && name@ != "main"@ {
                seq![(LintLevel::Warning, "public function `"@ + name@ + "` has no return type annotation"@, path)]
            } else {
                Seq::empty()
            },
        _ => Seq::empty(),
    }) + repeat(transmute_warning(path), item_transmutes(item))
}

/// The warnings of the items from index `i` on.
pub open spec fn items_lints(path: Seq<char>, items: Seq<Spanned<Item>>, i: int) -> Seq<LintView>
    decreases items.len() - i,
{
    if i < 0 || i >= items.len() { Seq::empty() } else { item_lints(path, items[i].node) + items_lints(path, items, i + 1) }
}

/// All findings of a file checked with errors `errs`: the errors, then the
/// unused imports, then the item warnings.
pub open spec fn source_lints(path: Seq<char>, errs: Seq<ErrorView>, file: SourceFile, imports: ImportBindings) -> Seq<LintView> {
    error_lints(path, errs) + unused_imports(path, table_view(imports.functions@), file.items@) + items_lints(path, file.items@, 0)
}

/// The findings after the errors are all warnings.
pub proof fn lemma_only_errors_are_errors(path: Seq<char>, errs: Seq<ErrorView>, file: SourceFile, imports: ImportBindings)
    ensures
        has_error(source_lints(path, errs, file, imports)) <==> errs.len() > 0,
{
    let l = source_lints(path, errs, file, imports);
    let el = error_lints(path, errs);
    let rest = unused_imports(path, table_view(imports.functions@), file.items@) + items_lints(path, file.items@, 0);
    lemma_unused_are_warnings(path, table_view(imports.functions@), file.items@);
    lemma_items_lints_are_warnings(path, file.items@, 0);
    assert(l =~= el + rest);
    if errs.len() > 0 {
        assert(l[0].0 == LintLevel::Error);
    }
    if has_error(l) {
        let i = choose|i: int| 0 <= i < l.len() && (#[trigger] l[i]).0 == LintLevel::Error;
        if i >= el.len() {
            assert(rest[i - el.len()].0 == LintLevel::Warning);
        }
    }
}

pub proof fn lemma_unused_are_warnings(path: Seq<char>, fns: Seq<(Seq<char>, crate::types::dim::DimVector)>, items: Seq<Spanned<Item>>)
    ensures
        forall|i: int| 0 <= i < unused_imports(path, fns, items).len() ==> (#[trigger] unused_imports(path, fns, items)[i]).0 == LintLevel::Warning,
    decreases fns.len(),
{
    if fns.len() > 0 {
        lemma_unused_are_warnings(path, fns.drop_last(), items);
    }
}

pub proof fn lemma_items_lints_are_warnings(path: Seq<char>, items: Seq<Spanned<Item>>, i: int)
    ensures
        forall|k: int| 0 <= k < items_lints(path, items, i).len() ==> (#[trigger] items_lints(path, items, i)[k]).0 == LintLevel::Warning,
    decreases items.len() - i,
{
    if 0 <= i < items.len() {
        lemma_items_lints_are_warnings(path, items, i + 1);
    }
}

/// Record the findings of a file given the checker's errors for it.
pub fn lint_with_errors(path: &str, errors: &Vec<TypeError>, file: &SourceFile, imports: &ImportBindings, report: &mut LintReport)
    ensures
        lints_view(final(report).lints@) == lints_view(old(report).lints@) + source_lints(path@, reports(errors@), *file, *imports),
{
    let ghost l0 = lints_view(report.lints@);
    let mut i: usize = 0;
    while i < errors.len()
        invariant
            i <= errors@.len(),
            lints_view(report.lints@) == l0 + error_lints(path@, reports(errors@.subrange(0, i as int))),
        decreases errors@.len() - i,
    {
        let m = errors[i].display_string();
        report.push(LintLevel::Error, path, m);
        proof {
            assert(reports(errors@.subrange(0, i + 1)) =~= reports(errors@.subrange(0, i as int)).push(error_view(errors@[i as int])));
            assert(error_lints(path@, reports(errors@.subrange(0, i + 1))) =~= error_lints(path@, reports(errors@.subrange(0, i as int))).push(
                (LintLevel::Error, code_text(errors@[i as int].code) + seq![' '] + errors@[i as int].message@, path@)));
        }
        i = i + 1;
    }
    proof {
        assert(errors@.subrange(0, errors@.len() as int) =~= errors@);
    }
    let ghost l1 = lints_view(report.lints@);
    let mut j: usize = 0;
    proof {
        assert(table_view(imports.functions@).subrange(0, 0) =~= Seq::<(Seq<char>, crate::types::dim::DimVector)>::empty());
        assert(l1 =~= l1 + unused_imports(path@, table_view(imports.functions@).subrange(0, 0), file.items@));
    }
    while j < imports.functions.len()
        invariant
            j <= imports.functions@.len(),
            lints_view(report.lints@) == l1 + unused_imports(path@, table_view(imports.functions@).subrange(0, j as int), file.items@),
        decreases imports.functions@.len() - j,
    {
        let ghost sub = table_view(imports.functions@).subrange(0, j + 1);
        proof {
            assert(sub.drop_last() =~= table_view(imports.functions@).subrange(0, j as int));
            assert(sub.last().0 == imports.functions@[j as int].0@);
        }
        let ghost before = lints_view(report.lints@);
        if !uses_in_items(&file.items, imports.functions[j].0.as_str()) {
            let mut m = String::new();
            push_str(&mut m, "unused import `");
            push_str(&mut m, imports.functions[j].0.as_str());
            push_str(&mut m, "`");
            report.push(LintLevel::Warning, path, m);
        }
        proof {
            assert(lints_view(report.lints@) =~= l1 + unused_imports(path@, sub, file.items@));
        }
        j = j + 1;
    }
    proof {
        assert(table_view(imports.functions@).subrange(0, imports.functions@.len() as int) =~= table_view(imports.functions@));
    }
    let ghost l2 = lints_view(report.lints@);
    let mut k: usize = 0;
    proof {
        assert(l2 + items_lints(path@, file.items@, 0) =~= l2 + items_lints(path@, file.items@, 0));
    }
    while k < file.items.len()
        invariant
            k <= file.items@.len(),
            l2 + items_lints(path@, file.items@, 0) == lints_view(report.lints@) + items_lints(path@, file.items@, k as int),
        decreases file.items@.len() - k,
    {
        let ghost before = report.lints@;
        match &file.items[k].node {
            Item::Function { name, visibility, return_type, .. } => {
                if *visibility == Visibility::Public && return_type.is_none() && !str_eq(name.as_str(), "main") {
                    let mut m = String::new();
                    push_str(&mut m, "public function `");
                    push_str(&mut m, name.as_str());
                    push_str(&mut m, "` has no return type annotation");
                    report.push(LintLevel::Warning, path, m);
                }
            },
            _ => {},
        }
        let ghost mid = report.lints@;
        walk_item(path, &file.items[k].node, report);
        proof {
            let item = file.items@[k as int].node;
            let first: Seq<LintView> = match item {
                Item::Function { name, visibility, return_type, .. } =>
                    if visibility == Visibility::Public && return_type is None && name@ != "main"@ {
                        seq![(LintLevel::Warning, "public function `"@ + name@ + "` has no return type annotation"@, path@)]
                    } else {
                        Seq::empty()
                    },
                _ => Seq::empty(),
            };
            assert(lints_view(mid) =~= lints_view(before) + first);
            assert(lints_view(report.lints@) =~= lints_view(before) + item_lints(path@, item));
            assert(lints_view(before) + items_lints(path@, file.items@, k as int)
                =~= lints_view(report.lints@) + items_lints(path@, file.items@, k + 1));
        }
        k = k + 1;
    }
    proof {
        assert(lints_view(report.lints@) + items_lints(path@, file.items@, k as int) =~= lints_view(report.lints@));
        assert(lints_view(report.lints@) =~= l0 + source_lints(path@, reports(errors@), *file, *imports));
    }
}

/// Check a file and record its findings: the checker's errors, then the
/// unused imports, then the item warnings.  The findings hold an error
/// exactly when the checker reports one.
pub fn lint_source(path: &str, file: &SourceFile, imports: &ImportBindings, report: &mut LintReport)
    ensures
        lints_view(final(report).lints@) == lints_view(old(report).lints@)
            + source_lints(path@, file_reports(import_env(*imports), file.items@), *file, *imports),
        has_error(source_lints(path@, file_reports(import_env(*imports), file.items@), *file, *imports))
            <==> file_reports(import_env(*imports), file.items@).len() > 0,
{
    let result = check_with_imports(file, imports);
    lint_with_errors(path, &result.errors, file, imports, report);
    proof {
        lemma_only_errors_are_errors(path@, reports(result.errors@), *file, *imports);
    }
}

/// Whether some item is a function named `main`.
pub open spec fn has_main(items: Seq<Spanned<Item>>) -> bool {
    exists|i: int| 0 <= i < items.len() && ((#[trigger] items[i]).node matches Item::Function { name, .. } && name@ == "main"@)
}

/// Warn when the entry file has no `main` function.
pub fn lint_entry_conventions(entry: &str, file: &SourceFile, report: &mut LintReport)
    ensures
        has_main(file.items@) ==> final(report).lints@ == old(report).lints@,
        !has_main(file.items@) ==> lints_view(final(report).lints@) == lints_view(old(report).lints@).push(
            (LintLevel::Warning, "entry file has no `main` function"@, entry@)),
{
    let mut i: usize = 0;
    while i < file.items.len()
        invariant
            i <= file.items@.len(),
            forall|k: int| 0 <= k < i ==> !((#[trigger] file.items@[k]).node matches Item::Function { name, .. } && name@ == "main"@),
        decreases file.items@.len() - i,
    {
        match &file.items[i].node {
            Item::Function { name, .. } => {
                if str_eq(name.as_str(), "main") {
                    return;
                }
            },
            _ => {},
        }
        i = i + 1;
    }
    let mut m = String::new();
    push_str(&mut m, "entry file has no `main` function");
    report.push(LintLevel::Warning, entry, m);
}

/// The findings of the entry file's conventions.
pub open spec fn conventions_lints(entry: Seq<char>, file: SourceFile) -> Seq<LintView> {
    if has_main(file.items@) {
        Seq::empty()
    } else {
        seq![(LintLevel::Warning, "entry file has no `main` function"@, entry)]
    }
}

/// The errors the checker reports for a loaded module.
pub open spec fn module_errors(m: LoadedModule) -> Seq<ErrorView> {
    file_reports(import_env(m.imports), m.ast.items@)
}

/// The findings of the modules, in order.
pub open spec fn modules_lints(ms: Seq<LoadedModule>) -> Seq<LintView>
    decreases ms.len(),
{
    if ms.len() == 0 {
        Seq::empty()
    } else {
        modules_lints(ms.drop_last())
            + source_lints(ms.last().path@, module_errors(ms.last()), ms.last().ast, ms.last().imports)
    }
}

/// A program lints without error findings exactly when no module has a type error.
#[verifier::spinoff_prover]
#[verifier::rlimit(40)]
pub proof fn lemma_program_ok_iff_modules_check(ms: Seq<LoadedModule>, entry: Seq<char>, file: SourceFile)
    ensures
        has_error(modules_lints(ms) + conventions_lints(entry, file))
            <==> exists|i: int| 0 <= i < ms.len() && module_errors(#[trigger] ms[i]).len() > 0,
    decreases ms.len(),
{
    let all = modules_lints(ms) + conventions_lints(entry, file);
    if ms.len() == 0 {
        if has_error(all) {
            let i = choose|i: int| 0 <= i < all.len() && (#[trigger] all[i]).0 == LintLevel::Error;
            assert(all =~= conventions_lints(entry, file));
        }
    } else {
        let front = modules_lints(ms.drop_last());
        let last = source_lints(ms.last().path@, module_errors(ms.last()), ms.last().ast, ms.last().imports);
        let conv = conventions_lints(entry, file);
        lemma_program_ok_iff_modules_check(ms.drop_last(), entry, file);
        lemma_only_errors_are_errors(ms.last().path@, module_errors(ms.last()), ms.last().ast, ms.last().imports);
        assert(all =~= front + last + conv);
        let with_conv = front + conv;
        if has_error(all) {
            let i = choose|i: int| 0 <= i < all.len() && (#[trigger] all[i]).0 == LintLevel::Error;
            if i < front.len() {
                assert(with_conv[i] == all[i]);
                let j = choose|j: int| 0 <= j < ms.drop_last().len() && module_errors(#[trigger] ms.drop_last()[j]).len() > 0;
                assert(ms[j] == ms.drop_last()[j]);
            } else if i < front.len() + last.len() {
                assert(last[i - front.len()] == all[i]);
                assert(ms[ms.len() - 1] == ms.last());
            } else {
                assert(with_conv[i - last.len()] == all[i]);
                let j = choose|j: int| 0 <= j < ms.drop_last().len() && module_errors(#[trigger] ms.drop_last()[j]).len() > 0;
                assert(ms[j] == ms.drop_last()[j]);
            }
        }
        if exists|i: int| 0 <= i < ms.len() && module_errors(#[trigger] ms[i]).len() > 0 {
            let i = choose|i: int| 0 <= i < ms.len() && module_errors(#[trigger] ms[i]).len() > 0;
            if i == ms.len() - 1 {
                let k = choose|k: int| 0 <= k < last.len() && (#[trigger] last[k]).0 == LintLevel::Error;
                assert(all[front.len() + k] == last[k]);
            } else {
                assert(ms.drop_last()[i] == ms[i]);
                let k = choose|k: int| 0 <= k < with_conv.len() && (#[trigger] with_conv[k]).0 == LintLevel::Error;
                if k < front.len() {
                    assert(all[k] == with_conv[k]);
                } else {
                    assert(all[k + last.len()] == with_conv[k]);
                }
            }
        }
    }
}

/// Lint every module of a program, then the entry file's conventions.
pub fn lint_program(entry: &str, entry_file: &SourceFile, modules: &Vec<LoadedModule>) -> (r: LintReport)
    ensures
        lints_view(r.lints@) == modules_lints(modules@) + conventions_lints(entry@, *entry_file),
{
    let mut report = LintReport::new();
    let mut i: usize = 0;
    proof {
        assert(lints_view(report.lints@) =~= Seq::<LintView>::empty());
        assert(modules@.subrange(0, 0) =~= Seq::<LoadedModule>::empty());
    }
    while i < modules.len()
        invariant
            i <= modules@.len(),
            lints_view(report.lints@) == modules_lints(modules@.subrange(0, i as int)),
        decreases modules@.len() - i,
    {
        let result = check_with_imports(&modules[i].ast, &modules[i].imports);
        lint_with_errors(modules[i].path.as_str(), &result.errors, &modules[i].ast, &modules[i].imports, &mut report);
        proof {
            let sub = modules@.subrange(0, i + 1);
            assert(sub.drop_last() =~= modules@.subrange(0, i as int));
            assert(sub.last() == modules@[i as int]);
        }
        i = i + 1;
    }
    proof {
        assert(modules@.subrange(0, modules@.len() as int) =~= modules@);
    }
    let ghost l1 = report.lints@;
    lint_entry_conventions(entry, entry_file, &mut report);
    proof {
        if has_main(entry_file.items@) {
            assert(lints_view(report.lints@) =~= lints_view(l1) + conventions_lints(entry@, *entry_file));
        } else {
            assert(lints_view(report.lints@) =~= lints_view(l1) + conventions_lints(entry@, *entry_file));
        }
    }
    report
}

/// Lint every module of a loaded program, then the entry file's conventions.
pub fn lint_file(program: &ModuleProgram) -> (r: LintReport)
    requires
        module_index(program.modules@, program.entry@) is Some,
    ensures
        lints_view(r.lints@) == modules_lints(program.modules@) + conventions_lints(
            program.entry@,
            program.modules@[module_index(program.modules@, program.entry@)->0].ast,
        ),
{
    lint_program(program.entry.as_str(), entry_ast(program), &program.modules)
}

} // verus!
