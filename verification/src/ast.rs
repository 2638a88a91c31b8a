//! Aevia abstract syntax tree.
//!
//! Source positions are carried as plain `(offset, len)` pairs and numeric
//! literals as a decimal mantissa with a base-ten scale, so that every node is
//! made of values the checker and the printers can reason about.
use vstd::prelude::*;

verus! {

/// A region of source text: `len` characters starting at `offset`.
#[derive(Debug, Clone, Copy, PartialEq, Eq, Hash, Structural)]
pub struct Span {
    pub offset: usize,
    pub len: usize,
}

impl Span {
    /// A span of `len` characters starting at `offset`.
    pub fn new(offset: usize, len: usize) -> (s: Span)
        ensures
            s.offset == offset,
            s.len == len,
    {
        Span { offset, len }
    }
}

/// A node wrapped with its source span for diagnostic reporting.
#[derive(Debug, Clone, PartialEq)]
pub struct Spanned<T> {
    pub node: T,
    pub span: Span,
}

impl<T> Spanned<T> {
    /// Create a new spanned node.
    pub fn new(node: T, span: Span) -> (s: Self)
        ensures
            s.node == node,
            s.span == span,
    {
        Spanned { node, span }
    }
}

/// A decimal number `mantissa * 10^(-scale)`, as written in the source.
#[derive(Debug, Clone, Copy, PartialEq, Eq, Hash, Structural)]
pub struct Number {
    pub mantissa: i128,
    pub scale: u32,
}

/// A complete Aevia source file.
#[derive(Debug, PartialEq)]
pub struct SourceFile {
    /// Module-level doc comments (`//!`).
    pub doc: Option<String>,
    /// Top-level items in the file.
    pub items: Vec<Spanned<Item>>,
}

/// A `macro_rules!` rule: raw pattern and replacement text.
#[derive(Debug, Clone, PartialEq)]
pub struct MacroRule {
    pub pattern: String,
    pub replacement: String,
}

/// A top-level module item.
#[derive(Debug, PartialEq)]
pub enum Item {
    /// `pub mod kinematics;` or `mod mechanics { ... }`
    Module {
        name: String,
        body: Option<Vec<Spanned<Item>>>,
        visibility: Visibility,
        doc: Option<String>,
    },
    /// `use mechanics::kinematics::Force as F;` or `use math::constants::*;`
    Use {
        path: Vec<String>,
        alias: Option<String>,
        glob: bool,
    },
    /// `type Acceleration = m / s^2;`
    TypeAlias {
        name: String,
        dimension_expr: Spanned<DimExpr>,
        doc: Option<String>,
    },
    /// `pub struct Particle { ... }`
    Struct {
        name: String,
        fields: Vec<Field>,
        visibility: Visibility,
        doc: Option<String>,
    },
    /// Expression-bodied (`:=`) or block-bodied (`{}`) function.
    Function {
        name: String,
        params: Vec<Param>,
        return_type: Option<Spanned<DimExpr>>,
        body: FunctionBody,
        visibility: Visibility,
        attributes: Vec<Attribute>,
        doc: Option<String>,
    },
    /// `pub op custom(x: m -> m/s) { ... }`
    CustomOp {
        name: String,
        param_name: String,
        input_dim: Spanned<DimExpr>,
        output_dim: Spanned<DimExpr>,
        visibility: Visibility,
        properties: OpProperties,
        doc: Option<String>,
    },
    /// `macro_rules! name { (pattern) => { replacement } ... }`
    MacroDef {
        name: String,
        rules: Vec<MacroRule>,
    },
    /// Item-level macro invocation, `name!(args);`
    MacroCall {
        name: String,
        args: String,
    },
    /// `pub const G: m / s^2 = 9.8;`
    Const {
        name: String,
        dim: Option<Spanned<DimExpr>>,
        value: Spanned<Expr>,
        visibility: Visibility,
        doc: Option<String>,
    },
}

impl Item {
    /// The item's doc comment slot holds `doc` afterwards; items without a
    /// doc slot (`use`, macros) are left unchanged.
    pub fn set_doc(&mut self, new_doc: Option<String>)
        ensures
            item_doc(*final(self)) == (if has_doc_slot(*old(self)) {
                new_doc
            } else {
                item_doc(*old(self))
            }),
            has_doc_slot(*final(self)) == has_doc_slot(*old(self)),
            !has_doc_slot(*old(self)) ==> *final(self) == *old(self),
            item_node_view(*final(self)) == view_with_doc(item_node_view(*old(self)), opt_name_view(new_doc)),
    {
        match self {
            Item::Module { doc, .. } => *doc = new_doc,
            Item::TypeAlias { doc, .. } => *doc = new_doc,
            Item::Struct { doc, .. } => *doc = new_doc,
            Item::Function { doc, .. } => *doc = new_doc,
            Item::CustomOp { doc, .. } => *doc = new_doc,
            Item::Const { doc, .. } => *doc = new_doc,
            Item::Use { .. } | Item::MacroDef { .. } | Item::MacroCall { .. } => {},
        }
    }
}

/// Whether an item kind carries a doc comment.
pub open spec fn has_doc_slot(item: Item) -> bool {
    !(item is Use || item is MacroDef || item is MacroCall)
}

/// The doc comment of an item (`None` for kinds without one).
pub open spec fn item_doc(item: Item) -> Option<String> {
    match item {
        Item::Module { doc, .. } => doc,
        Item::TypeAlias { doc, .. } => doc,
        Item::Struct { doc, .. } => doc,
        Item::Function { doc, .. } => doc,
        Item::CustomOp { doc, .. } => doc,
        Item::Const { doc, .. } => doc,
        _ => None,
    }
}

/// Visibility modifiers.
#[derive(Debug, Clone, Copy, PartialEq, Eq, Hash, Structural)]
pub enum Visibility {
    /// Visible only in the defining module (default).
    Private,
    /// Visible within the defining crate boundaries (`pub(crate)`).
    Crate,
    /// Publicly visible everywhere (`pub`).
    Public,
}

/// Struct field declaration with its dimensional annotation.
#[derive(Debug, PartialEq)]
pub struct Field {
    pub name: String,
    pub dim: Spanned<DimExpr>,
    pub visibility: Visibility,
}

/// Function parameter.
#[derive(Debug, PartialEq)]
pub struct Param {
    pub name: String,
    pub dim: Spanned<DimExpr>,
    pub is_mut: bool,
}

/// Function body representation.
#[derive(Debug, PartialEq)]
pub enum FunctionBody {
    /// `:= m * a;`
    Expression(Spanned<Expr>),
    /// `{ let scalar = 0.5; scalar * k * x^2 }`
    Block(Vec<Spanned<Stmt>>),
}

/// Compiler attribute, e.g. `#[jit_kernel]`.
#[derive(Debug, Clone, PartialEq, Eq, Hash)]
pub struct Attribute {
    pub name: String,
    pub args: Vec<String>,
}

/// Properties and rewrite rules of a custom op.
#[derive(Debug, PartialEq)]
pub struct OpProperties {
    pub vectorizable: bool,
    pub commutative: bool,
    pub associative: bool,
    pub cost: Option<Number>,
    pub simplify_rules: Vec<SimplifyRule>,
    pub egraph_rules: Vec<EGraphRule>,
}

/// `custom(0) => 0`
#[derive(Debug, PartialEq)]
pub struct SimplifyRule {
    pub pattern: Spanned<Expr>,
    pub replacement: Spanned<Expr>,
}

/// `[after] rewrite custom(y) => integrate(y, dy)`
#[derive(Debug, PartialEq)]
pub struct EGraphRule {
    pub pattern: Spanned<Expr>,
    pub replacement: Spanned<Expr>,
    pub after_builtins: bool,
}

/// Statements.
#[derive(Debug, PartialEq)]
pub enum Stmt {
    /// `let mut mass: kg = 10.0;`
    Let {
        name: String,
        declared_type: Option<Spanned<DimExpr>>,
        init: Spanned<Expr>,
        is_mut: bool,
    },
    /// Expression statement.
    Expr(Spanned<Expr>),
    /// `mass = 20.0;`
    Assign {
        target: String,
        value: Spanned<Expr>,
    },
    /// `break;`
    Break,
    /// `continue;`
    Continue,
}

/// Dimensional unit expressions (e.g. `m * kg / s^2`, `kg[4, 4]`).
#[derive(Debug, PartialEq)]
pub enum DimExpr {
    /// Base unit or alias name.
    Base(String),
    /// `N * m`
    Mul(Box<Spanned<DimExpr>>, Box<Spanned<DimExpr>>),
    /// `m / s`
    Div(Box<Spanned<DimExpr>>, Box<Spanned<DimExpr>>),
    /// `s^2`
    Power(Box<Spanned<DimExpr>>, i32),
    /// `kg[1024]`: a tensor whose elements carry the `base` unit.
    Tensor {
        base: Box<Spanned<DimExpr>>,
        shape: Vec<usize>,
    },
}

/// One arm of a `match`.
#[derive(Debug, PartialEq)]
pub struct MatchArm {
    pub pattern: Pattern,
    pub body: Spanned<Expr>,
}

/// Match patterns.
#[derive(Debug, PartialEq)]
pub enum Pattern {
    /// `_`
    Wildcard,
    /// A number literal.
    Literal(Number),
    /// `v` or `v: kg`
    Binding {
        name: String,
        type_guard: Option<Spanned<DimExpr>>,
    },
}

/// Expressions.
#[derive(Debug, PartialEq)]
pub enum Expr {
    /// `9.8_m/s^2`, `10.0`
    Literal {
        value: Number,
        suffix: Option<Spanned<DimExpr>>,
    },
    /// Variable reference.
    Variable(String),
    /// `a + b`
    BinaryOp {
        op: BinOp,
        lhs: Box<Spanned<Expr>>,
        rhs: Box<Spanned<Expr>>,
    },
    /// `-x`
    UnaryOp {
        op: UnOp,
        expr: Box<Spanned<Expr>>,
    },
    /// `kinetic_energy(m, v)`
    Call {
        func: String,
        args: Vec<Spanned<Expr>>,
    },
    /// `{ let a = 1.0; a }`
    Block(Vec<Spanned<Stmt>>),
    /// `if a < b { a } elseif ... else { b }`
    If {
        cond: Box<Spanned<Expr>>,
        then_branch: Box<Spanned<Expr>>,
        else_branch: Option<Box<Spanned<Expr>>>,
    },
    /// `loop { ... }`
    Loop {
        body: Vec<Spanned<Stmt>>,
    },
    /// `while cond { ... }`
    While {
        cond: Box<Spanned<Expr>>,
        body: Vec<Spanned<Stmt>>,
    },
    /// `for i in start..end { ... }`
    For {
        var: String,
        start: Box<Spanned<Expr>>,
        end: Box<Spanned<Expr>>,
        body: Vec<Spanned<Stmt>>,
    },
    /// `match x { 1 => a, _ => b }`
    Match {
        scrutinee: Box<Spanned<Expr>>,
        arms: Vec<MatchArm>,
    },
    /// `unsafe transmute(buffer) { assume_unit: kg/m^3, assume_layout: row_major }`
    UnsafeTransmute {
        expr: Box<Spanned<Expr>>,
        assume_unit: Option<Spanned<DimExpr>>,
        assume_layout: Option<String>,
    },
    /// `name!(args)`
    MacroCall {
        name: String,
        args: String,
    },
    /// `print(expr)`
    Print {
        expr: Box<Spanned<Expr>>,
    },
    /// `log("message")`
    Log {
        message: String,
    },
    /// `Particle { mass: 1.0_kg, ... }`
    StructLit {
        name: String,
        fields: Vec<(String, Spanned<Expr>)>,
    },
    /// `p.mass`
    FieldAccess {
        expr: Box<Spanned<Expr>>,
        field: String,
    },
}

/// Binary operators.
#[derive(Debug, Clone, Copy, PartialEq, Eq, Hash, Structural)]
pub enum BinOp {
    Add,
    Sub,
    Mul,
    Div,
    Pow,
    Mod,
    Lt,
    Gt,
    Eq,
}

/// Unary operators.
#[derive(Debug, Clone, Copy, PartialEq, Eq, Hash, Structural)]
pub enum UnOp {
    Neg,
}


// ── Models of expressions and statements ───────────────────────────────────

/// Model of a unit expression: names as character sequences.
pub enum DimView {
    Base(Seq<char>),
    Mul(Box<Spanned<DimView>>, Box<Spanned<DimView>>),
    Div(Box<Spanned<DimView>>, Box<Spanned<DimView>>),
    Power(Box<Spanned<DimView>>, i32),
    Tensor(Box<Spanned<DimView>>, Seq<usize>),
}

/// Model of an expression: names and texts as character sequences, child
/// lists as sequences.
pub enum ExprView {
    Literal(Number, Option<Spanned<DimView>>),
    Variable(Seq<char>),
    BinaryOp(BinOp, Box<Spanned<ExprView>>, Box<Spanned<ExprView>>),
    UnaryOp(UnOp, Box<Spanned<ExprView>>),
    Call(Seq<char>, Seq<Spanned<ExprView>>),
    Block(Seq<Spanned<StmtView>>),
    If(Box<Spanned<ExprView>>, Box<Spanned<ExprView>>, Option<Box<Spanned<ExprView>>>),
    Loop(Seq<Spanned<StmtView>>),
    While(Box<Spanned<ExprView>>, Seq<Spanned<StmtView>>),
    For(Seq<char>, Box<Spanned<ExprView>>, Box<Spanned<ExprView>>, Seq<Spanned<StmtView>>),
    Match(Box<Spanned<ExprView>>, Seq<ArmView>),
    UnsafeTransmute(Box<Spanned<ExprView>>, Option<Spanned<DimView>>, Option<Seq<char>>),
    MacroCall(Seq<char>, Seq<char>),
    Print(Box<Spanned<ExprView>>),
    Log(Seq<char>),
    StructLit(Seq<char>, Seq<(Seq<char>, Spanned<ExprView>)>),
    FieldAccess(Box<Spanned<ExprView>>, Seq<char>),
}

/// Model of a statement.
pub enum StmtView {
    Let(Seq<char>, Option<Spanned<DimView>>, Spanned<ExprView>, bool),
    Expr(Spanned<ExprView>),
    Assign(Seq<char>, Spanned<ExprView>),
    Break,
    Continue,
}

/// Model of a match pattern.
pub enum PatternView {
    Wildcard,
    Literal(Number),
    Binding(Seq<char>, Option<Spanned<DimView>>),
}

/// Model of a match arm.
pub struct ArmView {
    pub pattern: PatternView,
    pub body: Spanned<ExprView>,
}

/// The model of a unit expression.
pub open spec fn dim_view(d: Spanned<DimExpr>) -> Spanned<DimView>
    decreases d,
{
    Spanned {
        node: match d.node {
            DimExpr::Base(n) => DimView::Base(n@),
            DimExpr::Mul(a, b) => DimView::Mul(Box::new(dim_view(*a)), Box::new(dim_view(*b))),
            DimExpr::Div(a, b) => DimView::Div(Box::new(dim_view(*a)), Box::new(dim_view(*b))),
            DimExpr::Power(a, n) => DimView::Power(Box::new(dim_view(*a)), n),
            DimExpr::Tensor { base, shape } => DimView::Tensor(Box::new(dim_view(*base)), shape@),
        },
        span: d.span,
    }
}

/// The model of an optional unit expression.
pub open spec fn opt_dim_view(d: Option<Spanned<DimExpr>>) -> Option<Spanned<DimView>> {
    match d {
        Some(x) => Some(dim_view(x)),
        None => None,
    }
}

/// The model of an optional name.
pub open spec fn opt_name_view(n: Option<String>) -> Option<Seq<char>> {
    match n {
        Some(x) => Some(x@),
        None => None,
    }
}

/// The model of a pattern.
pub open spec fn pattern_view(p: Pattern) -> PatternView {
    match p {
        Pattern::Wildcard => PatternView::Wildcard,
        Pattern::Literal(n) => PatternView::Literal(n),
        Pattern::Binding { name, type_guard } => PatternView::Binding(name@, opt_dim_view(type_guard)),
    }
}

/// The model of an expression.
pub open spec fn expr_view(e: Spanned<Expr>) -> Spanned<ExprView>
    decreases e, 0int,
{
    Spanned {
        node: match e.node {
            Expr::Literal { value, suffix } => ExprView::Literal(value, opt_dim_view(suffix)),
            Expr::Variable(n) => ExprView::Variable(n@),
            Expr::BinaryOp { op, lhs, rhs } => ExprView::BinaryOp(op, Box::new(expr_view(*lhs)), Box::new(expr_view(*rhs))),
            Expr::UnaryOp { op, expr } => ExprView::UnaryOp(op, Box::new(expr_view(*expr))),
            Expr::Call { func, args } => ExprView::Call(func@, exprs_view(args@)),
            Expr::Block(stmts) => ExprView::Block(stmts_view(stmts@)),
            Expr::If { cond, then_branch, else_branch } => ExprView::If(
                Box::new(expr_view(*cond)),
                Box::new(expr_view(*then_branch)),
                match else_branch {
                    Some(b) => Some(Box::new(expr_view(*b))),
                    None => None,
                },
            ),
            Expr::Loop { body } => ExprView::Loop(stmts_view(body@)),
            Expr::While { cond, body } => ExprView::While(Box::new(expr_view(*cond)), stmts_view(body@)),
            Expr::For { var, start, end, body } => ExprView::For(
                var@,
                Box::new(expr_view(*start)),
                Box::new(expr_view(*end)),
                stmts_view(body@),
            ),
            Expr::Match { scrutinee, arms } => ExprView::Match(Box::new(expr_view(*scrutinee)), arms_view(arms@)),
            Expr::UnsafeTransmute { expr, assume_unit, assume_layout } => ExprView::UnsafeTransmute(
                Box::new(expr_view(*expr)),
                opt_dim_view(assume_unit),
                opt_name_view(assume_layout),
            ),
            Expr::MacroCall { name, args } => ExprView::MacroCall(name@, args@),
            Expr::Print { expr } => ExprView::Print(Box::new(expr_view(*expr))),
            Expr::Log { message } => ExprView::Log(message@),
            Expr::StructLit { name, fields } => ExprView::StructLit(name@, fields_view(fields@)),
            Expr::FieldAccess { expr, field } => ExprView::FieldAccess(Box::new(expr_view(*expr)), field@),
        },
        span: e.span,
    }
}

/// The models of a list of expressions.
pub open spec fn exprs_view(v: Seq<Spanned<Expr>>) -> Seq<Spanned<ExprView>>
    decreases v, 1int,
{
    if v.len() == 0 { Seq::empty() } else { exprs_view(v.drop_last()).push(expr_view(v.last())) }
}

/// The model of a statement.
pub open spec fn stmt_view(st: Spanned<Stmt>) -> Spanned<StmtView>
    decreases st, 0int,
{
    Spanned {
        node: match st.node {
            Stmt::Let { name, declared_type, init, is_mut } =>
                StmtView::Let(name@, opt_dim_view(declared_type), expr_view(init), is_mut),
            Stmt::Expr(e) => StmtView::Expr(expr_view(e)),
            Stmt::Assign { target, value } => StmtView::Assign(target@, expr_view(value)),
            Stmt::Break => StmtView::Break,
            Stmt::Continue => StmtView::Continue,
        },
        span: st.span,
    }
}

/// The models of a list of statements.
pub open spec fn stmts_view(v: Seq<Spanned<Stmt>>) -> Seq<Spanned<StmtView>>
    decreases v, 1int,
{
    if v.len() == 0 { Seq::empty() } else { stmts_view(v.drop_last()).push(stmt_view(v.last())) }
}

/// The models of a list of match arms.
pub open spec fn arms_view(v: Seq<MatchArm>) -> Seq<ArmView>
    decreases v, 1int,
{
    if v.len() == 0 {
        Seq::empty()
    } else {
        arms_view(v.drop_last()).push(ArmView { pattern: pattern_view(v.last().pattern), body: expr_view(v.last().body) })
    }
}

/// The models of a struct literal's fields.
pub open spec fn fields_view(v: Seq<(String, Spanned<Expr>)>) -> Seq<(Seq<char>, Spanned<ExprView>)>
    decreases v, 1int,
{
    if v.len() == 0 { Seq::empty() } else { fields_view(v.drop_last()).push((v.last().0@, expr_view(v.last().1))) }
}


/// Adding an expression to a list adds its model to the list's model.
pub proof fn lemma_exprs_view_push(v: Seq<Spanned<Expr>>, x: Spanned<Expr>)
    ensures
        exprs_view(v.push(x)) == exprs_view(v).push(expr_view(x)),
{
    assert(v.push(x).drop_last() =~= v);
}

/// Adding a statement to a list adds its model to the list's model.
pub proof fn lemma_stmts_view_push(v: Seq<Spanned<Stmt>>, x: Spanned<Stmt>)
    ensures
        stmts_view(v.push(x)) == stmts_view(v).push(stmt_view(x)),
{
    assert(v.push(x).drop_last() =~= v);
}

/// Adding an arm to a list adds its model to the list's model.
pub proof fn lemma_arms_view_push(v: Seq<MatchArm>, x: MatchArm)
    ensures
        arms_view(v.push(x)) == arms_view(v).push(ArmView { pattern: pattern_view(x.pattern), body: expr_view(x.body) }),
{
    assert(v.push(x).drop_last() =~= v);
}

/// Adding a field to a list adds its model to the list's model.
pub proof fn lemma_fields_view_push(v: Seq<(String, Spanned<Expr>)>, x: (String, Spanned<Expr>))
    ensures
        fields_view(v.push(x)) == fields_view(v).push((x.0@, expr_view(x.1))),
{
    assert(v.push(x).drop_last() =~= v);
}

/// The model of a list of expressions holds the model of each, in order.
pub proof fn lemma_exprs_view_index(v: Seq<Spanned<Expr>>)
    ensures
        exprs_view(v).len() == v.len(),
        forall|i: int| 0 <= i < v.len() ==> #[trigger] exprs_view(v)[i] == expr_view(v[i]),
    decreases v.len(),
{
    if v.len() > 0 {
        lemma_exprs_view_index(v.drop_last());
    }
}

/// The model of a list of statements holds the model of each, in order.
pub proof fn lemma_stmts_view_index(v: Seq<Spanned<Stmt>>)
    ensures
        stmts_view(v).len() == v.len(),
        forall|i: int| 0 <= i < v.len() ==> #[trigger] stmts_view(v)[i] == stmt_view(v[i]),
    decreases v.len(),
{
    if v.len() > 0 {
        lemma_stmts_view_index(v.drop_last());
    }
}


// ── Models of items ─────────────────────────────────────────────────────────

/// Model of a function body.
pub enum BodyView {
    Expression(Spanned<ExprView>),
    Block(Seq<Spanned<StmtView>>),
}

/// Model of a custom op's properties and rules: the three flags, the cost,
/// the simplification rules and the e-graph rules (with whether each runs
/// after the built-in rules).
pub struct PropsView {
    pub vectorizable: bool,
    pub commutative: bool,
    pub associative: bool,
    pub cost: Option<Number>,
    pub simplify: Seq<(Spanned<ExprView>, Spanned<ExprView>)>,
    pub egraph: Seq<(Spanned<ExprView>, Spanned<ExprView>, bool)>,
}

/// Model of an item: names and texts as character sequences; a field is its
/// name, unit and visibility; a parameter its name, unit and whether it is
/// `mut`; an attribute its name and arguments; a macro rule its pattern and
/// replacement texts.
pub enum ItemView {
    Module(Seq<char>, Option<Seq<Spanned<ItemView>>>, Visibility, Option<Seq<char>>),
    Use(Seq<Seq<char>>, Option<Seq<char>>, bool),
    TypeAlias(Seq<char>, Spanned<DimView>, Option<Seq<char>>),
    Struct(Seq<char>, Seq<(Seq<char>, Spanned<DimView>, Visibility)>, Visibility, Option<Seq<char>>),
    Function(Seq<char>, Seq<(Seq<char>, Spanned<DimView>, bool)>, Option<Spanned<DimView>>, BodyView, Visibility,
        Seq<(Seq<char>, Seq<Seq<char>>)>, Option<Seq<char>>),
    CustomOp(Seq<char>, Seq<char>, Spanned<DimView>, Spanned<DimView>, Visibility, PropsView, Option<Seq<char>>),
    MacroDef(Seq<char>, Seq<(Seq<char>, Seq<char>)>),
    MacroCall(Seq<char>, Seq<char>),
    Const(Seq<char>, Option<Spanned<DimView>>, Spanned<ExprView>, Visibility, Option<Seq<char>>),
}

/// The models of a list of names.
pub open spec fn names_view(v: Seq<String>) -> Seq<Seq<char>> {
    v.map_values(|x: String| x@)
}

/// The model of a field.
pub open spec fn field_view(f: Field) -> (Seq<char>, Spanned<DimView>, Visibility) {
    (f.name@, dim_view(f.dim), f.visibility)
}

/// The model of a parameter.
pub open spec fn param_view(p: Param) -> (Seq<char>, Spanned<DimView>, bool) {
    (p.name@, dim_view(p.dim), p.is_mut)
}

/// The model of an attribute.
pub open spec fn attr_view(a: Attribute) -> (Seq<char>, Seq<Seq<char>>) {
    (a.name@, names_view(a.args@))
}

/// The model of a simplification rule.
pub open spec fn simplify_view(r: SimplifyRule) -> (Spanned<ExprView>, Spanned<ExprView>) {
    (expr_view(r.pattern), expr_view(r.replacement))
}

/// The model of an e-graph rule.
pub open spec fn egraph_view(r: EGraphRule) -> (Spanned<ExprView>, Spanned<ExprView>, bool) {
    (expr_view(r.pattern), expr_view(r.replacement), r.after_builtins)
}

/// The models of a list of fields.
pub open spec fn field_list_view(v: Seq<Field>) -> Seq<(Seq<char>, Spanned<DimView>, Visibility)> {
    v.map_values(|f: Field| field_view(f))
}

/// The models of a list of parameters.
pub open spec fn params_view(v: Seq<Param>) -> Seq<(Seq<char>, Spanned<DimView>, bool)> {
    v.map_values(|p: Param| param_view(p))
}

/// The models of a list of attributes.
pub open spec fn attrs_view(v: Seq<Attribute>) -> Seq<(Seq<char>, Seq<Seq<char>>)> {
    v.map_values(|a: Attribute| attr_view(a))
}

/// The models of a list of simplification rules.
pub open spec fn simp_list_view(v: Seq<SimplifyRule>) -> Seq<(Spanned<ExprView>, Spanned<ExprView>)> {
    v.map_values(|r: SimplifyRule| simplify_view(r))
}

/// The models of a list of e-graph rules.
pub open spec fn eg_list_view(v: Seq<EGraphRule>) -> Seq<(Spanned<ExprView>, Spanned<ExprView>, bool)> {
    v.map_values(|r: EGraphRule| egraph_view(r))
}

/// The models of a list of macro rules.
pub open spec fn macro_rules_view(v: Seq<MacroRule>) -> Seq<(Seq<char>, Seq<char>)> {
    v.map_values(|r: MacroRule| (r.pattern@, r.replacement@))
}

/// The model of a custom op's properties.
pub open spec fn props_view(p: OpProperties) -> PropsView {
    PropsView {
        vectorizable: p.vectorizable,
        commutative: p.commutative,
        associative: p.associative,
        cost: p.cost,
        simplify: simp_list_view(p.simplify_rules@),
        egraph: eg_list_view(p.egraph_rules@),
    }
}

/// The model of a function body.
pub open spec fn body_view(b: FunctionBody) -> BodyView {
    match b {
        FunctionBody::Expression(e) => BodyView::Expression(expr_view(e)),
        FunctionBody::Block(stmts) => BodyView::Block(stmts_view(stmts@)),
    }
}

/// The model of an item with its span.
pub open spec fn item_view(it: Spanned<Item>) -> Spanned<ItemView>
    decreases it, 1int,
{
    Spanned { node: item_node_view(it.node), span: it.span }
}

/// The model of an item.
pub open spec fn item_node_view(it: Item) -> ItemView
    decreases it, 0int,
{
        match it {
            Item::Module { name, body, visibility, doc } => ItemView::Module(
                name@,
                match body {
                    Some(items) => Some(items_view(items@)),
                    None => None,
                },
                visibility,
                opt_name_view(doc),
            ),
            Item::Use { path, alias, glob } => ItemView::Use(names_view(path@), opt_name_view(alias), glob),
            Item::TypeAlias { name, dimension_expr, doc } => ItemView::TypeAlias(name@, dim_view(dimension_expr), opt_name_view(doc)),
            Item::Struct { name, fields, visibility, doc } => ItemView::Struct(
                name@,
                field_list_view(fields@),
                visibility,
                opt_name_view(doc),
            ),
            Item::Function { name, params, return_type, body, visibility, attributes, doc } => ItemView::Function(
                name@,
                params_view(params@),
                opt_dim_view(return_type),
                body_view(body),
                visibility,
                attrs_view(attributes@),
                opt_name_view(doc),
            ),
            Item::CustomOp { name, param_name, input_dim, output_dim, visibility, properties, doc } => ItemView::CustomOp(
                name@,
                param_name@,
                dim_view(input_dim),
                dim_view(output_dim),
                visibility,
                props_view(properties),
                opt_name_view(doc),
            ),
            Item::MacroDef { name, rules } => ItemView::MacroDef(name@, macro_rules_view(rules@)),
            Item::MacroCall { name, args } => ItemView::MacroCall(name@, args@),
            Item::Const { name, dim, value, visibility, doc } => ItemView::Const(
                name@,
                opt_dim_view(dim),
                expr_view(value),
                visibility,
                opt_name_view(doc),
            ),
        }
}

/// The models of a list of items.
pub open spec fn items_view(v: Seq<Spanned<Item>>) -> Seq<Spanned<ItemView>>
    decreases v, 2int,
{
    if v.len() == 0 { Seq::empty() } else { items_view(v.drop_last()).push(item_view(v.last())) }
}

/// The model with its doc comment slot, where the kind has one, holding `d`.
pub open spec fn view_with_doc(v: ItemView, d: Option<Seq<char>>) -> ItemView {
    match v {
        ItemView::Module(n, b, vis, _) => ItemView::Module(n, b, vis, d),
        ItemView::TypeAlias(n, e, _) => ItemView::TypeAlias(n, e, d),
        ItemView::Struct(n, f, vis, _) => ItemView::Struct(n, f, vis, d),
        ItemView::Function(n, p, r, b, vis, a, _) => ItemView::Function(n, p, r, b, vis, a, d),
        ItemView::CustomOp(n, pn, i, o, vis, pr, _) => ItemView::CustomOp(n, pn, i, o, vis, pr, d),
        ItemView::Const(n, dm, val, vis, _) => ItemView::Const(n, dm, val, vis, d),
        other => other,
    }
}

/// The model of a list of items holds the model of each, in order.
pub proof fn lemma_items_view_index(v: Seq<Spanned<Item>>)
    ensures
        items_view(v).len() == v.len(),
        forall|i: int| 0 <= i < v.len() ==> #[trigger] items_view(v)[i] == item_view(v[i]),
    decreases v.len(),
{
    if v.len() > 0 {
        lemma_items_view_index(v.drop_last());
    }
}

/// Adding an item to a list adds its model to the list's model.
pub proof fn lemma_items_view_push(v: Seq<Spanned<Item>>, x: Spanned<Item>)
    ensures
        items_view(v.push(x)) == items_view(v).push(item_view(x)),
{
    assert(v.push(x).drop_last() =~= v);
}


/// The model of an expression node, whatever its span.
pub open spec fn expr_node_view(e: Expr) -> ExprView {
    expr_view(Spanned { node: e, span: Span { offset: 0, len: 0 } }).node
}

/// The model of a statement node, whatever its span.
pub open spec fn stmt_node_view(st: Stmt) -> StmtView {
    stmt_view(Spanned { node: st, span: Span { offset: 0, len: 0 } }).node
}

/// The model of a spanned expression is its node's model with its span.
pub proof fn lemma_expr_node_view(e: Spanned<Expr>)
    ensures
        expr_view(e) == (Spanned { node: expr_node_view(e.node), span: e.span }),
{
}

/// The model of a spanned statement is its node's model with its span.
pub proof fn lemma_stmt_node_view(st: Spanned<Stmt>)
    ensures
        stmt_view(st) == (Spanned { node: stmt_node_view(st.node), span: st.span }),
{
}


/// The model of a list of match arms holds the model of each, in order.
pub proof fn lemma_arms_view_index(v: Seq<MatchArm>)
    ensures
        arms_view(v).len() == v.len(),
        forall|i: int| 0 <= i < v.len() ==> #[trigger] arms_view(v)[i]
            == (ArmView { pattern: pattern_view(v[i].pattern), body: expr_view(v[i].body) }),
    decreases v.len(),
{
    if v.len() > 0 {
        lemma_arms_view_index(v.drop_last());
    }
}

/// The model of a struct literal's fields holds the model of each, in order.
pub proof fn lemma_fields_view_index(v: Seq<(String, Spanned<Expr>)>)
    ensures
        fields_view(v).len() == v.len(),
        forall|i: int| 0 <= i < v.len() ==> #[trigger] fields_view(v)[i] == (v[i].0@, expr_view(v[i].1)),
    decreases v.len(),
{
    if v.len() > 0 {
        lemma_fields_view_index(v.drop_last());
    }
}

/// The model of two lists of items, one after the other.
pub proof fn lemma_items_view_append(a: Seq<Spanned<Item>>, b: Seq<Spanned<Item>>)
    ensures
        items_view(a + b) == items_view(a) + items_view(b),
    decreases b.len(),
{
    if b.len() == 0 {
        assert(a + b =~= a);
        assert(items_view(a) + items_view(b) =~= items_view(a));
    } else {
        lemma_items_view_append(a, b.drop_last());
        assert((a + b).drop_last() =~= a + b.drop_last());
        assert((a + b).last() == b.last());
        assert(items_view(a) + items_view(b) =~= (items_view(a) + items_view(b.drop_last())).push(item_view(b.last())));
    }
}

} // verus!
