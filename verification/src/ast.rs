//! The syntax tree that the metric visitors walk.
//!
//! An external parser produces the tree for a source unit; only the
//! structure that the metrics read is modelled here: the kind of each
//! node and its children. Every node kind outside the recognized set is
//! represented by `Expr::Other` (children still traversed) or
//! `Expr::Leaf` (no children), so the visitors are total.
use vstd::prelude::*;

verus! {

/// A binary operator, classified by whether it short-circuits.
pub enum BinOpKind {
    LogicalAnd,
    LogicalOr,
    Other,
}

/// A brace-delimited sequence of statements.
pub struct Block {
    pub stmts: Vec<Stmt>,
}

/// One statement of a block.
pub enum Stmt {
    /// A `let` binding with its optional initializer.
    Local(Option<Expr>),
    /// An item declared inside the block.
    ItemStmt(Item),
    /// An expression statement, with or without a semicolon.
    ExprStmt(Expr),
}

/// A top-level or nested item.
pub enum Item {
    /// A free function.
    Fn(FnDef),
    /// An `impl` block; only its methods matter to the metrics.
    Impl(Vec<FnDef>),
    /// A module with its items.
    Mod(Vec<Item>),
    /// Any other item kind; a no-op for the metrics.
    Other,
}

/// A function or method: the signature plays no role in the metrics,
/// so only the body is kept.
pub struct FnDef {
    pub body: Block,
}

/// A whole parsed source file.
pub struct SourceFile {
    pub items: Vec<Item>,
}

/// One arm of a `match`: its optional guard condition and its body.
/// The pattern itself contributes to no metric.
pub struct Arm {
    pub guard: Option<Box<Expr>>,
    pub body: Box<Expr>,
}

/// An expression node. Variants carry exactly the children that the
/// visitors recurse into.
pub enum Expr {
    If { cond: Box<Expr>, then_branch: Block, else_branch: Option<Box<Expr>> },
    While { cond: Box<Expr>, body: Block },
    ForLoop { iter: Box<Expr>, body: Block },
    Loop { body: Block },
    Match { scrutinee: Box<Expr>, arms: Vec<Arm> },
    Binary { op: BinOpKind, left: Box<Expr>, right: Box<Expr> },
    Assign { left: Box<Expr>, right: Box<Expr> },
    AssignOp { left: Box<Expr>, right: Box<Expr> },
    Call { func: Box<Expr>, args: Vec<Expr> },
    MethodCall { receiver: Box<Expr>, args: Vec<Expr> },
    /// A macro invocation; its tokens are not traversed as expressions.
    MacroCall,
    Continue,
    Break(Option<Box<Expr>>),
    Return(Option<Box<Expr>>),
    Yield(Option<Box<Expr>>),
    Await(Box<Expr>),
    /// A binding-introducing `let` used as a condition expression.
    LetCond(Box<Expr>),
    Unsafe(Block),
    /// An error-propagation expression.
    Try(Box<Expr>),
    Repeat { elem: Box<Expr>, len: Box<Expr> },
    StructLit { fields: Vec<Expr> },
    Field(Box<Expr>),
    BlockExpr(Block),
    /// A literal, path or similar childless node.
    Leaf,
    /// Any other expression kind: its children are traversed, the node
    /// itself contributes to no metric.
    Other(Vec<Expr>),
}

} // verus!
