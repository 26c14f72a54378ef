//! Syntax tree of the YG language, as the parser produces it.

use vstd::prelude::*;

verus! {

/// A source module: its path, the modules it uses and its items.
pub struct Module {
    pub path: String,
    pub uses: Vec<String>,
    pub items: Vec<Item>,
}

/// A top-level item of a module.
pub enum Item {
    Function(Function),
    Class(Class),
    Object(Class),
}

/// A function (also an anonymous function expression, whose name is empty).
/// `captures` is `None` when the function captures everything in scope.
pub struct Function {
    pub name: String,
    pub params: Vec<String>,
    pub captures: Option<Vec<String>>,
    pub body: Block,
}

/// A class or singleton object.
pub struct Class {
    pub name: String,
    pub extends: Vec<String>,
    pub methods: Vec<Method>,
}

/// A method of a class.
pub struct Method {
    pub name: String,
    pub params: Vec<String>,
    pub body: Block,
}

/// A sequence of statements.
pub struct Block {
    pub statements: Vec<Statement>,
}

pub enum Statement {
    Let(LetStmt),
    Assign(AssignStmt),
    If(IfStmt),
    While(WhileStmt),
    For(ForStmt),
    Return(Option<Expr>),
    TryCatch(TryCatchStmt),
    Throw(Expr),
    Expr(Expr),
    Block(Block),
}

pub struct LetStmt {
    pub name: String,
    pub value: Expr,
}

pub struct AssignStmt {
    pub target: AssignTarget,
    pub op: AssignOp,
    pub value: Expr,
}

pub enum AssignTarget {
    Var(String),
    Index { target: Box<Expr>, index: Box<Expr> },
    Member { target: Box<Expr>, name: String },
}

pub enum AssignOp {
    Assign,
    PlusEq,
    MinusEq,
    StarEq,
    SlashEq,
    PercentEq,
    AndEq,
    OrEq,
    XorEq,
    NotEq,
    LtEq,
    GtEq,
    LeEq,
    GeEq,
}

pub struct IfStmt {
    pub cond: Expr,
    pub then_block: Block,
    pub else_block: Option<Block>,
}

pub struct WhileStmt {
    pub cond: Expr,
    pub body: Block,
}

pub struct ForStmt {
    pub var: String,
    pub iter: Expr,
    pub body: Block,
}

pub struct TryCatchStmt {
    pub try_block: Block,
    pub catch_param: String,
    pub catch_block: Block,
}

pub enum Expr {
    Literal(Literal),
    Var(String),
    Binary(BinaryExpr),
    Unary(UnaryExpr),
    Call(CallExpr),
    Index(IndexExpr),
    Member(MemberExpr),
    MethodCallColon(MethodCallColonExpr),
    MethodCallDot(MethodCallDotExpr),
    ModuleCall(ModuleCallExpr),
    New(NewExpr),
    Function(Function),
    ObjectRef(String),
}

/// A literal. A floating-point literal keeps the text of its value as the
/// runtime prints it.
pub enum Literal {
    Integer(i64),
    Double(String),
    String(String),
    Boolean(bool),
    Array(Vec<Expr>),
    Mapping(Vec<(Expr, Expr)>),
}

pub enum BinaryOp {
    Add,
    Sub,
    Mul,
    Div,
    Mod,
    And,
    Or,
    Xor,
    Eq,
    Neq,
    Lt,
    Gt,
    Le,
    Ge,
}

pub enum UnaryOp {
    Neg,
    Not,
}

pub struct BinaryExpr {
    pub op: BinaryOp,
    pub left: Box<Expr>,
    pub right: Box<Expr>,
}

pub struct UnaryExpr {
    pub op: UnaryOp,
    pub expr: Box<Expr>,
}

pub struct CallExpr {
    pub callee: Box<Expr>,
    pub args: Vec<Expr>,
}

pub struct IndexExpr {
    pub target: Box<Expr>,
    pub index: Box<Expr>,
}

pub struct MemberExpr {
    pub target: Box<Expr>,
    pub name: String,
}

/// `Class:method(args)`.
pub struct MethodCallColonExpr {
    pub class: String,
    pub method: String,
    pub args: Vec<Expr>,
}

/// `target.method(args)`.
pub struct MethodCallDotExpr {
    pub target: Box<Expr>,
    pub method: String,
    pub args: Vec<Expr>,
}

/// `module::function(args)`.
pub struct ModuleCallExpr {
    pub module: String,
    pub function: String,
    pub args: Vec<Expr>,
}

pub struct NewExpr {
    pub class: String,
    pub args: Vec<Expr>,
}

} // verus!
