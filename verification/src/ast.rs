//! The syntax tree that the interpreter executes.

use vstd::prelude::*;
use std::rc::Rc;
use crate::errors::Span;

verus! {

/// A literal constant.
pub enum LiteralValue {
    String(String),
    Integer(i64),
    Bool(bool),
    Null,
    Void,
}

/// The binary operators.
pub enum BinaryOperator {
    Add,
    Subtract,
    Multiply,
    Divide,
    Modulo,
    Equal,
    NotEqual,
    Less,
    Greater,
    LessEqual,
    GreaterEqual,
    And,
    Or,
    Shl,
    Shr,
    BitAnd,
    BitOr,
    BitXor,
}

/// The unary operators.
pub enum UnaryOperator {
    Minus,
    Not,
}

/// One arm of a `peek` expression: the pattern and the expression it selects.
pub struct PeekArm {
    pub pattern: LiteralValue,
    pub body: ASTNode,
}

/// A function or method: its name, parameters and body.
pub struct FunctionDecl {
    pub name: String,
    pub params: Vec<String>,
    pub body: Vec<ASTNode>,
    pub is_static: bool,
}

/// A node of the syntax tree: a statement or an expression.
pub enum ASTNode {
    Program { statements: Vec<ASTNode> },
    Literal { value: LiteralValue },
    Variable { name: String, span: Span },
    BinaryOp { operator: BinaryOperator, left: Box<ASTNode>, right: Box<ASTNode> },
    UnaryOp { operator: UnaryOperator, operand: Box<ASTNode> },
    MethodCall { object: Box<ASTNode>, method: String, arguments: Vec<ASTNode> },
    FieldAccess { object: Box<ASTNode>, field: String },
    New { class: String, arguments: Vec<ASTNode>, type_arguments: Vec<String> },
    This,
    Me,
    ThisField { field: String },
    MeField { field: String },
    FunctionCall { name: String, arguments: Vec<ASTNode> },
    /// `from Parent.method(arguments)`: a method or constructor of a box that
    /// the current instance's box delegates to.
    FromCall { parent: String, method: String, arguments: Vec<ASTNode> },
    PeekExpr { scrutinee: Box<ASTNode>, arms: Vec<PeekArm>, else_expr: Box<ASTNode> },
    Assignment { target: Box<ASTNode>, value: Box<ASTNode> },
    Local { variables: Vec<String>, initial_values: Vec<Option<ASTNode>> },
    If { condition: Box<ASTNode>, then_body: Vec<ASTNode>, else_body: Option<Vec<ASTNode>> },
    Loop { condition: Box<ASTNode>, body: Vec<ASTNode> },
    Break,
    Continue,
    Return { value: Option<Box<ASTNode>> },
    Print { expression: Box<ASTNode> },
    FunctionDeclaration { decl: Rc<FunctionDecl> },
}

/// Another handle to the value behind a shared pointer (`Rc::clone`).
#[verifier::external_body]
pub fn share_rc<T>(f: &Rc<T>) -> (r: Rc<T>)
    ensures
        r == *f,
{
    Rc::clone(f)
}

} // verus!
