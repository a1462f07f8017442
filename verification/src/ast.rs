//! Syntax tree of the script language subset.
//!
//! Number literals are held as their source text; the compiler only carries
//! them into the constant pool, and whatever evaluates the program reads the
//! text as an IEEE-754 double.

use crate::span::Span;
use vstd::prelude::*;

verus! {

/// Program mode.
#[derive(Debug, Clone, Copy, PartialEq, Eq, Structural)]
pub enum ProgramKind {
    /// Classic script.
    Script,
    /// ES module syntax mode.
    Module,
}

/// The bit pattern of an IEEE-754 double.
#[derive(Debug, Clone, Copy, PartialEq, Eq, Structural)]
pub struct NumberBits(pub u64);

/// Parsed program.
#[derive(Debug, PartialEq)]
pub struct Program {
    /// Program mode.
    pub kind: ProgramKind,
    /// Top-level statements.
    pub body: Vec<Stmt>,
    /// Whole-program span.
    pub span: Span,
}

/// Statement node.
#[derive(Debug, PartialEq)]
pub struct Stmt {
    /// Statement kind.
    pub kind: StmtKind,
    /// Source span.
    pub span: Span,
}

/// Statement variants.
#[derive(Debug, PartialEq)]
pub enum StmtKind {
    /// Empty statement.
    Empty,
    /// Block statement.
    Block(Vec<Stmt>),
    /// Expression statement.
    Expr(Expr),
    /// Variable declaration.
    VarDecl(VarDecl),
    /// Function declaration.
    FunctionDecl(FunctionDecl),
    /// Return statement.
    Return(Option<Expr>),
    /// If statement.
    If {
        /// Test expression.
        test: Expr,
        /// Consequent branch.
        consequent: Box<Stmt>,
        /// Optional alternate branch.
        alternate: Option<Box<Stmt>>,
    },
    /// While loop.
    While {
        /// Test expression.
        test: Expr,
        /// Loop body.
        body: Box<Stmt>,
    },
    /// For loop.
    For {
        /// Optional init statement/expression.
        init: Option<ForInit>,
        /// Optional test expression.
        test: Option<Expr>,
        /// Optional update expression.
        update: Option<Expr>,
        /// Loop body.
        body: Box<Stmt>,
    },
    /// Break statement.
    Break,
    /// Continue statement.
    Continue,
}

/// For-loop initializer.
#[derive(Debug, PartialEq)]
pub enum ForInit {
    /// Variable declaration initializer.
    VarDecl(VarDecl),
    /// Expression initializer.
    Expr(Expr),
}

/// Variable declaration statement.
#[derive(Debug, PartialEq)]
pub struct VarDecl {
    /// Declaration kind.
    pub kind: VarDeclKind,
    /// Declarators.
    pub declarations: Vec<VarDeclarator>,
}

/// Variable declaration kind.
#[derive(Debug, Clone, Copy, PartialEq, Eq, Structural)]
pub enum VarDeclKind {
    /// `let`
    Let,
    /// `const`
    Const,
    /// `var`
    Var,
}

/// Variable declarator.
#[derive(Debug, PartialEq)]
pub struct VarDeclarator {
    /// Binding pattern.
    pub id: BindingPattern,
    /// Optional initializer.
    pub init: Option<Expr>,
    /// Source span.
    pub span: Span,
}

/// Binding pattern subset.
#[derive(Debug, Clone, PartialEq, Eq)]
pub enum BindingPattern {
    /// Identifier binding.
    Identifier(String),
}

/// Function declaration.
#[derive(Debug, PartialEq)]
pub struct FunctionDecl {
    /// Function name.
    pub name: String,
    /// Parameters.
    pub params: Vec<FunctionParam>,
    /// Function body.
    pub body: Vec<Stmt>,
    /// Source span.
    pub span: Span,
}

/// Function parameter.
#[derive(Debug, Clone, PartialEq, Eq)]
pub struct FunctionParam {
    /// Parameter name.
    pub name: String,
    /// Source span.
    pub span: Span,
}

/// Expression node.
#[derive(Debug, PartialEq)]
pub struct Expr {
    /// Expression kind.
    pub kind: ExprKind,
    /// Source span.
    pub span: Span,
}

/// Expression variants.
#[derive(Debug, PartialEq)]
pub enum ExprKind {
    /// Literal expression.
    Literal(Literal),
    /// Identifier.
    Identifier(String),
    /// `this`
    This,
    /// Array literal.
    Array(Vec<Option<Expr>>),
    /// Object literal.
    Object(Vec<ObjectProperty>),
    /// Unary expression.
    Unary {
        /// Operator.
        op: UnaryOp,
        /// Argument.
        argument: Box<Expr>,
    },
    /// Binary expression.
    Binary {
        /// Operator.
        op: BinaryOp,
        /// Left expression.
        left: Box<Expr>,
        /// Right expression.
        right: Box<Expr>,
    },
    /// Assignment expression.
    Assign {
        /// Assignment operator.
        op: AssignOp,
        /// Left expression.
        left: Box<Expr>,
        /// Right expression.
        right: Box<Expr>,
    },
    /// Member expression.
    Member {
        /// Object expression.
        object: Box<Expr>,
        /// Property expression/name.
        property: MemberProperty,
    },
    /// Call expression.
    Call {
        /// Callee expression.
        callee: Box<Expr>,
        /// Arguments.
        arguments: Vec<Expr>,
    },
    /// Function expression.
    Function {
        /// Optional function name.
        name: Option<String>,
        /// Parameters.
        params: Vec<FunctionParam>,
        /// Body.
        body: Vec<Stmt>,
    },
    /// New expression.
    New {
        /// Constructor expression.
        callee: Box<Expr>,
        /// Arguments.
        arguments: Vec<Expr>,
    },
    /// Conditional expression.
    Conditional {
        /// Test.
        test: Box<Expr>,
        /// Consequent.
        consequent: Box<Expr>,
        /// Alternate.
        alternate: Box<Expr>,
    },
}

/// Object literal property.
#[derive(Debug, PartialEq)]
pub struct ObjectProperty {
    /// Property key.
    pub key: String,
    /// Property value.
    pub value: Expr,
    /// Source span.
    pub span: Span,
}

/// Member expression property.
#[derive(Debug, PartialEq)]
pub enum MemberProperty {
    /// Dot property access.
    Ident(String),
    /// Computed property access.
    Computed(Box<Expr>),
}

/// Literal value.
#[derive(Debug, Clone, PartialEq)]
pub enum Literal {
    /// Numeric literal, as its source text.
    Number(String),
    /// String literal.
    String(String),
    /// Boolean literal.
    Boolean(bool),
    /// Null literal.
    Null,
    /// Undefined literal.
    Undefined,
}

/// Unary operator.
#[derive(Debug, Clone, Copy, PartialEq, Eq, Structural)]
pub enum UnaryOp {
    /// `!`
    Not,
    /// `-`
    Neg,
    /// `+`
    Pos,
    /// `typeof`
    Typeof,
    /// `void`
    Void,
    /// `delete`
    Delete,
}

/// Binary operator.
#[derive(Debug, Clone, Copy, PartialEq, Eq, Structural)]
pub enum BinaryOp {
    /// `+`
    Add,
    /// `-`
    Sub,
    /// `*`
    Mul,
    /// `/`
    Div,
    /// `%`
    Mod,
    /// `==`
    Eq,
    /// `!=`
    NotEq,
    /// `===`
    StrictEq,
    /// `!==`
    StrictNotEq,
    /// `<`
    Lt,
    /// `<=`
    Lte,
    /// `>`
    Gt,
    /// `>=`
    Gte,
    /// `&&`
    LogicalAnd,
    /// `||`
    LogicalOr,
}

/// Assignment operator.
#[derive(Debug, Clone, Copy, PartialEq, Eq, Structural)]
pub enum AssignOp {
    /// `=`
    Assign,
    /// `+=`
    AddAssign,
    /// `-=`
    SubAssign,
    /// `*=`
    MulAssign,
    /// `/=`
    DivAssign,
    /// `%=`
    ModAssign,
}

impl Stmt {
    /// Creates a statement.
    pub fn new(kind: StmtKind, span: Span) -> (s: Self)
        ensures
            s == (Stmt { kind, span }),
    {
        Self { kind, span }
    }
}

impl Expr {
    /// Creates an expression.
    pub fn new(kind: ExprKind, span: Span) -> (e: Self)
        ensures
            e == (Expr { kind, span }),
    {
        Self { kind, span }
    }
}

} // verus!
