//! The syntax tree of a source program.
//!
//! A compilation unit holds one function, whose body is one `return` of an
//! expression. Expressions are integer literals under the unary operators
//! `+`, `-` and `!`, with parentheses.

use vstd::prelude::*;
use crate::ir::Type;

verus! {

/// An integer literal.
pub type Number = i32;

/// The root of a source program: one function.
#[derive(Debug, PartialEq, Eq)]
pub struct CompUnit {
    pub func_def: FuncDef,
}

/// A function definition: `func_type ident() block`.
#[derive(Debug, PartialEq, Eq)]
pub struct FuncDef {
    pub func_type: FuncType,
    pub ident: String,
    pub block: Block,
}

/// The declared return type of a function.
#[derive(Debug, Clone, Copy, PartialEq, Eq)]
pub enum FuncType {
    Int,
}

impl FuncType {
    /// The type of the IR function that a function of this type becomes.
    pub fn to_koopa_type(&self) -> (ty: Type)
        ensures
            ty == self.koopa_type(),
    {
        match self {
            FuncType::Int => Type::Int32,
        }
    }

    /// The type of the IR function that a function of this type becomes.
    pub open spec fn koopa_type(&self) -> Type {
        match self {
            FuncType::Int => Type::Int32,
        }
    }
}

/// A function body: one statement.
#[derive(Debug, PartialEq, Eq)]
pub struct Block {
    pub stmt: Stmt,
}

/// A `return` statement with the expression it returns.
#[derive(Debug, PartialEq, Eq)]
pub struct Stmt {
    pub exp: Exp,
}

/// An expression.
#[derive(Debug, PartialEq, Eq)]
pub struct Exp {
    pub unary_exp: Box<UnaryExp>,
}

/// A literal or an expression in parentheses.
#[derive(Debug, PartialEq, Eq)]
pub enum PrimaryExp {
    ExpPrimary { exp: Box<Exp> },
    NumberPrimary { num: Number },
}

/// A primary expression, or a unary operator applied to a unary expression.
#[derive(Debug, PartialEq, Eq)]
pub enum UnaryExp {
    PrimaryUnary { primary_exp: Box<PrimaryExp> },
    OpUnaryUnary { unary_op: UnaryOp, unary_exp: Box<UnaryExp> },
}

/// The unary operators `+`, `-` and `!`.
#[derive(Debug, Clone, Copy, PartialEq, Eq)]
pub enum UnaryOp {
    PLUS,
    MINUS,
    BANG,
}

impl UnaryOp {
    /// What the operator makes of a 32-bit operand: `+` keeps it, `-` negates
    /// it in two's complement, `!` gives 1 for zero and 0 for anything else.
    pub open spec fn apply(self, x: i32) -> i32 {
        match self {
            UnaryOp::PLUS => x,
            UnaryOp::MINUS => if x == i32::MIN { x } else { (-x) as i32 },
            UnaryOp::BANG => if x == 0 { 1i32 } else { 0i32 },
        }
    }
}

impl Exp {
    /// The value that the expression denotes.
    pub open spec fn value(self) -> i32
        decreases self,
    {
        self.unary_exp.value()
    }
}

impl PrimaryExp {
    /// The value that the expression denotes.
    pub open spec fn value(self) -> i32
        decreases self,
    {
        match self {
            PrimaryExp::ExpPrimary { exp } => exp.value(),
            PrimaryExp::NumberPrimary { num } => num,
        }
    }
}

impl UnaryExp {
    /// The value that the expression denotes.
    pub open spec fn value(self) -> i32
        decreases self,
    {
        match self {
            UnaryExp::PrimaryUnary { primary_exp } => primary_exp.value(),
            UnaryExp::OpUnaryUnary { unary_op, unary_exp } => unary_op.apply(unary_exp.value()),
        }
    }
}

/// The expression that is the literal `n`.
pub open spec fn literal(n: Number) -> UnaryExp {
    UnaryExp::PrimaryUnary { primary_exp: Box::new(PrimaryExp::NumberPrimary { num: n }) }
}

/// The expression `op e`.
pub open spec fn applied(op: UnaryOp, e: UnaryExp) -> UnaryExp {
    UnaryExp::OpUnaryUnary { unary_op: op, unary_exp: Box::new(e) }
}

/// The expression `(e)`.
pub open spec fn parenthesized(e: UnaryExp) -> UnaryExp {
    UnaryExp::PrimaryUnary {
        primary_exp: Box::new(PrimaryExp::ExpPrimary { exp: Box::new(Exp { unary_exp: Box::new(e) }) }),
    }
}

impl CompUnit {
    /// The value that the program's function returns.
    pub open spec fn value(self) -> i32 {
        self.func_def.block.stmt.exp.value()
    }
}

} // verus!
