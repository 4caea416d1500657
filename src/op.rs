//! The operator table: precedence, associativity and arity.
use vstd::prelude::*;

verus! {

/// An operator of the expression language.
///
/// `Neg` and `Not` are unary; every other operator takes two operands.
/// Comparison and boolean operators yield `0` or `1` in the scalar domain.
#[derive(Debug, PartialEq, Eq, Structural, Clone, Copy)]
pub enum Op {
    Add,
    Sub,
    Mul,
    Div,
    Pow,
    Mod,
    Neg,
    Not,
    Or,
    And,
    Low,
    Great,
    LowEq,
    GreatEq,
    Eq,
    NotEq,
    BitAnd,
    BitOr,
    BitXor,
    Shl,
    Shr,
}

/// Binding strength of an operator, weakest first:
/// `||` < `&&` < comparisons < bitwise < shifts < `+ -` < `* / %` < unary < `^`.
pub open spec fn spec_precedence(op: Op) -> u8 {
    match op {
        Op::Or => 0,
        Op::And => 1,
        Op::Low | Op::Great | Op::LowEq | Op::GreatEq | Op::Eq | Op::NotEq => 2,
        Op::BitAnd | Op::BitOr | Op::BitXor => 3,
        Op::Shl | Op::Shr => 4,
        Op::Add | Op::Sub => 5,
        Op::Mul | Op::Div | Op::Mod => 6,
        Op::Neg | Op::Not => 7,
        Op::Pow => 8,
    }
}

/// Number of operands an operator consumes.
pub open spec fn spec_arity(op: Op) -> nat {
    match op {
        Op::Neg | Op::Not => 1,
        _ => 2,
    }
}

/// Whether an operator is unary.
pub open spec fn is_unary(op: Op) -> bool {
    op == Op::Neg || op == Op::Not
}

impl Op {
    pub fn precedence(&self) -> (r: u8)
        ensures
            r == spec_precedence(*self),
    {
        match self {
            Op::Or => 0,
            Op::And => 1,
            Op::Low | Op::Great | Op::LowEq | Op::GreatEq | Op::Eq | Op::NotEq => 2,
            Op::BitAnd | Op::BitOr | Op::BitXor => 3,
            Op::Shl | Op::Shr => 4,
            Op::Add | Op::Sub => 5,
            Op::Mul | Op::Div | Op::Mod => 6,
            Op::Neg | Op::Not => 7,
            Op::Pow => 8,
        }
    }

    pub fn num_operands(&self) -> (r: usize)
        ensures
            r == spec_arity(*self),
    {
        match self {
            Op::Neg | Op::Not => 1,
            _ => 2,
        }
    }

    /// Only `^` groups to the right.
    pub fn is_right_associative(&self) -> (r: bool)
        ensures
            r == (*self == Op::Pow),
    {
        match self {
            Op::Pow => true,
            _ => false,
        }
    }
}

} // verus!
