//! The number domain that expressions compute in.
//!
//! Compilation and evaluation move numbers around and never compute with
//! them themselves: literals, operators and function calls are handed to the
//! caller's implementation of [`Arithmetic`].
//!
//! An implementation that Verus checks may describe its methods through the
//! spec functions below and say so with [`Arithmetic::specified`]; the value
//! clauses of the compiler's and the evaluator's contracts then hold of it.
//! For any other implementation those clauses claim nothing, while the
//! clauses on errors and on the shape of the instructions hold regardless.
use vstd::prelude::*;

use crate::op::{spec_arity, Op};

verus! {

/// A number domain: the type of its numbers, the type of the callable values
/// that function names resolve to, and what literals, operators and calls
/// yield in it.
pub trait Arithmetic {
    type Num: Copy;

    type Func: Copy;

    /// Whether the spec functions below describe what the methods return.
    open spec fn specified() -> bool {
        false
    }

    /// The value of a numeric literal, given its source text.
    open spec fn spec_literal(text: Seq<char>) -> Self::Num {
        arbitrary()
    }

    /// The number that stands for a boolean.
    open spec fn spec_bool(b: bool) -> Self::Num {
        arbitrary()
    }

    /// The result of an operator on its operands, in source order.
    open spec fn spec_apply(op: Op, args: Seq<Self::Num>) -> Self::Num {
        arbitrary()
    }

    /// The result of a function on its arguments, in source order.
    open spec fn spec_call(f: Self::Func, args: Seq<Self::Num>) -> Self::Num {
        arbitrary()
    }

    fn literal(text: &str) -> (r: Self::Num)
        ensures
            Self::specified() ==> r == Self::spec_literal(text@),
    ;

    fn boolean(b: bool) -> (r: Self::Num)
        ensures
            Self::specified() ==> r == Self::spec_bool(b),
    ;

    fn apply(op: Op, args: &[Self::Num]) -> (r: Self::Num)
        requires
            args@.len() == spec_arity(op),
        ensures
            Self::specified() ==> r == Self::spec_apply(op, args@),
    ;

    fn call(f: &Self::Func, args: &[Self::Num]) -> (r: Self::Num)
        ensures
            Self::specified() ==> r == Self::spec_call(*f, args@),
    ;
}

} // verus!
