//! Compiled expressions: postfix instruction lists.
use vstd::prelude::*;

use crate::arith::Arithmetic;
use crate::op::Op;
use crate::resolver::Slot;

verus! {

/// One postfix instruction. Variables and functions keep their name, for
/// error reports, beside the slot their value is found through.
#[derive(Debug, PartialEq)]
pub enum Rpn<N> {
    Num(N),
    Var(Slot, String),
    Fn(Slot, String, usize),
    Op(Op),
}

/// An instruction as the spec of the compiler describes it.
pub enum Instr<N> {
    Num(N),
    Var(Seq<char>),
    /// A function name and its number of arguments.
    Fn(Seq<char>, nat),
    Op(Op),
}

pub open spec fn instr_view<N>(a: Rpn<N>) -> Instr<N> {
    match a {
        Rpn::Num(v) => Instr::Num(v),
        Rpn::Var(_, n) => Instr::Var(n@),
        Rpn::Fn(_, n, argc) => Instr::Fn(n@, argc as nat),
        Rpn::Op(op) => Instr::Op(op),
    }
}

pub open spec fn code_view<N>(s: Seq<Rpn<N>>) -> Seq<Instr<N>> {
    s.map_values(|a: Rpn<N>| instr_view(a))
}

/// An instruction with the value of a literal left out.
pub open spec fn erase<N>(i: Instr<N>) -> Instr<()> {
    match i {
        Instr::Num(_) => Instr::Num(()),
        Instr::Var(n) => Instr::Var(n),
        Instr::Fn(n, argc) => Instr::Fn(n, argc),
        Instr::Op(op) => Instr::Op(op),
    }
}

/// The instructions with the values of literals left out: which literals,
/// names, calls and operators come in which order.
pub open spec fn shape<N>(s: Seq<Instr<N>>) -> Seq<Instr<()>> {
    s.map_values(|i: Instr<N>| erase(i))
}

/// A compiled expression, specialised at compile time to the resolvers of
/// the context it was compiled against.
pub struct Expr<D: Arithmetic> {
    pub(crate) code: Vec<Rpn<D::Num>>,
}

impl<D: Arithmetic> Expr<D> {
    /// The instructions, in the order they run.
    pub closed spec fn code(&self) -> Seq<Rpn<D::Num>> {
        self.code@
    }

    pub(crate) fn from_code(code: Vec<Rpn<D::Num>>) -> (r: Self)
        ensures
            r.code() == code@,
    {
        Expr { code }
    }

    pub fn len(&self) -> (r: usize)
        ensures
            r == self.code().len(),
    {
        self.code.len()
    }

    /// The instructions, in the order they run.
    pub fn instructions(&self) -> (r: &Vec<Rpn<D::Num>>)
        ensures
            r@ == self.code(),
    {
        &self.code
    }
}

} // verus!
