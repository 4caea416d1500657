//! The evaluator: a stack machine over postfix instructions.
use vstd::prelude::*;

use crate::arith::Arithmetic;
use crate::context::Context;
use crate::error::{Error, EvalError};
use crate::expr::{Expr, Rpn};
use crate::op::spec_arity;
use crate::resolver::{Resolver, ResolverState};

verus! {

/// What one instruction does to the stack.
pub open spec fn spec_exec<D: Arithmetic, S1: ResolverState, S2: ResolverState, V: Resolver<S1, D::Num>, F: Resolver<S2, D::Func>>(
    ctx: Context<V, F>,
    stack: Seq<D::Num>,
    a: Rpn<D::Num>,
) -> Result<Seq<D::Num>, Error> {
    match a {
        Rpn::Num(v) => Ok(stack.push(v)),
        Rpn::Var(slot, name) => match ctx.var_resolver().at(slot) {
            Some(v) => Ok(stack.push(v)),
            None => Err(Error::UnknownVar(name)),
        },
        Rpn::Fn(slot, name, argc) => if argc > stack.len() {
            Err(Error::EvalError(EvalError::RPNStackUnderflow))
        } else {
            match ctx.fn_resolver().at(slot) {
                Some(f) => {
                    let start = stack.len() - argc;
                    Ok(
                        stack.subrange(0, start).push(
                            D::spec_call(f, stack.subrange(start, stack.len() as int)),
                        ),
                    )
                },
                None => Err(Error::UnknownFn(name)),
            }
        },
        Rpn::Op(op) => if spec_arity(op) > stack.len() {
            Err(Error::EvalError(EvalError::RPNStackUnderflow))
        } else {
            let start = stack.len() - spec_arity(op);
            Ok(
                stack.subrange(0, start).push(
                    D::spec_apply(op, stack.subrange(start, stack.len() as int)),
                ),
            )
        },
    }
}

/// The stack after the instructions from index `i` on, starting from
/// `stack`; or the first error.
pub open spec fn spec_run<D: Arithmetic, S1: ResolverState, S2: ResolverState, V: Resolver<S1, D::Num>, F: Resolver<S2, D::Func>>(
    ctx: Context<V, F>,
    code: Seq<Rpn<D::Num>>,
    i: int,
    stack: Seq<D::Num>,
) -> Result<Seq<D::Num>, Error>
    decreases code.len() - i,
{
    if i < 0 || i >= code.len() {
        Ok(stack)
    } else {
        match spec_exec::<D, S1, S2, V, F>(ctx, stack, code[i]) {
            Ok(s) => spec_run::<D, S1, S2, V, F>(ctx, code, i + 1, s),
            Err(e) => Err(e),
        }
    }
}

/// The value of an instruction list: the one value it leaves on an empty
/// stack.
pub open spec fn spec_eval<D: Arithmetic, S1: ResolverState, S2: ResolverState, V: Resolver<S1, D::Num>, F: Resolver<S2, D::Func>>(
    ctx: Context<V, F>,
    code: Seq<Rpn<D::Num>>,
) -> Result<D::Num, Error> {
    match spec_run::<D, S1, S2, V, F>(ctx, code, 0, Seq::empty()) {
        Ok(s) => if s.len() == 1 {
            Ok(s[0])
        } else {
            Err(Error::EvalError(EvalError::MalformedExpression))
        },
        Err(e) => Err(e),
    }
}

/// What one instruction does to the depth of the stack: the part of
/// evaluation that no number decides.
pub open spec fn spec_exec_depth<N, G, S1: ResolverState, S2: ResolverState, V: Resolver<S1, N>, F: Resolver<S2, G>>(
    ctx: Context<V, F>,
    depth: nat,
    a: Rpn<N>,
) -> Result<nat, Error> {
    match a {
        Rpn::Num(_) => Ok(depth + 1),
        Rpn::Var(slot, name) => if ctx.var_resolver().at(slot) is Some {
            Ok(depth + 1)
        } else {
            Err(Error::UnknownVar(name))
        },
        Rpn::Fn(slot, name, argc) => if argc > depth {
            Err(Error::EvalError(EvalError::RPNStackUnderflow))
        } else if ctx.fn_resolver().at(slot) is Some {
            Ok((depth - argc + 1) as nat)
        } else {
            Err(Error::UnknownFn(name))
        },
        Rpn::Op(op) => if spec_arity(op) > depth {
            Err(Error::EvalError(EvalError::RPNStackUnderflow))
        } else {
            Ok((depth - spec_arity(op) + 1) as nat)
        },
    }
}

/// The depth of the stack after the instructions from index `i` on, or the
/// first error.
pub open spec fn spec_run_depth<N, G, S1: ResolverState, S2: ResolverState, V: Resolver<S1, N>, F: Resolver<S2, G>>(
    ctx: Context<V, F>,
    code: Seq<Rpn<N>>,
    i: int,
    depth: nat,
) -> Result<nat, Error>
    decreases code.len() - i,
{
    if i < 0 || i >= code.len() {
        Ok(depth)
    } else {
        match spec_exec_depth::<N, G, S1, S2, V, F>(ctx, depth, code[i]) {
            Ok(d) => spec_run_depth::<N, G, S1, S2, V, F>(ctx, code, i + 1, d),
            Err(e) => Err(e),
        }
    }
}

/// Whether an instruction list evaluates to a value, or else the error it
/// stops with; this does not depend on any number.
pub open spec fn spec_outcome<N, G, S1: ResolverState, S2: ResolverState, V: Resolver<S1, N>, F: Resolver<S2, G>>(
    ctx: Context<V, F>,
    code: Seq<Rpn<N>>,
) -> Result<(), Error> {
    match spec_run_depth::<N, G, S1, S2, V, F>(ctx, code, 0, 0) {
        Ok(d) => if d == 1 {
            Ok(())
        } else {
            Err(Error::EvalError(EvalError::MalformedExpression))
        },
        Err(e) => Err(e),
    }
}

/// Whether the instructions are one literal, which evaluates to itself at
/// once.
pub open spec fn one_literal<N>(code: Seq<Rpn<N>>) -> bool {
    code.len() == 1 && code[0] is Num
}

impl<D: Arithmetic> Expr<D> {
    /// Evaluates on a caller-owned stack, which is cleared first. An
    /// expression folded to one literal gives it at once, leaving the stack
    /// alone.
    pub fn eval<S1: ResolverState, S2: ResolverState, V: Resolver<S1, D::Num>, F: Resolver<S2, D::Func>>(
        &self,
        ctx: &Context<V, F>,
        stack: &mut Vec<D::Num>,
    ) -> (r: Result<D::Num, Error>)
        ensures
            match r {
                Ok(_) => spec_outcome::<D::Num, D::Func, S1, S2, V, F>(*ctx, self.code()) == Ok::<
                    (),
                    Error,
                >(()),
                Err(e) => spec_outcome::<D::Num, D::Func, S1, S2, V, F>(*ctx, self.code()) == Err::<
                    (),
                    Error,
                >(e),
            },
            D::specified() ==> r == spec_eval::<D, S1, S2, V, F>(*ctx, self.code()),
            one_literal(self.code()) ==> r == Ok::<D::Num, Error>(self.code()[0]->Num_0),
            one_literal(self.code()) ==> final(stack)@ == old(stack)@,
            !one_literal(self.code()) && r is Ok ==> final(stack)@.len() == 0,
    {
        let code = self.instructions();
        if code.len() == 1 {
            if let Rpn::Num(v) = &code[0] {
                proof {
                    reveal_with_fuel(spec_run, 2);
                    reveal_with_fuel(spec_run_depth, 2);
                    assert(Seq::<D::Num>::empty().push(*v)[0] == *v);
                }
                return Ok(*v);
            }
        }
        stack.clear();
        let mut i: usize = 0;
        while i < code.len()
            invariant
                code@ == self.code(),
                i <= code@.len(),
                D::specified() ==> spec_run::<D, S1, S2, V, F>(*ctx, code@, 0, Seq::empty())
                    == spec_run::<D, S1, S2, V, F>(*ctx, code@, i as int, stack@),
                spec_run_depth::<D::Num, D::Func, S1, S2, V, F>(*ctx, code@, 0, 0) == spec_run_depth::<
                    D::Num,
                    D::Func,
                    S1,
                    S2,
                    V,
                    F,
                >(*ctx, code@, i as int, stack@.len()),
            decreases code@.len() - i,
        {
            match &code[i] {
                Rpn::Num(v) => {
                    stack.push(*v);
                },
                Rpn::Var(slot, name) => match ctx.vars().fetch(slot) {
                    Some(v) => {
                        stack.push(*v);
                    },
                    None => {
                        return Err(Error::UnknownVar(name.clone()));
                    },
                },
                Rpn::Fn(slot, name, argc) => {
                    let len = stack.len();
                    if *argc > len {
                        return Err(Error::EvalError(EvalError::RPNStackUnderflow));
                    }
                    let start = len - *argc;
                    match ctx.fns().fetch(slot) {
                        Some(f) => {
                            let v = D::call(f, &stack.as_slice()[start..len]);
                            stack.truncate(start);
                            stack.push(v);
                        },
                        None => {
                            return Err(Error::UnknownFn(name.clone()));
                        },
                    }
                },
                Rpn::Op(op) => {
                    let len = stack.len();
                    let n = op.num_operands();
                    if n > len {
                        return Err(Error::EvalError(EvalError::RPNStackUnderflow));
                    }
                    let start = len - n;
                    let v = D::apply(*op, &stack.as_slice()[start..len]);
                    stack.truncate(start);
                    stack.push(v);
                },
            }
            i = i + 1;
        }
        if stack.len() == 1 {
            let v = stack.pop().unwrap();
            Ok(v)
        } else {
            Err(Error::EvalError(EvalError::MalformedExpression))
        }
    }
}

} // verus!
