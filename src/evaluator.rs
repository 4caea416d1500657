//! Evaluators that own the choice of stack.
use vstd::prelude::*;

use crate::arith::Arithmetic;
use crate::context::{empty_context, Context};
use crate::error::Error;
use crate::eval::{one_literal, spec_eval, spec_outcome};
use crate::expr::Expr;
use crate::resolver::empty::EmptyResolver;
use crate::resolver::indexed::IndexedResolver;
use crate::resolver::{Resolver, ResolverState, Unlocked};

verus! {

/// Evaluates compiled expressions against any context.
///
/// [`RpnEvaluator::eval`] makes a new stack on each call; a caller that
/// evaluates often can hand one in through
/// [`RpnEvaluator::eval_with_stack`].
pub struct RpnEvaluator;

impl RpnEvaluator {
    pub fn new() -> (r: Self) {
        RpnEvaluator
    }

    pub fn eval<D: Arithmetic, S1: ResolverState, S2: ResolverState, V: Resolver<S1, D::Num>, F: Resolver<S2, D::Func>>(
        &self,
        expr: &Expr<D>,
        ctx: &Context<V, F>,
    ) -> (r: Result<D::Num, Error>)
        ensures
            match r {
                Ok(_) => spec_outcome::<D::Num, D::Func, S1, S2, V, F>(*ctx, expr.code()) == Ok::<
                    (),
                    Error,
                >(()),
                Err(e) => spec_outcome::<D::Num, D::Func, S1, S2, V, F>(*ctx, expr.code()) == Err::<
                    (),
                    Error,
                >(e),
            },
            D::specified() ==> r == spec_eval::<D, S1, S2, V, F>(*ctx, expr.code()),
    {
        let mut stack: Vec<D::Num> = Vec::with_capacity(expr.len() / 2);
        self.eval_with_stack(expr, ctx, &mut stack)
    }

    pub fn eval_with_stack<D: Arithmetic, S1: ResolverState, S2: ResolverState, V: Resolver<S1, D::Num>, F: Resolver<S2, D::Func>>(
        &self,
        expr: &Expr<D>,
        ctx: &Context<V, F>,
        stack: &mut Vec<D::Num>,
    ) -> (r: Result<D::Num, Error>)
        ensures
            match r {
                Ok(_) => spec_outcome::<D::Num, D::Func, S1, S2, V, F>(*ctx, expr.code()) == Ok::<
                    (),
                    Error,
                >(()),
                Err(e) => spec_outcome::<D::Num, D::Func, S1, S2, V, F>(*ctx, expr.code()) == Err::<
                    (),
                    Error,
                >(e),
            },
            D::specified() ==> r == spec_eval::<D, S1, S2, V, F>(*ctx, expr.code()),
            one_literal(expr.code()) ==> final(stack)@ == old(stack)@,
            !one_literal(expr.code()) && r is Ok ==> final(stack)@.len() == 0,
    {
        expr.eval(ctx, stack)
    }

    /// Evaluates against a context that knows no name.
    pub fn eval_without_context<D: Arithmetic>(&self, expr: &Expr<D>) -> (r: Result<D::Num, Error>)
        ensures
            match r {
                Ok(_) => spec_outcome::<
                    D::Num,
                    D::Func,
                    Unlocked,
                    Unlocked,
                    EmptyResolver<Unlocked>,
                    EmptyResolver<Unlocked>,
                >(empty_context(), expr.code()) == Ok::<(), Error>(()),
                Err(e) => spec_outcome::<
                    D::Num,
                    D::Func,
                    Unlocked,
                    Unlocked,
                    EmptyResolver<Unlocked>,
                    EmptyResolver<Unlocked>,
                >(empty_context(), expr.code()) == Err::<(), Error>(e),
            },
            D::specified() ==> r == spec_eval::<
                D,
                Unlocked,
                Unlocked,
                EmptyResolver<Unlocked>,
                EmptyResolver<Unlocked>,
            >(empty_context(), expr.code()),
    {
        let ctx = Context::empty();
        self.eval(expr, &ctx)
    }
}

/// Evaluates compiled expressions against contexts of indexed resolvers.
pub struct IRpnEvaluator;

impl IRpnEvaluator {
    pub fn new() -> (r: Self) {
        IRpnEvaluator
    }

    pub fn eval<D: Arithmetic, S: ResolverState>(
        &self,
        expr: &Expr<D>,
        ctx: &Context<IndexedResolver<S, D::Num>, IndexedResolver<S, D::Func>>,
    ) -> (r: Result<D::Num, Error>)
        ensures
            match r {
                Ok(_) => spec_outcome::<
                    D::Num,
                    D::Func,
                    S,
                    S,
                    IndexedResolver<S, D::Num>,
                    IndexedResolver<S, D::Func>,
                >(*ctx, expr.code()) == Ok::<(), Error>(()),
                Err(e) => spec_outcome::<
                    D::Num,
                    D::Func,
                    S,
                    S,
                    IndexedResolver<S, D::Num>,
                    IndexedResolver<S, D::Func>,
                >(*ctx, expr.code()) == Err::<(), Error>(e),
            },
            D::specified() ==> r == spec_eval::<
                D,
                S,
                S,
                IndexedResolver<S, D::Num>,
                IndexedResolver<S, D::Func>,
            >(*ctx, expr.code()),
    {
        let mut stack: Vec<D::Num> = Vec::with_capacity(expr.len() / 2);
        self.eval_with_stack(expr, ctx, &mut stack)
    }

    pub fn eval_with_stack<D: Arithmetic, S: ResolverState>(
        &self,
        expr: &Expr<D>,
        ctx: &Context<IndexedResolver<S, D::Num>, IndexedResolver<S, D::Func>>,
        stack: &mut Vec<D::Num>,
    ) -> (r: Result<D::Num, Error>)
        ensures
            match r {
                Ok(_) => spec_outcome::<
                    D::Num,
                    D::Func,
                    S,
                    S,
                    IndexedResolver<S, D::Num>,
                    IndexedResolver<S, D::Func>,
                >(*ctx, expr.code()) == Ok::<(), Error>(()),
                Err(e) => spec_outcome::<
                    D::Num,
                    D::Func,
                    S,
                    S,
                    IndexedResolver<S, D::Num>,
                    IndexedResolver<S, D::Func>,
                >(*ctx, expr.code()) == Err::<(), Error>(e),
            },
            D::specified() ==> r == spec_eval::<
                D,
                S,
                S,
                IndexedResolver<S, D::Num>,
                IndexedResolver<S, D::Func>,
            >(*ctx, expr.code()),
            one_literal(expr.code()) ==> final(stack)@ == old(stack)@,
            !one_literal(expr.code()) && r is Ok ==> final(stack)@.len() == 0,
    {
        expr.eval(ctx, stack)
    }
}

} // verus!
