//! Laws that relate compilation, evaluation and the resolvers.
use vstd::prelude::*;

use crate::arith::Arithmetic;
use crate::context::Context;
use crate::error::{Error, EvalError};
use crate::eval::{spec_eval, spec_exec, spec_outcome, spec_run, spec_run_depth};
use crate::expr::Rpn;
use crate::op::{spec_arity, Op};
use crate::resolver::{LockedResolver, Resolver, ResolverState, Slot};

verus! {

/// Whether an instruction consumes more values than a stack of `n` holds.
pub open spec fn underflows<N>(a: Rpn<N>, n: nat) -> bool {
    match a {
        Rpn::Op(op) => spec_arity(op) > n,
        Rpn::Fn(_, _, argc) => argc > n,
        _ => false,
    }
}

/// An operator or a function call that finds fewer values on the stack than
/// it consumes stops the run with a stack underflow: nothing is read past
/// the bottom of the stack.
pub proof fn lemma_underflow<N, G, S1: ResolverState, S2: ResolverState, V: Resolver<S1, N>, F: Resolver<S2, G>>(
    ctx: Context<V, F>,
    code: Seq<Rpn<N>>,
    i: int,
    depth: nat,
)
    requires
        0 <= i < code.len(),
        underflows(code[i], depth),
    ensures
        spec_run_depth::<N, G, S1, S2, V, F>(ctx, code, i, depth) == Err::<nat, Error>(
            Error::EvalError(EvalError::RPNStackUnderflow),
        ),
{
}

/// An instruction list that starts with an operator, or with a call that
/// takes arguments, evaluates to a stack underflow, in any number domain.
pub proof fn lemma_underflow_first<N, G, S1: ResolverState, S2: ResolverState, V: Resolver<S1, N>, F: Resolver<S2, G>>(
    ctx: Context<V, F>,
    code: Seq<Rpn<N>>,
)
    requires
        code.len() > 0,
        underflows(code[0], 0),
    ensures
        spec_outcome::<N, G, S1, S2, V, F>(ctx, code) == Err::<(), Error>(
            Error::EvalError(EvalError::RPNStackUnderflow),
        ),
{
    lemma_underflow::<N, G, S1, S2, V, F>(ctx, code, 0, 0);
}

/// The instructions with every variable that designates the entry at `slot`
/// replaced by the literal `v`.
pub open spec fn pinned<N, V: LockedResolver<N>>(code: Seq<Rpn<N>>, vars: V, slot: Slot, v: N) -> Seq<Rpn<N>> {
    code.map_values(
        |a: Rpn<N>|
            match a {
                Rpn::Var(s, n) => if vars.aliases(s, slot) {
                    Rpn::Num(v)
                } else {
                    a
                },
                _ => a,
            },
    )
}

proof fn lemma_pinned_run<D: Arithmetic, S2: ResolverState, V: LockedResolver<D::Num>, F: Resolver<S2, D::Func>>(
    before: Context<V, F>,
    after: Context<V, F>,
    code: Seq<Rpn<D::Num>>,
    slot: Slot,
    v: D::Num,
    i: int,
    stack: Seq<D::Num>,
)
    requires
        0 <= i,
        after.fn_resolver() == before.fn_resolver(),
        forall|s: Slot|
            !before.var_resolver().aliases(s, slot) ==> #[trigger] after.var_resolver().at(s)
                == before.var_resolver().at(s),
        forall|s: Slot|
            before.var_resolver().aliases(s, slot) ==> #[trigger] after.var_resolver().at(s)
                == Some(v),
    ensures
        spec_run::<D, crate::resolver::Locked, S2, V, F>(after, code, i, stack) == spec_run::<
            D,
            crate::resolver::Locked,
            S2,
            V,
            F,
        >(before, pinned(code, before.var_resolver(), slot, v), i, stack),
    decreases code.len() - i,
{
    let p = pinned(code, before.var_resolver(), slot, v);
    if i < code.len() {
        let a = code[i];
        assert(p[i] == match a {
            Rpn::Var(s, n) => if before.var_resolver().aliases(s, slot) {
                Rpn::Num(v)
            } else {
                a
            },
            _ => a,
        });
        assert(spec_exec::<D, crate::resolver::Locked, S2, V, F>(after, stack, a) == spec_exec::<
            D,
            crate::resolver::Locked,
            S2,
            V,
            F,
        >(before, stack, p[i]));
        let r = spec_exec::<D, crate::resolver::Locked, S2, V, F>(after, stack, a);
        if r is Ok {
            lemma_pinned_run::<D, S2, V, F>(before, after, code, slot, v, i + 1, r->Ok_0);
        }
    }
}

/// Replacing a value through a handle on a locked variable resolver
/// changes what an already compiled expression evaluates to exactly as if
/// every variable designating that entry had been the new value: no
/// compiling again is needed for the change to show.
pub proof fn lemma_write_through_ptr<D: Arithmetic, S2: ResolverState, V: LockedResolver<D::Num>, F: Resolver<S2, D::Func>>(
    before: Context<V, F>,
    after: Context<V, F>,
    code: Seq<Rpn<D::Num>>,
    slot: Slot,
    v: D::Num,
)
    requires
        after.fn_resolver() == before.fn_resolver(),
        forall|s: Slot|
            !before.var_resolver().aliases(s, slot) ==> #[trigger] after.var_resolver().at(s)
                == before.var_resolver().at(s),
        forall|s: Slot|
            before.var_resolver().aliases(s, slot) ==> #[trigger] after.var_resolver().at(s)
                == Some(v),
    ensures
        spec_eval::<D, crate::resolver::Locked, S2, V, F>(after, code) == spec_eval::<
            D,
            crate::resolver::Locked,
            S2,
            V,
            F,
        >(before, pinned(code, before.var_resolver(), slot, v)),
{
    lemma_pinned_run::<D, S2, V, F>(before, after, code, slot, v, 0, Seq::empty());
}

/// Literal instructions for a list of values.
pub open spec fn literals<N>(args: Seq<N>) -> Seq<Rpn<N>> {
    args.map_values(|x: N| Rpn::Num(x))
}

proof fn lemma_run_literals<D: Arithmetic, S1: ResolverState, S2: ResolverState, V: Resolver<S1, D::Num>, F: Resolver<S2, D::Func>>(
    ctx: Context<V, F>,
    code: Seq<Rpn<D::Num>>,
    i: int,
    stack: Seq<D::Num>,
    args: Seq<D::Num>,
)
    requires
        0 <= i,
        i + args.len() <= code.len(),
        forall|j: int| 0 <= j < args.len() ==> code[i + j] == Rpn::Num(#[trigger] args[j]),
    ensures
        spec_run::<D, S1, S2, V, F>(ctx, code, i, stack) == spec_run::<D, S1, S2, V, F>(
            ctx,
            code,
            i + args.len(),
            stack + args,
        ),
    decreases args.len(),
{
    if args.len() > 0 {
        let rest = args.subrange(1, args.len() as int);
        assert(code[i + 0] == Rpn::Num(args[0]));
        assert forall|j: int| 0 <= j < rest.len() implies code[i + 1 + j] == Rpn::Num(
            #[trigger] rest[j],
        ) by {
            assert(code[i + (j + 1)] == Rpn::Num(args[j + 1]));
        }
        lemma_run_literals::<D, S1, S2, V, F>(ctx, code, i + 1, stack.push(args[0]), rest);
        assert(stack.push(args[0]) + rest =~= stack + args);
    } else {
        assert(stack + args =~= stack);
    }
}

proof fn lemma_run_suffix<D: Arithmetic, S1: ResolverState, S2: ResolverState, V: Resolver<S1, D::Num>, F: Resolver<S2, D::Func>>(
    ctx: Context<V, F>,
    a: Seq<Rpn<D::Num>>,
    i: int,
    b: Seq<Rpn<D::Num>>,
    k: int,
    stack: Seq<D::Num>,
)
    requires
        0 <= i <= a.len(),
        0 <= k <= b.len(),
        a.len() - i == b.len() - k,
        forall|j: int| 0 <= j < a.len() - i ==> #[trigger] a[i + j] == b[k + j],
    ensures
        spec_run::<D, S1, S2, V, F>(ctx, a, i, stack) == spec_run::<D, S1, S2, V, F>(
            ctx,
            b,
            k,
            stack,
        ),
    decreases a.len() - i,
{
    if i < a.len() {
        assert(a[i + 0] == b[k + 0]);
        let r = spec_exec::<D, S1, S2, V, F>(ctx, stack, a[i]);
        if r is Ok {
            assert forall|j: int| 0 <= j < a.len() - (i + 1) implies #[trigger] a[i + 1 + j] == b[k + 1 + j] by {
                assert(a[i + (j + 1)] == b[k + (j + 1)]);
            }
            lemma_run_suffix::<D, S1, S2, V, F>(ctx, a, i + 1, b, k + 1, r->Ok_0);
        }
    }
}

/// Constant folding keeps what the stack machine computes: an operator
/// applied to literal operands gives, from any stack and whatever follows,
/// the same as the single literal of its result.
pub proof fn lemma_fold_sound<D: Arithmetic, S1: ResolverState, S2: ResolverState, V: Resolver<S1, D::Num>, F: Resolver<S2, D::Func>>(
    ctx: Context<V, F>,
    stack: Seq<D::Num>,
    op: Op,
    args: Seq<D::Num>,
    rest: Seq<Rpn<D::Num>>,
)
    requires
        args.len() == spec_arity(op),
    ensures
        spec_run::<D, S1, S2, V, F>(ctx, literals(args).push(Rpn::Op(op)) + rest, 0, stack)
            == spec_run::<D, S1, S2, V, F>(
            ctx,
            seq![Rpn::Num(D::spec_apply(op, args))] + rest,
            0,
            stack,
        ),
{
    let n = args.len() as int;
    let a = literals(args).push(Rpn::Op(op)) + rest;
    let b = seq![Rpn::Num(D::spec_apply(op, args))] + rest;
    assert forall|j: int| 0 <= j < args.len() implies a[0 + j] == Rpn::Num(#[trigger] args[j]) by {
        assert(a[j] == literals(args)[j]);
    }
    lemma_run_literals::<D, S1, S2, V, F>(ctx, a, 0, stack, args);
    let t = stack + args;
    assert(a[n] == Rpn::<D::Num>::Op(op));
    assert(t.subrange(0, stack.len() as int) =~= stack);
    assert(t.subrange(stack.len() as int, t.len() as int) =~= args);
    let top = stack.push(D::spec_apply(op, args));
    assert(spec_exec::<D, S1, S2, V, F>(ctx, t, a[n]) == Ok::<Seq<D::Num>, Error>(top));
    assert(spec_exec::<D, S1, S2, V, F>(ctx, stack, b[0]) == Ok::<Seq<D::Num>, Error>(top));
    assert forall|j: int| 0 <= j < a.len() - (n + 1) implies #[trigger] a[n + 1 + j] == b[1 + j] by {
        assert(a[n + 1 + j] == rest[j]);
        assert(b[1 + j] == rest[j]);
    }
    lemma_run_suffix::<D, S1, S2, V, F>(ctx, a, n + 1, b, 1, top);
}

} // verus!
