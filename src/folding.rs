//! Constant folding is transparent: the folded postfix form of a source
//! text computes what the unfolded one computes.
use vstd::prelude::*;

use crate::arith::Arithmetic;
use crate::compiler::{
    call_args, fold_op, follows_call, initial, literal_values, pop_for, run, spec_postfix, token_step, unwind,
    without_top, Machine, Pend,
};
use crate::context::Context;
use crate::eval::{spec_eval, spec_exec, spec_run};
use crate::expr::{code_view, instr_view, Instr, Rpn};
use crate::resolver::{Resolver, ResolverState};
use crate::lexer::{spec_lex, Token};
use crate::op::{spec_arity, Op};

verus! {

/// What one instruction does to a stack of numbers; names are not
/// evaluated here.
pub open spec fn step_instr<D: Arithmetic>(s: Seq<D::Num>, x: Instr<D::Num>) -> Option<Seq<D::Num>> {
    match x {
        Instr::Num(v) => Some(s.push(v)),
        Instr::Op(op) => if spec_arity(op) > s.len() {
            None
        } else {
            let start = s.len() - spec_arity(op);
            Some(s.subrange(0, start).push(D::spec_apply(op, s.subrange(start, s.len() as int))))
        },
        _ => None,
    }
}

/// The stack after running postfix instructions from `s`, if every step
/// succeeds.
pub open spec fn run_instr<D: Arithmetic>(code: Seq<Instr<D::Num>>, s: Seq<D::Num>) -> Option<Seq<D::Num>>
    decreases code.len(),
{
    if code.len() == 0 {
        Some(s)
    } else {
        match step_instr::<D>(s, code[0]) {
            Some(t) => run_instr::<D>(code.subrange(1, code.len() as int), t),
            None => None,
        }
    }
}

/// Two instruction lists that run alike from every stack.
pub open spec fn equiv<D: Arithmetic>(a: Seq<Instr<D::Num>>, b: Seq<Instr<D::Num>>) -> bool {
    forall|s: Seq<D::Num>| #[trigger] run_instr::<D>(a, s) == run_instr::<D>(b, s)
}

/// An instruction list that, from every stack, pushes `v`.
pub open spec fn computes<D: Arithmetic>(e: Seq<Instr<D::Num>>, v: D::Num) -> bool {
    forall|s: Seq<D::Num>| #[trigger] run_instr::<D>(e, s) == Some(s.push(v))
}

pub open spec fn join<A>(es: Seq<Seq<A>>) -> Seq<A>
    decreases es.len(),
{
    if es.len() == 0 {
        Seq::empty()
    } else {
        join(es.drop_last()) + es.last()
    }
}

proof fn lemma_run_concat<D: Arithmetic>(a: Seq<Instr<D::Num>>, b: Seq<Instr<D::Num>>, s: Seq<D::Num>)
    ensures
        run_instr::<D>(a + b, s) == match run_instr::<D>(a, s) {
            Some(t) => run_instr::<D>(b, t),
            None => None,
        },
    decreases a.len(),
{
    if a.len() == 0 {
        assert(a + b =~= b);
    } else {
        assert((a + b)[0] == a[0]);
        assert((a + b).subrange(1, (a + b).len() as int) =~= a.subrange(1, a.len() as int) + b);
        match step_instr::<D>(s, a[0]) {
            Some(t) => lemma_run_concat::<D>(a.subrange(1, a.len() as int), b, t),
            None => {},
        }
    }
}

proof fn lemma_equiv_append<D: Arithmetic>(a: Seq<Instr<D::Num>>, b: Seq<Instr<D::Num>>, c: Seq<Instr<D::Num>>)
    requires
        equiv::<D>(a, b),
    ensures
        equiv::<D>(a + c, b + c),
{
    assert forall|s: Seq<D::Num>| #[trigger] run_instr::<D>(a + c, s) == run_instr::<D>(b + c, s) by {
        lemma_run_concat::<D>(a, c, s);
        lemma_run_concat::<D>(b, c, s);
        assert(run_instr::<D>(a, s) == run_instr::<D>(b, s));
    }
}

proof fn lemma_join_push<A>(es: Seq<Seq<A>>, e: Seq<A>)
    ensures
        join(es.push(e)) == join(es) + e,
{
    assert(es.push(e).drop_last() =~= es);
}

proof fn lemma_join_split<A>(es: Seq<Seq<A>>, i: int)
    requires
        0 <= i <= es.len(),
    ensures
        join(es) == join(es.subrange(0, i)) + join(es.subrange(i, es.len() as int)),
    decreases es.len(),
{
    if i == es.len() {
        assert(es.subrange(0, i) =~= es);
        assert(es.subrange(i, es.len() as int) =~= Seq::<Seq<A>>::empty());
        assert(join(es) + Seq::<A>::empty() =~= join(es));
    } else {
        let d = es.drop_last();
        lemma_join_split(d, i);
        assert(d.subrange(0, i) =~= es.subrange(0, i));
        let t = es.subrange(i, es.len() as int);
        assert(t.drop_last() =~= d.subrange(i, d.len() as int));
        assert(t.last() == es.last());
        assert(join(es) =~= join(es.subrange(0, i)) + join(t));
    }
}

/// Pieces that each push their value push all of them, in order.
proof fn lemma_join_computes<D: Arithmetic>(es: Seq<Seq<Instr<D::Num>>>, vs: Seq<D::Num>, s: Seq<D::Num>)
    requires
        es.len() == vs.len(),
        forall|j: int| 0 <= j < es.len() ==> computes::<D>(#[trigger] es[j], vs[j]),
    ensures
        run_instr::<D>(join(es), s) == Some(s + vs),
    decreases es.len(),
{
    if es.len() == 0 {
        assert(s + vs =~= s);
    } else {
        let d = es.drop_last();
        let ws = vs.drop_last();
        assert forall|j: int| 0 <= j < d.len() implies computes::<D>(#[trigger] d[j], ws[j]) by {
            assert(d[j] == es[j]);
            assert(computes::<D>(es[j], vs[j]));
        }
        lemma_join_computes::<D>(d, ws, s);
        lemma_run_concat::<D>(join(d), es.last(), s);
        assert(computes::<D>(es[es.len() - 1], vs[vs.len() - 1]));
        assert(run_instr::<D>(es.last(), s + ws) == Some((s + ws).push(vs.last())));
        assert((s + ws).push(vs.last()) =~= s + vs);
    }
}

proof fn lemma_literals_computes<D: Arithmetic>(vs: Seq<D::Num>, s: Seq<D::Num>)
    ensures
        run_instr::<D>(vs.map_values(|v: D::Num| Instr::Num(v)), s) == Some(s + vs),
    decreases vs.len(),
{
    let l = vs.map_values(|v: D::Num| Instr::Num(v));
    if vs.len() == 0 {
        assert(s + vs =~= s);
    } else {
        let r = vs.subrange(1, vs.len() as int);
        assert(l.subrange(1, l.len() as int) =~= r.map_values(|v: D::Num| Instr::Num(v)));
        lemma_literals_computes::<D>(r, s.push(vs[0]));
        assert(s.push(vs[0]) + r =~= s + vs);
    }
}

/// How a folding machine stands to a machine that does not fold: the same
/// operator stack; the unfolded output is `x` and then one piece per
/// trailing literal of the folded output, whose part before those literals
/// is `y`; `x` runs like `y`, and each piece pushes its literal.
pub struct Witness<N> {
    pub x: Seq<Instr<N>>,
    pub y: Seq<Instr<N>>,
    pub es: Seq<Seq<Instr<N>>>,
}

pub open spec fn tail_values<N>(m: Machine<N>) -> Seq<N> {
    literal_values(m.out.subrange(m.out.len() - m.k, m.out.len() as int))
}

pub open spec fn rel<D: Arithmetic>(mf: Machine<D::Num>, mp: Machine<D::Num>, w: Witness<D::Num>) -> bool {
    &&& mf.ops == mp.ops
    &&& mf.commas == mp.commas
    &&& mf.k <= mf.out.len()
    &&& w.y == mf.out.subrange(0, mf.out.len() - mf.k)
    &&& forall|j: int| mf.out.len() - mf.k <= j < mf.out.len() ==> (#[trigger] mf.out[j]) is Num
    &&& w.es.len() == mf.k
    &&& mp.out == w.x + join(w.es)
    &&& equiv::<D>(w.x, w.y)
    &&& forall|j: int| 0 <= j < mf.k ==> computes::<D>(#[trigger] w.es[j], tail_values(mf)[j])
}

/// The outputs of related machines run alike.
proof fn lemma_rel_equiv<D: Arithmetic>(mf: Machine<D::Num>, mp: Machine<D::Num>, w: Witness<D::Num>)
    requires
        rel::<D>(mf, mp, w),
    ensures
        equiv::<D>(mp.out, mf.out),
{
    let n = mf.out.len();
    let vs = tail_values(mf);
    let lits = vs.map_values(|v: D::Num| Instr::Num(v));
    assert(mf.out.subrange(n - mf.k, n as int) =~= lits) by {
        assert forall|j: int| 0 <= j < mf.k implies mf.out.subrange(n - mf.k, n as int)[j] == lits[j] by {
            assert(mf.out[n - mf.k + j] is Num);
        }
    }
    assert(mf.out =~= w.y + lits);
    assert forall|s: Seq<D::Num>| #[trigger] run_instr::<D>(mp.out, s) == run_instr::<D>(mf.out, s) by {
        lemma_run_concat::<D>(w.x, join(w.es), s);
        lemma_run_concat::<D>(w.y, lits, s);
        assert(run_instr::<D>(w.x, s) == run_instr::<D>(w.y, s));
        match run_instr::<D>(w.x, s) {
            Some(t) => {
                lemma_join_computes::<D>(w.es, vs, t);
                lemma_literals_computes::<D>(vs, t);
            },
            None => {},
        }
    }
}

/// Appending the same non-literal instruction to both outputs keeps them
/// related, with no trailing literal left.
proof fn lemma_rel_push_other<D: Arithmetic>(
    mf: Machine<D::Num>,
    mp: Machine<D::Num>,
    w: Witness<D::Num>,
    x: Instr<D::Num>,
) -> (w2: Witness<D::Num>)
    requires
        rel::<D>(mf, mp, w),
    ensures
        rel::<D>(
            Machine { out: mf.out.push(x), k: 0, ops: mf.ops, commas: mf.commas },
            Machine { out: mp.out.push(x), k: mp.k, ops: mp.ops, commas: mp.commas },
            w2,
        ),
{
    lemma_rel_equiv::<D>(mf, mp, w);
    lemma_equiv_append::<D>(mp.out, mf.out, seq![x]);
    let w2 = Witness { x: mp.out.push(x), y: mf.out.push(x), es: Seq::empty() };
    assert(mp.out + seq![x] =~= mp.out.push(x));
    assert(mf.out + seq![x] =~= mf.out.push(x));
    assert(mp.out.push(x) + join(Seq::<Seq<Instr<D::Num>>>::empty()) =~= mp.out.push(x));
    assert(mf.out.push(x).subrange(0, mf.out.push(x).len() - 0) =~= mf.out.push(x));
    w2
}

/// Appending a literal to both outputs keeps them related.
proof fn lemma_rel_push_lit<D: Arithmetic>(
    mf: Machine<D::Num>,
    mp: Machine<D::Num>,
    w: Witness<D::Num>,
    v: D::Num,
) -> (w2: Witness<D::Num>)
    requires
        rel::<D>(mf, mp, w),
    ensures
        rel::<D>(
            Machine { out: mf.out.push(Instr::Num(v)), k: mf.k + 1, ops: mf.ops, commas: mf.commas },
            Machine { out: mp.out.push(Instr::Num(v)), k: mp.k + 1, ops: mp.ops, commas: mp.commas },
            w2,
        ),
{
    let e = seq![Instr::Num(v)];
    let w2 = Witness { x: w.x, y: w.y, es: w.es.push(e) };
    let mf2 = Machine { out: mf.out.push(Instr::Num(v)), k: mf.k + 1, ops: mf.ops, commas: mf.commas };
    lemma_join_push(w.es, e);
    assert(mp.out.push(Instr::Num(v)) =~= w.x + join(w.es.push(e)));
    assert(mf2.out.subrange(0, mf2.out.len() - mf2.k) =~= w.y);
    assert(computes::<D>(e, v)) by {
        assert forall|s: Seq<D::Num>| #[trigger] run_instr::<D>(e, s) == Some(s.push(v)) by {
            assert(e.subrange(1, 1) =~= Seq::<Instr<D::Num>>::empty());
            assert(run_instr::<D>(Seq::empty(), s.push(v)) == Some(s.push(v)));
        }
    }
    assert forall|j: int| 0 <= j < mf2.k implies computes::<D>(#[trigger] w2.es[j], tail_values(mf2)[j]) by {
        let n = mf.out.len();
        if j < mf.k {
            assert(tail_values(mf2)[j] == mf2.out[n + 1 - mf2.k + j]->Num_0);
            assert(tail_values(mf)[j] == mf.out[n - mf.k + j]->Num_0);
            assert(w2.es[j] == w.es[j]);
        } else {
            assert(tail_values(mf2)[j] == v);
        }
    }
    w2
}

/// One operator sent out: folded by one machine, emitted by the other.
proof fn lemma_rel_fold<D: Arithmetic>(mf: Machine<D::Num>, mp: Machine<D::Num>, w: Witness<D::Num>, op: Op) -> (w2: Witness<D::Num>)
    requires
        rel::<D>(mf, mp, w),
    ensures
        rel::<D>(fold_op::<D>(mf, op, true), fold_op::<D>(mp, op, false), w2),
{
    let n = spec_arity(op);
    if mf.k >= n {
        let len = mf.out.len();
        let k = mf.k;
        let vs = tail_values(mf);
        let top = vs.subrange(k - n, k as int);
        let head = w.es.subrange(0, k - n);
        let tail = w.es.subrange(k - n, k as int);
        let v = D::spec_apply(op, literal_values(mf.out.subrange(len - n, len as int)));
        assert(literal_values(mf.out.subrange(len - n, len as int)) =~= top);
        let e = join(tail) + seq![Instr::Op(op)];
        let w2 = Witness { x: w.x, y: w.y, es: head.push(e) };
        let mf2 = fold_op::<D>(mf, op, true);
        let mp2 = fold_op::<D>(mp, op, false);
        lemma_join_split(w.es, k - n);
        lemma_join_push(head, e);
        assert(mp2.out =~= w.x + join(head.push(e)));
        assert(mf2.out.subrange(0, mf2.out.len() - mf2.k) =~= w.y);
        assert(computes::<D>(e, v)) by {
            assert forall|s: Seq<D::Num>| #[trigger] run_instr::<D>(e, s) == Some(s.push(v)) by {
                assert forall|j: int| 0 <= j < tail.len() implies computes::<D>(#[trigger] tail[j], top[j]) by {
                    assert(tail[j] == w.es[k - n + j]);
                    assert(computes::<D>(w.es[k - n + j], vs[k - n + j]));
                }
                lemma_join_computes::<D>(tail, top, s);
                lemma_run_concat::<D>(join(tail), seq![Instr::Op(op)], s);
                let t = s + top;
                assert(t.subrange(0, s.len() as int) =~= s);
                assert(t.subrange(s.len() as int, t.len() as int) =~= top);
                let o = seq![Instr::<D::Num>::Op(op)];
                assert(o.subrange(1, 1) =~= Seq::<Instr<D::Num>>::empty());
                assert(step_instr::<D>(t, o[0]) == Some(s.push(v)));
                assert(run_instr::<D>(Seq::empty(), s.push(v)) == Some(s.push(v)));
                assert(run_instr::<D>(o, t) == Some(s.push(v)));
            }
        }
        assert forall|j: int| 0 <= j < mf2.k implies computes::<D>(#[trigger] w2.es[j], tail_values(mf2)[j]) by {
            if j < k - n {
                assert(w2.es[j] == w.es[j]);
                assert(mf2.out[mf2.out.len() - mf2.k + j] == mf.out[len - k + j]);
                assert(computes::<D>(w.es[j], vs[j]));
            } else {
                assert(tail_values(mf2)[j] == v);
            }
        }
        assert forall|j: int| mf2.out.len() - mf2.k <= j < mf2.out.len() implies (#[trigger] mf2.out[j]) is Num by {
            if j < mf2.out.len() - 1 {
                assert(mf2.out[j] == mf.out[j]);
            }
        }
        w2
    } else {
        lemma_rel_push_other::<D>(mf, mp, w, Instr::Op(op))
    }
}

proof fn lemma_rel_without_top<D: Arithmetic>(mf: Machine<D::Num>, mp: Machine<D::Num>, w: Witness<D::Num>)
    requires
        rel::<D>(mf, mp, w),
    ensures
        rel::<D>(without_top(mf), without_top(mp), w),
{
}

proof fn lemma_rel_pop_for<D: Arithmetic>(mf: Machine<D::Num>, mp: Machine<D::Num>, w: Witness<D::Num>, op: Op) -> (w2: Witness<D::Num>)
    requires
        rel::<D>(mf, mp, w),
    ensures
        rel::<D>(pop_for::<D>(mf, op, true), pop_for::<D>(mp, op, false), w2),
    decreases mf.ops.len(),
{
    if mf.ops.len() > 0 && mf.ops.last() is Op && crate::compiler::should_pop(mf.ops.last()->Op_0, op) {
        let t = mf.ops.last()->Op_0;
        lemma_rel_without_top::<D>(mf, mp, w);
        let w1 = lemma_rel_fold::<D>(without_top(mf), without_top(mp), w, t);
        lemma_rel_pop_for::<D>(fold_op::<D>(without_top(mf), t, true), fold_op::<D>(without_top(mp), t, false), w1, op)
    } else {
        w
    }
}

proof fn lemma_rel_unwind<D: Arithmetic>(mf: Machine<D::Num>, mp: Machine<D::Num>, w: Witness<D::Num>) -> (w2: Witness<D::Num>)
    requires
        rel::<D>(mf, mp, w),
    ensures
        rel::<D>(unwind::<D>(mf, true), unwind::<D>(mp, false), w2),
    decreases mf.ops.len(),
{
    if mf.ops.len() > 0 && mf.ops.last() is Op {
        let t = mf.ops.last()->Op_0;
        lemma_rel_without_top::<D>(mf, mp, w);
        let w1 = lemma_rel_fold::<D>(without_top(mf), without_top(mp), w, t);
        lemma_rel_unwind::<D>(fold_op::<D>(without_top(mf), t, true), fold_op::<D>(without_top(mp), t, false), w1)
    } else {
        w
    }
}

proof fn lemma_rel_step<D: Arithmetic>(
    c: Seq<char>,
    mf: Machine<D::Num>,
    mp: Machine<D::Num>,
    w: Witness<D::Num>,
    t: Token,
    pos: usize,
    after_call: bool,
) -> (w2: Witness<D::Num>)
    requires
        rel::<D>(mf, mp, w),
    ensures
        match (token_step::<D>(c, mf, t, pos, true, after_call), token_step::<D>(c, mp, t, pos, false, after_call)) {
            (Ok(a), Ok(b)) => rel::<D>(a, b, w2),
            (Err(e1), Err(e2)) => e1 == e2,
            _ => false,
        },
{
    match t {
        Token::Num(s, e) => lemma_rel_push_lit::<D>(mf, mp, w, D::spec_literal(c.subrange(s as int, e as int))),
        Token::Bool(b) => lemma_rel_push_lit::<D>(mf, mp, w, D::spec_bool(b)),
        Token::Var(s, e) => lemma_rel_push_other::<D>(mf, mp, w, Instr::Var(c.subrange(s as int, e as int))),
        Token::Call(s, e) => w,
        Token::Comma => {
            let f1 = Machine { out: mf.out, k: mf.k, ops: mf.ops, commas: mf.commas + 1 };
            let p1 = Machine { out: mp.out, k: mp.k, ops: mp.ops, commas: mp.commas + 1 };
            lemma_rel_unwind::<D>(f1, p1, w)
        },
        Token::Op(op) => if spec_arity(op) == 1 {
            w
        } else {
            lemma_rel_pop_for::<D>(mf, mp, w, op)
        },
        Token::LParen => w,
        Token::RParen => {
            let w1 = lemma_rel_unwind::<D>(mf, mp, w);
            let uf = unwind::<D>(mf, true);
            let up = unwind::<D>(mp, false);
            if uf.ops.len() == 0 {
                w1
            } else {
                match uf.ops.last() {
                    Pend::Call(name, saved, _) => {
                        let w2 = lemma_rel_push_other::<D>(uf, up, w1, Instr::Fn(name, call_args(uf.commas, after_call)));
                        w2
                    },
                    _ => w1,
                }
            }
        },
    }
}

proof fn lemma_rel_run<D: Arithmetic>(
    c: Seq<char>,
    toks: Seq<(Token, usize)>,
    i: int,
    mf: Machine<D::Num>,
    mp: Machine<D::Num>,
    w: Witness<D::Num>,
) -> (w2: Witness<D::Num>)
    requires
        rel::<D>(mf, mp, w),
    ensures
        match (run::<D>(c, toks, i, mf, true), run::<D>(c, toks, i, mp, false)) {
            (Ok(a), Ok(b)) => rel::<D>(a, b, w2),
            (Err(e1), Err(e2)) => e1 == e2,
            _ => false,
        },
    decreases toks.len() - i,
{
    if i < 0 || i >= toks.len() {
        w
    } else {
        let a = follows_call(toks, i);
        let w1 = lemma_rel_step::<D>(c, mf, mp, w, toks[i].0, toks[i].1, a);
        match (token_step::<D>(c, mf, toks[i].0, toks[i].1, true, a), token_step::<D>(c, mp, toks[i].0, toks[i].1, false, a)) {
            (Ok(a), Ok(b)) => lemma_rel_run::<D>(c, toks, i + 1, a, b, w1),
            _ => w1,
        }
    }
}

/// Folding constant sub-expressions changes nothing a program can observe
/// of a compiled expression: a source text compiles, folded or not, to the
/// same error, or to postfix forms that run alike from every stack, so that
/// evaluating the folded form gives what evaluating the expression step by
/// step gives.
pub proof fn lemma_folding_transparent<D: Arithmetic>(c: Seq<char>)
    ensures
        match (spec_postfix::<D>(c, true), spec_postfix::<D>(c, false)) {
            (Ok(a), Ok(b)) => equiv::<D>(a, b),
            (Err(e1), Err(e2)) => e1 == e2,
            _ => false,
        },
{
    if let Ok(toks) = spec_lex(c) {
        let m0 = initial::<D::Num>();
        let w0 = Witness { x: Seq::empty(), y: Seq::empty(), es: Seq::empty() };
        assert(m0.out.subrange(0, 0) =~= Seq::<Instr<D::Num>>::empty());
        assert(m0.out =~= w0.x + join(w0.es));
        let w1 = lemma_rel_run::<D>(c, toks, 0, m0, m0, w0);
        if let (Ok(a), Ok(b)) = (run::<D>(c, toks, 0, m0, true), run::<D>(c, toks, 0, m0, false)) {
            let w2 = lemma_rel_unwind::<D>(a, b, w1);
            let ua = unwind::<D>(a, true);
            let ub = unwind::<D>(b, false);
            if ua.ops.len() == 0 {
                lemma_rel_equiv::<D>(ua, ub, w2);
                assert forall|s: Seq<D::Num>| #[trigger] run_instr::<D>(ua.out, s) == run_instr::<D>(ub.out, s) by {
                    assert(run_instr::<D>(ub.out, s) == run_instr::<D>(ua.out, s));
                }
            }
        }
    }
}

/// Whether compiled instructions name no variable and no function.
pub open spec fn name_free<N>(code: Seq<Rpn<N>>) -> bool {
    forall|j: int| 0 <= j < code.len() ==> (#[trigger] code[j] is Num || code[j] is Op)
}

proof fn lemma_name_free_run<D: Arithmetic, S1: ResolverState, S2: ResolverState, V: Resolver<S1, D::Num>, F: Resolver<S2, D::Func>>(
    ctx: Context<V, F>,
    code: Seq<Rpn<D::Num>>,
    i: int,
    s: Seq<D::Num>,
)
    requires
        0 <= i <= code.len(),
        name_free(code),
    ensures
        match spec_run::<D, S1, S2, V, F>(ctx, code, i, s) {
            Ok(t) => run_instr::<D>(code_view(code).subrange(i, code.len() as int), s) == Some(t),
            Err(_) => run_instr::<D>(code_view(code).subrange(i, code.len() as int), s) is None,
        },
    decreases code.len() - i,
{
    let cv = code_view(code).subrange(i, code.len() as int);
    if i < code.len() {
        assert(cv[0] == instr_view(code[i]));
        assert(cv.subrange(1, cv.len() as int) =~= code_view(code).subrange(i + 1, code.len() as int));
        assert(code[i] is Num || code[i] is Op);
        lemma_name_free_run::<D, S1, S2, V, F>(ctx, code, i + 1, match spec_exec::<D, S1, S2, V, F>(ctx, s, code[i]) {
            Ok(t) => t,
            Err(_) => s,
        });
    }
}

/// For compiled instructions that name no variable and no function, the
/// evaluator's value is the one value that running the postfix form leaves;
/// with folding transparent, an arithmetic-only expression evaluates to what
/// its unfolded postfix form computes.
pub proof fn lemma_name_free_eval<D: Arithmetic, S1: ResolverState, S2: ResolverState, V: Resolver<S1, D::Num>, F: Resolver<S2, D::Func>>(
    ctx: Context<V, F>,
    code: Seq<Rpn<D::Num>>,
)
    requires
        name_free(code),
    ensures
        spec_eval::<D, S1, S2, V, F>(ctx, code) is Ok <==> (run_instr::<D>(code_view(code), Seq::empty()) is Some
            && run_instr::<D>(code_view(code), Seq::empty())->Some_0.len() == 1),
        spec_eval::<D, S1, S2, V, F>(ctx, code) is Ok ==> run_instr::<D>(code_view(code), Seq::empty())
            == Some(seq![spec_eval::<D, S1, S2, V, F>(ctx, code)->Ok_0]),
{
    lemma_name_free_run::<D, S1, S2, V, F>(ctx, code, 0, Seq::empty());
    assert(code_view(code).subrange(0, code.len() as int) =~= code_view(code));
    if let Ok(t) = spec_run::<D, S1, S2, V, F>(ctx, code, 0, Seq::empty()) {
        if t.len() == 1 {
            assert(t =~= seq![t[0]]);
        }
    }
}

/// An expression that names no variable and no function evaluates, once
/// compiled with constant folding, to exactly what its unfolded postfix form
/// computes step by step; and it fails exactly when that form fails.
pub proof fn lemma_compiled_arithmetic<D: Arithmetic, S1: ResolverState, S2: ResolverState, V: Resolver<S1, D::Num>, F: Resolver<S2, D::Func>>(
    ctx: Context<V, F>,
    c: Seq<char>,
    code: Seq<Rpn<D::Num>>,
)
    requires
        spec_postfix::<D>(c, true) == Ok::<Seq<Instr<D::Num>>, crate::error::Error>(code_view(code)),
        name_free(code),
    ensures
        spec_postfix::<D>(c, false) is Ok,
        spec_eval::<D, S1, S2, V, F>(ctx, code) is Ok <==> (run_instr::<D>(
            spec_postfix::<D>(c, false)->Ok_0,
            Seq::empty(),
        ) is Some && run_instr::<D>(spec_postfix::<D>(c, false)->Ok_0, Seq::empty())->Some_0.len()
            == 1),
        spec_eval::<D, S1, S2, V, F>(ctx, code) is Ok ==> run_instr::<D>(
            spec_postfix::<D>(c, false)->Ok_0,
            Seq::empty(),
        ) == Some(seq![spec_eval::<D, S1, S2, V, F>(ctx, code)->Ok_0]),
{
    lemma_folding_transparent::<D>(c);
    lemma_name_free_eval::<D, S1, S2, V, F>(ctx, code);
    let plain = spec_postfix::<D>(c, false)->Ok_0;
    assert(run_instr::<D>(code_view(code), Seq::empty()) == run_instr::<D>(plain, Seq::empty()));
}

} // verus!
