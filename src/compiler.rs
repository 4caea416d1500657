//! The compiler: shunting-yard over the infix tokens, with constant folding.
//!
//! Operands go straight to the output; operators wait on a stack until an
//! operator that binds no tighter, a closing bracket or the end of the input
//! sends them out. An operator sent out while its operands are all literals
//! is folded: its literals are replaced by one literal, its result.
use vstd::prelude::*;

use vstd::string::*;

use crate::arith::Arithmetic;
use crate::cache::{cache_clear, cache_get, cache_len, cache_new, cache_push, cache_truncate, cached, LiteralCache};
use crate::context::Context;
use crate::error::{Error, ParseError};
use crate::expr::{code_view, erase, instr_view, shape, Expr, Instr, Rpn};
use crate::lexer::{byte_offset, byte_pos, lemma_lex_count, lemma_lex_spans, lex_chars, lex_from, spec_lex, tokens_ok, LexState, Token};
use crate::op::{spec_arity, spec_precedence, Op};
use crate::parsing::chars_of;
use crate::resolver::indexed::IndexedResolver;
use crate::resolver::{Resolver, ResolverState, Unlocked};

verus! {

/// An entry of the operator stack, as the spec describes it.
pub enum Pend {
    Op(Op),
    /// An opening bracket, at a character position.
    Paren(usize),
    /// A function call: its name, the commas counted outside it, and its
    /// character position.
    Call(Seq<char>, nat, usize),
}

/// The state of the shunting-yard: the output so far, how many literals
/// end it and may be folded, the operator stack, and the commas counted in
/// the innermost call.
pub struct Machine<N> {
    pub out: Seq<Instr<N>>,
    pub k: nat,
    pub ops: Seq<Pend>,
    pub commas: nat,
}

pub open spec fn initial<N>() -> Machine<N> {
    Machine { out: Seq::empty(), k: 0, ops: Seq::empty(), commas: 0 }
}

pub open spec fn literal_values<N>(s: Seq<Instr<N>>) -> Seq<N> {
    s.map_values(|x: Instr<N>| x->Num_0)
}

/// Sends an operator to the output, folding it where its operands are all
/// literals.
pub open spec fn fold_op<D: Arithmetic>(m: Machine<D::Num>, op: Op, fold: bool) -> Machine<D::Num> {
    let n = spec_arity(op);
    if fold && m.k >= n {
        let start = m.out.len() - n;
        Machine {
            out: m.out.subrange(0, start).push(
                Instr::Num(D::spec_apply(op, literal_values(m.out.subrange(start, m.out.len() as int)))),
            ),
            k: (m.k - n + 1) as nat,
            ops: m.ops,
            commas: m.commas,
        }
    } else {
        Machine { out: m.out.push(Instr::Op(op)), k: 0, ops: m.ops, commas: m.commas }
    }
}

/// Whether an operator on the stack leaves before `op` is pushed.
pub open spec fn should_pop(top: Op, op: Op) -> bool {
    spec_precedence(top) > spec_precedence(op) || (op != Op::Pow && spec_precedence(top)
        == spec_precedence(op))
}

pub open spec fn without_top<N>(m: Machine<N>) -> Machine<N> {
    Machine { out: m.out, k: m.k, ops: m.ops.drop_last(), commas: m.commas }
}

/// Sends out the operators on top of the stack that bind at least as
/// tightly as `op`.
pub open spec fn pop_for<D: Arithmetic>(m: Machine<D::Num>, op: Op, fold: bool) -> Machine<D::Num>
    decreases m.ops.len(),
{
    if m.ops.len() > 0 && m.ops.last() is Op && should_pop(m.ops.last()->Op_0, op) {
        pop_for::<D>(fold_op::<D>(without_top(m), m.ops.last()->Op_0, fold), op, fold)
    } else {
        m
    }
}

/// Sends out every operator on top of the stack, down to a bracket.
pub open spec fn unwind<D: Arithmetic>(m: Machine<D::Num>, fold: bool) -> Machine<D::Num>
    decreases m.ops.len(),
{
    if m.ops.len() > 0 && m.ops.last() is Op {
        unwind::<D>(fold_op::<D>(without_top(m), m.ops.last()->Op_0, fold), fold)
    } else {
        m
    }
}

pub open spec fn push_lit<N>(m: Machine<N>, v: N) -> Machine<N> {
    Machine { out: m.out.push(Instr::Num(v)), k: m.k + 1, ops: m.ops, commas: m.commas }
}

/// The number of arguments of a call: none where its brackets hold nothing,
/// else one more than its commas.
pub open spec fn call_args(commas: nat, empty: bool) -> nat {
    if empty {
        0
    } else {
        commas + 1
    }
}

/// A closing bracket at character position `pos`; `empty` tells that it
/// follows the opening bracket of a call directly.
pub open spec fn close<D: Arithmetic>(c: Seq<char>, m: Machine<D::Num>, pos: usize, fold: bool, empty: bool) -> Result<
    Machine<D::Num>,
    ParseError,
> {
    let u = unwind::<D>(m, fold);
    if u.ops.len() == 0 {
        Err(ParseError::UnmatchedParentheses(byte_pos(c, pos as int) as usize))
    } else {
        match u.ops.last() {
            Pend::Call(name, saved, _) => Ok(
                Machine {
                    out: u.out.push(Instr::Fn(name, call_args(u.commas, empty))),
                    k: 0,
                    ops: u.ops.drop_last(),
                    commas: saved,
                },
            ),
            _ => Ok(without_top(u)),
        }
    }
}

/// What one token does to the machine; `after_call` tells that the token
/// before it was a call's name and opening bracket.
///
/// A unary operator stands before its operand, so it waits on the stack
/// without sending anything out.
pub open spec fn token_step<D: Arithmetic>(
    c: Seq<char>,
    m: Machine<D::Num>,
    t: Token,
    pos: usize,
    fold: bool,
    after_call: bool,
) -> Result<Machine<D::Num>, ParseError> {
    match t {
        Token::Num(s, e) => Ok(push_lit(m, D::spec_literal(c.subrange(s as int, e as int)))),
        Token::Bool(b) => Ok(push_lit(m, D::spec_bool(b))),
        Token::Var(s, e) => Ok(
            Machine {
                out: m.out.push(Instr::Var(c.subrange(s as int, e as int))),
                k: 0,
                ops: m.ops,
                commas: m.commas,
            },
        ),
        Token::Call(s, e) => Ok(
            Machine {
                out: m.out,
                k: m.k,
                ops: m.ops.push(Pend::Call(c.subrange(s as int, e as int), m.commas, pos)),
                commas: 0,
            },
        ),
        Token::Comma => Ok(
            unwind::<D>(Machine { out: m.out, k: m.k, ops: m.ops, commas: m.commas + 1 }, fold),
        ),
        Token::Op(op) => if spec_arity(op) == 1 {
            Ok(Machine { out: m.out, k: m.k, ops: m.ops.push(Pend::Op(op)), commas: m.commas })
        } else {
            let u = pop_for::<D>(m, op, fold);
            Ok(Machine { out: u.out, k: u.k, ops: u.ops.push(Pend::Op(op)), commas: u.commas })
        },
        Token::LParen => Ok(
            Machine { out: m.out, k: m.k, ops: m.ops.push(Pend::Paren(pos)), commas: m.commas },
        ),
        Token::RParen => close::<D>(c, m, pos, fold, after_call),
    }
}

/// Whether the token before index `i` is a call's name.
pub open spec fn follows_call(toks: Seq<(Token, usize)>, i: int) -> bool {
    i > 0 && toks[i - 1].0 is Call
}

/// The machine after the tokens from index `i` on.
pub open spec fn run<D: Arithmetic>(
    c: Seq<char>,
    toks: Seq<(Token, usize)>,
    i: int,
    m: Machine<D::Num>,
    fold: bool,
) -> Result<Machine<D::Num>, ParseError>
    decreases toks.len() - i,
{
    if i < 0 || i >= toks.len() {
        Ok(m)
    } else {
        match token_step::<D>(c, m, toks[i].0, toks[i].1, fold, follows_call(toks, i)) {
            Ok(m2) => run::<D>(c, toks, i + 1, m2, fold),
            Err(e) => Err(e),
        }
    }
}

pub open spec fn pend_pos(p: Pend) -> usize {
    match p {
        Pend::Paren(pos) => pos,
        Pend::Call(_, _, pos) => pos,
        Pend::Op(_) => 0,
    }
}

/// The end of the input: every operator leaves; a bracket left open is an
/// error.
pub open spec fn finish<D: Arithmetic>(c: Seq<char>, m: Machine<D::Num>, fold: bool) -> Result<
    Seq<Instr<D::Num>>,
    ParseError,
> {
    let u = unwind::<D>(m, fold);
    if u.ops.len() == 0 {
        Ok(u.out)
    } else {
        Err(ParseError::UnmatchedParentheses(byte_pos(c, pend_pos(u.ops.last()) as int) as usize))
    }
}

/// The postfix instructions of a source text, or its first error; constant
/// sub-expressions folded or not.
pub open spec fn spec_postfix<D: Arithmetic>(c: Seq<char>, fold: bool) -> Result<Seq<Instr<D::Num>>, Error> {
    match spec_lex(c) {
        Err(e) => Err(Error::ParseError(e)),
        Ok(toks) => match run::<D>(c, toks, 0, initial(), fold) {
            Err(e) => Err(Error::ParseError(e)),
            Ok(m) => match finish::<D>(c, m, fold) {
                Ok(out) => Ok(out),
                Err(e) => Err(Error::ParseError(e)),
            },
        },
    }
}

/// The postfix instructions of a source text, constant sub-expressions
/// folded; or its first error.
pub open spec fn spec_compile<D: Arithmetic>(c: Seq<char>) -> Result<Seq<Instr<D::Num>>, Error> {
    spec_postfix::<D>(c, true)
}

/// An entry of the operator stack.
enum Pending {
    Op(Op),
    Paren(usize),
    Call(String, usize, usize),
}

spec fn pend_view(p: Pending) -> Pend {
    match p {
        Pending::Op(op) => Pend::Op(op),
        Pending::Paren(pos) => Pend::Paren(pos),
        Pending::Call(n, saved, pos) => Pend::Call(n@, saved as nat, pos),
    }
}

spec fn ops_view(s: Seq<Pending>) -> Seq<Pend> {
    s.map_values(|p: Pending| pend_view(p))
}

/// The compiler's working state.
struct Buffers<N> {
    output: Vec<Rpn<N>>,
    cache: LiteralCache,
    ops: Vec<Pending>,
    commas: usize,
}

/// The working state stands for the machine state `m`: always in shape,
/// and in its literal values where the domain is specified.
spec fn holds<D: Arithmetic>(b: Buffers<D::Num>, m: Machine<D::Num>) -> bool {
    &&& shape(code_view(b.output@)) == shape(m.out)
    &&& b.output@.len() == m.out.len()
    &&& (D::specified() ==> code_view(b.output@) == m.out)
    &&& m.k <= m.out.len()
    &&& cached(b.cache) == Seq::new(m.k, |j: int| (m.out.len() - m.k + j) as usize)
    &&& forall|j: int| m.out.len() - m.k <= j < m.out.len() ==> #[trigger] m.out[j] is Num
    &&& ops_view(b.ops@) == m.ops
    &&& b.commas == m.commas
}

/// Every instruction is a literal, an operator, or one that was there before
/// at the same place.
spec fn kept<N>(old_out: Seq<Rpn<N>>, new_out: Seq<Rpn<N>>) -> bool {
    forall|i: int|
        0 <= i < new_out.len() ==> #[trigger] new_out[i] is Num || new_out[i] is Op || (i
            < old_out.len() && new_out[i] == old_out[i])
}

/// The slots of the instructions designate the values of their names.
pub open spec fn slots_agree<S1: ResolverState, S2: ResolverState, N, G, V: Resolver<S1, N>, F: Resolver<S2, G>>(
    ctx: Context<V, F>,
    code: Seq<Rpn<N>>,
) -> bool {
    forall|i: int|
        0 <= i < code.len() ==> match #[trigger] code[i] {
            Rpn::Var(slot, n) => ctx.var_resolver().at(slot) == ctx.var_resolver().lookup(n@),
            Rpn::Fn(slot, n, _) => ctx.fn_resolver().at(slot) == ctx.fn_resolver().lookup(n@),
            _ => true,
        }
}

proof fn lemma_push_holds<N>(out: Seq<Rpn<N>>, a: Rpn<N>, spec: Seq<Instr<N>>, x: Instr<N>)
    requires
        out.len() == spec.len(),
        shape(code_view(out)) == shape(spec),
        erase(instr_view(a)) == erase(x),
    ensures
        shape(code_view(out.push(a))) == shape(spec.push(x)),
        code_view(out.push(a)) == code_view(out).push(instr_view(a)),
{
    assert(code_view(out.push(a)) =~= code_view(out).push(instr_view(a)));
    assert forall|q: int| 0 <= q < out.len() implies #[trigger] shape(code_view(out.push(a)))[q]
        == shape(spec.push(x))[q] by {
        assert(shape(code_view(out))[q] == shape(spec)[q]);
        assert(out.push(a)[q] == out[q]);
        assert(spec.push(x)[q] == spec[q]);
        assert(code_view(out.push(a))[q] == instr_view(out[q]));
        assert(code_view(out)[q] == instr_view(out[q]));
        assert(shape(code_view(out.push(a)))[q] == erase(code_view(out.push(a))[q]));
        assert(shape(code_view(out))[q] == erase(code_view(out)[q]));
        assert(shape(spec)[q] == erase(spec[q]));
        assert(shape(spec.push(x))[q] == erase(spec.push(x)[q]));
    }
    assert(shape(code_view(out.push(a))) =~= shape(spec.push(x)));
}

proof fn lemma_kept_trans<N>(a: Seq<Rpn<N>>, b: Seq<Rpn<N>>, c: Seq<Rpn<N>>)
    requires
        kept(a, b),
        kept(b, c),
    ensures
        kept(a, c),
{
}

proof fn lemma_kept_agree<S1: ResolverState, S2: ResolverState, N, G, V: Resolver<S1, N>, F: Resolver<S2, G>>(
    ctx: Context<V, F>,
    a: Seq<Rpn<N>>,
    b: Seq<Rpn<N>>,
)
    requires
        kept(a, b),
        slots_agree(ctx, a),
    ensures
        slots_agree(ctx, b),
{
    assert forall|i: int| 0 <= i < b.len() implies match #[trigger] b[i] {
        Rpn::Var(slot, n) => ctx.var_resolver().at(slot) == ctx.var_resolver().lookup(n@),
        Rpn::Fn(slot, n, _) => ctx.fn_resolver().at(slot) == ctx.fn_resolver().lookup(n@),
        _ => true,
    } by {
        if !(b[i] is Num || b[i] is Op) {
            assert(b[i] == a[i]);
        }
    }
}

/// Sends an operator to the output, folding it where it can.
fn fold<D: Arithmetic>(b: &mut Buffers<D::Num>, op: Op, Ghost(m): Ghost<Machine<D::Num>>)
    requires
        holds::<D>(*old(b), m),
        old(b).output@.len() < usize::MAX / 32,
    ensures
        holds::<D>(*final(b), fold_op::<D>(m, op, true)),
        kept(old(b).output@, final(b).output@),
        final(b).ops@ == old(b).ops@,
        final(b).commas == old(b).commas,
        final(b).output@.len() <= old(b).output@.len() + 1,
{
    let n = op.num_operands();
    let k = cache_len(&b.cache);
    let len = b.output.len();
    if k >= n {
        let start = cache_get(&b.cache, k - n);
        assert(start == len - n);
        let mut args: Vec<D::Num> = Vec::new();
        let mut j = start;
        while j < len
            invariant
                start <= j <= len,
                len == b.output@.len(),
                start == len - n,
                n <= m.k,
                holds::<D>(*b, m),
                args@.len() == j - start,
                D::specified() ==> args@ == literal_values(m.out.subrange(start as int, j as int)),
            decreases len - j,
        {
            proof {
                assert(m.out[j as int] is Num);
                assert(shape(code_view(b.output@))[j as int] == shape(m.out)[j as int]);
                assert(erase(instr_view(b.output@[j as int])) == erase(m.out[j as int]));
                if D::specified() {
                    assert(m.out[j as int] == instr_view(b.output@[j as int]));
                }
            }
            if let Rpn::Num(v) = &b.output[j] {
                args.push(*v);
            }
            proof {
                assert(literal_values(m.out.subrange(start as int, j + 1)) =~= literal_values(
                    m.out.subrange(start as int, j as int),
                ).push(m.out[j as int]->Num_0));
            }
            j = j + 1;
        }
        let v = D::apply(op, args.as_slice());
        b.output.truncate(start);
        b.output.push(Rpn::Num(v));
        cache_truncate(&mut b.cache, k - n);
        cache_push(&mut b.cache, start);
        proof {
            let m2 = fold_op::<D>(m, op, true);
            assert(shape(code_view(b.output@)) =~= shape(m2.out)) by {
                assert forall|q: int| 0 <= q < start implies shape(code_view(b.output@))[q] == shape(m2.out)[q] by {
                    assert(shape(code_view(old(b).output@))[q] == shape(m.out)[q]);
                }
            }
            if D::specified() {
                assert(args@ =~= literal_values(m.out.subrange(start as int, len as int)));
                assert(code_view(b.output@) =~= m2.out);
            }
            assert(cached(b.cache) =~= Seq::new(m2.k, |j: int| (m2.out.len() - m2.k + j) as usize));
        }
    } else {
        b.output.push(Rpn::Op(op));
        cache_clear(&mut b.cache);
        proof {
            let m2 = fold_op::<D>(m, op, true);
            assert(shape(code_view(b.output@)) =~= shape(m2.out)) by {
                assert forall|q: int| 0 <= q < len implies shape(code_view(b.output@))[q] == shape(m2.out)[q] by {
                    assert(shape(code_view(old(b).output@))[q] == shape(m.out)[q]);
                }
            }
            if D::specified() {
                assert(code_view(b.output@) =~= m2.out);
            }
            assert(cached(b.cache) =~= Seq::new(m2.k, |j: int| (m2.out.len() - m2.k + j) as usize));
        }
    }
}

fn should_pop_exec(top: Op, op: Op) -> (r: bool)
    ensures
        r == should_pop(top, op),
{
    let tp = top.precedence();
    let p = op.precedence();
    tp > p || (!op.is_right_associative() && tp == p)
}

proof fn lemma_ops_drop_last(s: Seq<Pending>)
    requires
        s.len() > 0,
    ensures
        ops_view(s.drop_last()) == ops_view(s).drop_last(),
        ops_view(s).last() == pend_view(s.last()),
{
    assert(ops_view(s.drop_last()) =~= ops_view(s).drop_last());
}

proof fn lemma_ops_push(s: Seq<Pending>, p: Pending)
    ensures
        ops_view(s.push(p)) == ops_view(s).push(pend_view(p)),
{
    assert(ops_view(s.push(p)) =~= ops_view(s).push(pend_view(p)));
}

/// The entry on top of the operator stack, where it is an operator.
fn top_op(ops: &Vec<Pending>) -> (r: Option<Op>)
    ensures
        match r {
            Some(t) => ops@.len() > 0 && ops@.last() == Pending::Op(t),
            None => ops@.len() == 0 || !(ops@.last() is Op),
        },
{
    let l = ops.len();
    if l == 0 {
        None
    } else {
        match &ops[l - 1] {
            Pending::Op(t) => Some(*t),
            _ => None,
        }
    }
}

/// Sends out the operators that leave before `op` is pushed.
fn pop_for_exec<D: Arithmetic>(b: &mut Buffers<D::Num>, op: Op, Ghost(m): Ghost<Machine<D::Num>>)
    requires
        holds::<D>(*old(b), m),
        old(b).output@.len() + old(b).ops@.len() <= usize::MAX / 32,
    ensures
        holds::<D>(*final(b), pop_for::<D>(m, op, true)),
        kept(old(b).output@, final(b).output@),
        final(b).ops@.len() <= old(b).ops@.len(),
        forall|j: int| 0 <= j < final(b).ops@.len() ==> #[trigger] final(b).ops@[j] == old(b).ops@[j],
        final(b).commas == old(b).commas,
        final(b).output@.len() + final(b).ops@.len() <= old(b).output@.len() + old(b).ops@.len(),
{
    let ghost mut mc = m;
    let ghost out0 = b.output@;
    let ghost ops0 = b.ops@;
    let ghost commas0 = b.commas;
    let mut going = true;
    while going
        invariant
            holds::<D>(*b, mc),
            pop_for::<D>(m, op, true) == if going {
                pop_for::<D>(mc, op, true)
            } else {
                mc
            },
            kept(out0, b.output@),
            b.ops@.len() <= ops0.len(),
            forall|j: int| 0 <= j < b.ops@.len() ==> #[trigger] b.ops@[j] == ops0[j],
            b.commas == commas0,
            b.output@.len() + b.ops@.len() <= out0.len() + ops0.len(),
            out0.len() + ops0.len() <= usize::MAX / 32,
        decreases b.ops@.len() + if going {
            1int
        } else {
            0int
        },
    {
        match top_op(&b.ops) {
            Some(t) => {
                proof {
                    lemma_ops_drop_last(b.ops@);
                }
                if should_pop_exec(t, op) {
                    let ghost before = b.output@;
                    b.ops.pop();
                    fold::<D>(b, t, Ghost(without_top(mc)));
                    proof {
                        lemma_kept_trans(out0, before, b.output@);
                        mc = fold_op::<D>(without_top(mc), t, true);
                    }
                } else {
                    going = false;
                }
            },
            None => {
                proof {
                    if b.ops@.len() > 0 {
                        lemma_ops_drop_last(b.ops@);
                    }
                }
                going = false;
            },
        }
    }
}

/// Sends out every operator down to the nearest bracket.
fn unwind_exec<D: Arithmetic>(b: &mut Buffers<D::Num>, Ghost(m): Ghost<Machine<D::Num>>)
    requires
        holds::<D>(*old(b), m),
        old(b).output@.len() + old(b).ops@.len() <= usize::MAX / 32,
    ensures
        holds::<D>(*final(b), unwind::<D>(m, true)),
        kept(old(b).output@, final(b).output@),
        final(b).ops@.len() <= old(b).ops@.len(),
        forall|j: int| 0 <= j < final(b).ops@.len() ==> #[trigger] final(b).ops@[j] == old(b).ops@[j],
        final(b).commas == old(b).commas,
        final(b).output@.len() + final(b).ops@.len() <= old(b).output@.len() + old(b).ops@.len(),
{
    let ghost mut mc = m;
    let ghost out0 = b.output@;
    let ghost ops0 = b.ops@;
    let ghost commas0 = b.commas;
    let mut going = true;
    while going
        invariant
            holds::<D>(*b, mc),
            unwind::<D>(m, true) == if going {
                unwind::<D>(mc, true)
            } else {
                mc
            },
            kept(out0, b.output@),
            b.ops@.len() <= ops0.len(),
            forall|j: int| 0 <= j < b.ops@.len() ==> #[trigger] b.ops@[j] == ops0[j],
            b.commas == commas0,
            b.output@.len() + b.ops@.len() <= out0.len() + ops0.len(),
            out0.len() + ops0.len() <= usize::MAX / 32,
        decreases b.ops@.len() + if going {
            1int
        } else {
            0int
        },
    {
        match top_op(&b.ops) {
            Some(t) => {
                proof {
                    lemma_ops_drop_last(b.ops@);
                }
                let ghost before = b.output@;
                b.ops.pop();
                fold::<D>(b, t, Ghost(without_top(mc)));
                proof {
                    lemma_kept_trans(out0, before, b.output@);
                    mc = fold_op::<D>(without_top(mc), t, true);
                }
            },
            None => {
                proof {
                    if b.ops@.len() > 0 {
                        lemma_ops_drop_last(b.ops@);
                    }
                }
                going = false;
            },
        }
    }
}

/// Counters and positions of the operator stack stay within bounds.
spec fn bounded(ops: Seq<Pending>, count: int, n: int) -> bool {
    forall|j: int|
        0 <= j < ops.len() ==> match #[trigger] ops[j] {
            Pending::Call(_, saved, pos) => saved <= count && pos < n,
            Pending::Paren(pos) => pos < n,
            Pending::Op(_) => true,
        }
}

impl<D: Arithmetic> Expr<D> {
    /// Compiles source text against a context: variables and functions are
    /// bound to the slots the context's resolvers give for their names.
    pub fn compile<S1: ResolverState, S2: ResolverState, V: Resolver<S1, D::Num>, F: Resolver<S2, D::Func>>(
        src: &str,
        ctx: &Context<V, F>,
    ) -> (r: Result<Self, Error>)
        requires
            src@.len() <= usize::MAX / 32,
        ensures
            match r {
                Ok(e) => spec_compile::<D>(src@) is Ok && shape(code_view(e.code())) == shape(
                    spec_compile::<D>(src@)->Ok_0,
                ) && (D::specified() ==> spec_compile::<D>(src@) == Ok::<Seq<Instr<D::Num>>, Error>(
                    code_view(e.code()),
                )) && slots_agree(*ctx, e.code()),
                Err(err) => spec_compile::<D>(src@) == Err::<Seq<Instr<D::Num>>, Error>(err),
            },
    {
        let c = chars_of(src);
        let toks = match lex_chars(&c) {
            Ok(t) => t,
            Err(p) => {
                let off = byte_offset(&c, p);
                assert(spec_lex(src@) == Err::<Seq<(Token, usize)>, ParseError>(ParseError::UnexpectedChar(c[p as int], off)));
                return Err(Error::ParseError(ParseError::UnexpectedChar(c[p], off)));
            },
        };
        proof {
            lemma_lex_spans(c@, 0, LexState::Default);
            lemma_lex_count(c@, 0, LexState::Default);
            assert(spec_lex(src@) == Ok::<Seq<(Token, usize)>, ParseError>(toks@));
        }
        let mut b: Buffers<D::Num> = Buffers {
            output: Vec::new(),
            cache: cache_new(),
            ops: Vec::new(),
            commas: 0,
        };
        let ghost mut m: Machine<D::Num> = initial();
        proof {
            assert(code_view(b.output@) =~= m.out);
            assert(cached(b.cache) =~= Seq::new(m.k, |j: int| (m.out.len() - m.k + j) as usize));
            assert(ops_view(b.ops@) =~= m.ops);
        }
        let mut i: usize = 0;
        while i < toks.len()
            invariant
                c@ == src@,
                c@.len() <= usize::MAX / 32,
                toks@.len() <= c@.len(),
                b.output@.len() + b.ops@.len() <= i,
                i <= toks@.len(),
                lex_from(c@, 0, LexState::Default) == Ok::<Seq<(Token, usize)>, int>(toks@),
                tokens_ok(toks@, c@.len() as int),
                holds::<D>(b, m),
                run::<D>(c@, toks@, 0, initial(), true) == run::<D>(c@, toks@, i as int, m, true),
                slots_agree(*ctx, b.output@),
                b.commas <= i,
                bounded(b.ops@, i as int, c@.len() as int),
            decreases toks@.len() - i,
        {
            let (t, pos) = toks[i];
            let after_call = i > 0 && match toks[i - 1].0 {
                Token::Call(_, _) => true,
                _ => false,
            };
            let ghost next = token_step::<D>(c@, m, t, pos, true, after_call);
            let ghost old_m = m;
            let ghost before = b.output@;
            proof {
                assert(toks@[i as int] == (t, pos));
            }
            match t {
                Token::Num(s, e) => {
                    let v = D::literal(src.substring_char(s, e));
                    let len = b.output.len();
                    proof {
                        lemma_push_holds(b.output@, Rpn::Num(v), m.out, Instr::Num(D::spec_literal(c@.subrange(s as int, e as int))));
                    }
                    b.output.push(Rpn::Num(v));
                    cache_push(&mut b.cache, len);
                },
                Token::Bool(x) => {
                    let v = D::boolean(x);
                    let len = b.output.len();
                    proof {
                        lemma_push_holds(b.output@, Rpn::Num(v), m.out, Instr::Num(D::spec_bool(x)));
                    }
                    b.output.push(Rpn::Num(v));
                    cache_push(&mut b.cache, len);
                },
                Token::Var(s, e) => {
                    let text = src.substring_char(s, e);
                    let slot = ctx.vars().locate(text);
                    let name = text.to_owned();
                    proof {
                        lemma_push_holds(b.output@, Rpn::Var(slot, name), m.out, Instr::Var(c@.subrange(s as int, e as int)));
                    }
                    b.output.push(Rpn::Var(slot, name));
                    cache_clear(&mut b.cache);
                },
                Token::Call(s, e) => {
                    let name = src.substring_char(s, e).to_owned();
                    proof {
                        lemma_ops_push(b.ops@, Pending::Call(name, b.commas, pos));
                    }
                    b.ops.push(Pending::Call(name, b.commas, pos));
                    b.commas = 0;
                },
                Token::Comma => {
                    b.commas = b.commas + 1;
                    unwind_exec::<D>(&mut b, Ghost(Machine { out: m.out, k: m.k, ops: m.ops, commas: m.commas + 1 }));
                    proof {
                        lemma_kept_agree(*ctx, before, b.output@);
                    }
                },
                Token::Op(op) => {
                    if op.num_operands() != 1 {
                        pop_for_exec::<D>(&mut b, op, Ghost(m));
                    }
                    proof {
                        lemma_kept_agree(*ctx, before, b.output@);
                    }
                    proof {
                        lemma_ops_push(b.ops@, Pending::Op(op));
                    }
                    b.ops.push(Pending::Op(op));
                },
                Token::LParen => {
                    proof {
                        lemma_ops_push(b.ops@, Pending::Paren(pos));
                    }
                    b.ops.push(Pending::Paren(pos));
                },
                Token::RParen => {
                    let ghost mu = unwind::<D>(m, true);
                    unwind_exec::<D>(&mut b, Ghost(m));
                    let ghost mid = b.output@;
                    proof {
                        lemma_kept_agree(*ctx, before, b.output@);
                    }
                    if b.ops.len() == 0 {
                        let off = byte_offset(&c, pos);
                        return Err(Error::ParseError(ParseError::UnmatchedParentheses(off)));
                    }
                    proof {
                        lemma_ops_drop_last(b.ops@);
                    }
                    let top = b.ops.pop().unwrap();
                    match top {
                        Pending::Call(name, saved, _) => {
                            let slot = ctx.fns().locate(name.as_str());
                            let argc = if after_call {
                                0
                            } else {
                                b.commas + 1
                            };
                            proof {
                                lemma_push_holds(b.output@, Rpn::Fn(slot, name, argc), mu.out, Instr::Fn(name@, call_args(mu.commas, after_call)));
                            }
                            b.output.push(Rpn::Fn(slot, name, argc));
                            cache_clear(&mut b.cache);
                            b.commas = saved;
                            proof {
                                assert forall|j: int| 0 <= j < b.output@.len() implies match #[trigger] b.output@[j] {
                                    Rpn::Var(slot, n) => ctx.var_resolver().at(slot) == ctx.var_resolver().lookup(n@),
                                    Rpn::Fn(slot, n, _) => ctx.fn_resolver().at(slot) == ctx.fn_resolver().lookup(n@),
                                    _ => true,
                                } by {
                                    if j < mid.len() {
                                        assert(b.output@[j] == mid[j]);
                                    }
                                }
                            }
                        },
                        _ => {},
                    }
                },
            }
            proof {
                match t {
                    Token::Var(_, _) | Token::Num(_, _) | Token::Bool(_) | Token::Call(_, _) | Token::LParen => {
                        assert forall|j: int| 0 <= j < b.output@.len() implies match #[trigger] b.output@[j] {
                            Rpn::Var(slot, n) => ctx.var_resolver().at(slot) == ctx.var_resolver().lookup(n@),
                            Rpn::Fn(slot, n, _) => ctx.fn_resolver().at(slot) == ctx.fn_resolver().lookup(n@),
                            _ => true,
                        } by {
                            if j < before.len() {
                                assert(b.output@[j] == before[j]);
                            }
                        }
                    },
                    _ => {},
                }
                m = next->Ok_0;
                assert(cached(b.cache) =~= Seq::new(m.k, |j: int| (m.out.len() - m.k + j) as usize));
                assert(ops_view(b.ops@) =~= m.ops);
            }
            i = i + 1;
        }
        let ghost before_end = b.output@;
        unwind_exec::<D>(&mut b, Ghost(m));
        proof {
            lemma_kept_agree(*ctx, before_end, b.output@);
        }
        let l = b.ops.len();
        if l > 0 {
            proof {
                lemma_ops_drop_last(b.ops@);
            }
            let pos = match &b.ops[l - 1] {
                Pending::Paren(p) => *p,
                Pending::Call(_, _, p) => *p,
                Pending::Op(_) => 0,
            };
            let off = byte_offset(&c, pos);
            return Err(Error::ParseError(ParseError::UnmatchedParentheses(off)));
        }
        proof {
            assert(run::<D>(c@, toks@, i as int, m, true) == Ok::<Machine<D::Num>, ParseError>(m));
            assert(unwind::<D>(m, true).ops.len() == 0);
            assert(finish::<D>(c@, m, true) == Ok::<Seq<Instr<D::Num>>, ParseError>(unwind::<D>(m, true).out));
        }
        Ok(Expr::from_code(b.output))
    }
}

/// Compiles source text for contexts of indexed resolvers: names are read
/// as a bucket and an offset once, here.
pub fn parse_irpn<D: Arithmetic>(src: &str) -> (r: Result<Expr<D>, Error>) where
    D::Num: Default,
    D::Func: Default,

    requires
        src@.len() <= usize::MAX / 32,
    ensures
        match r {
            Ok(e) => spec_compile::<D>(src@) is Ok && shape(code_view(e.code())) == shape(
                spec_compile::<D>(src@)->Ok_0,
            ) && (D::specified() ==> spec_compile::<D>(src@) == Ok::<Seq<Instr<D::Num>>, Error>(
                code_view(e.code()),
            )),
            Err(err) => spec_compile::<D>(src@) == Err::<Seq<Instr<D::Num>>, Error>(err),
        },
{
    let ctx = Context::new(IndexedResolver::<Unlocked, D::Num>::new(), IndexedResolver::<Unlocked, D::Func>::new());
    Expr::compile(src, &ctx)
}

} // verus!
