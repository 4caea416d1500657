//! The lexer: source text to infix tokens.
//!
//! A two-state machine tells unary minus from subtraction: in state
//! [`LexState::Default`] an operand is expected and `-` negates; in state
//! [`LexState::ExpectingOperator`] an operand was just read and `-` subtracts.
//!
//! A closing bracket ends an operand, so an operator is expected after it.
//!
//! The words `true` and `false` are boolean literals, not variables.
//!
//! Function arguments are not lexed apart: a call's name token takes its
//! opening bracket, and the compiler counts the commas up to the closing
//! one. So every error position is a byte offset into the whole source
//! text, inside the arguments of a call as well.
use vstd::prelude::*;
use vstd::string::*;

use crate::error::ParseError;
use crate::op::Op;
use crate::parsing::{chars_of, is_digit, is_ident_char, is_ident_start, spec_utf8_width, utf8_width};

verus! {

/// An infix token. Texts are given as ranges `[start, end)` of character
/// positions in the source.
#[derive(Debug, PartialEq, Eq, Structural, Clone, Copy)]
pub enum Token {
    /// A numeric literal: digits with at most one decimal point.
    Num(usize, usize),
    /// The words `true` and `false`, which are boolean literals: they stand
    /// for the domain's numbers for the booleans and are never variable
    /// names.
    Bool(bool),
    /// A variable name.
    Var(usize, usize),
    /// A function name; the opening bracket after it belongs to the token.
    Call(usize, usize),
    Comma,
    Op(Op),
    LParen,
    RParen,
}

#[derive(Debug, PartialEq, Eq, Structural, Clone, Copy)]
pub enum LexState {
    /// An operand (or a unary operator) is expected.
    Default,
    /// An operand was just read: a binary operator is expected.
    ExpectingOperator,
}

/// What one step of the lexer does at a position.
pub enum Step {
    /// Whitespace: move on by one character.
    Skip,
    /// A token, the position after it, and the next state.
    Emit(Token, usize, LexState),
    /// The character at the position is not allowed there.
    Fail,
}

pub open spec fn is_space(c: char) -> bool {
    c == ' ' || c == '\t' || c == '\n'
}

/// The end of a numeric literal that starts at `i`.
pub open spec fn number_end(c: Seq<char>, i: int, seen_dot: bool) -> int
    decreases c.len() - i,
{
    if 0 <= i < c.len() && is_digit(c[i]) {
        number_end(c, i + 1, seen_dot)
    } else if 0 <= i < c.len() && c[i] == '.' && !seen_dot {
        number_end(c, i + 1, true)
    } else {
        i
    }
}

/// The end of an identifier whose rest starts at `i`.
pub open spec fn ident_end(c: Seq<char>, i: int) -> int
    decreases c.len() - i,
{
    if 0 <= i < c.len() && is_ident_char(c[i]) {
        ident_end(c, i + 1)
    } else {
        i
    }
}

pub open spec fn char_at_is(c: Seq<char>, i: int, x: char) -> bool {
    0 <= i < c.len() && c[i] == x
}

/// The binary operator at `i` and its length in characters.
pub open spec fn binary_op_at(c: Seq<char>, i: int) -> Option<(Op, int)> {
    let x = c[i];
    if x == '+' {
        Some((Op::Add, 1))
    } else if x == '-' {
        Some((Op::Sub, 1))
    } else if x == '*' {
        Some((Op::Mul, 1))
    } else if x == '/' {
        Some((Op::Div, 1))
    } else if x == '%' {
        Some((Op::Mod, 1))
    } else if x == '^' {
        if char_at_is(c, i + 1, '^') {
            Some((Op::BitXor, 2))
        } else {
            Some((Op::Pow, 1))
        }
    } else if x == '&' {
        if char_at_is(c, i + 1, '&') {
            Some((Op::And, 2))
        } else {
            Some((Op::BitAnd, 1))
        }
    } else if x == '|' {
        if char_at_is(c, i + 1, '|') {
            Some((Op::Or, 2))
        } else {
            Some((Op::BitOr, 1))
        }
    } else if x == '<' {
        if char_at_is(c, i + 1, '<') {
            Some((Op::Shl, 2))
        } else if char_at_is(c, i + 1, '=') {
            Some((Op::LowEq, 2))
        } else {
            Some((Op::Low, 1))
        }
    } else if x == '>' {
        if char_at_is(c, i + 1, '>') {
            Some((Op::Shr, 2))
        } else if char_at_is(c, i + 1, '=') {
            Some((Op::GreatEq, 2))
        } else {
            Some((Op::Great, 1))
        }
    } else if x == '=' && char_at_is(c, i + 1, '=') {
        Some((Op::Eq, 2))
    } else if x == '!' && char_at_is(c, i + 1, '=') {
        Some((Op::NotEq, 2))
    } else {
        None
    }
}

/// Whether the identifier `[i, e)` spells `w`.
pub open spec fn spells(c: Seq<char>, i: int, e: int, w: Seq<char>) -> bool {
    c.subrange(i, e) == w
}

/// One step of the lexer at position `i < c.len()` in state `st`.
pub open spec fn step(c: Seq<char>, i: int, st: LexState) -> Step {
    let x = c[i];
    if is_space(x) {
        Step::Skip
    } else if x == '(' || x == '[' {
        Step::Emit(Token::LParen, (i + 1) as usize, st)
    } else if x == ')' || x == ']' {
        Step::Emit(Token::RParen, (i + 1) as usize, LexState::ExpectingOperator)
    } else if x == ',' {
        Step::Emit(Token::Comma, (i + 1) as usize, LexState::Default)
    } else if st == LexState::ExpectingOperator {
        match binary_op_at(c, i) {
            Some((op, w)) => Step::Emit(Token::Op(op), (i + w) as usize, LexState::Default),
            None => Step::Fail,
        }
    } else if x == '-' {
        Step::Emit(Token::Op(Op::Neg), (i + 1) as usize, LexState::Default)
    } else if x == '!' {
        Step::Emit(Token::Op(Op::Not), (i + 1) as usize, LexState::Default)
    } else if is_digit(x) || x == '.' {
        let e = number_end(c, i, false);
        Step::Emit(Token::Num(i as usize, e as usize), e as usize, LexState::ExpectingOperator)
    } else if is_ident_start(x) {
        let e = ident_end(c, i + 1);
        if char_at_is(c, e, '(') || char_at_is(c, e, '[') {
            Step::Emit(Token::Call(i as usize, e as usize), (e + 1) as usize, LexState::Default)
        } else if spells(c, i, e, seq!['t', 'r', 'u', 'e']) {
            Step::Emit(Token::Bool(true), e as usize, LexState::ExpectingOperator)
        } else if spells(c, i, e, seq!['f', 'a', 'l', 's', 'e']) {
            Step::Emit(Token::Bool(false), e as usize, LexState::ExpectingOperator)
        } else {
            Step::Emit(Token::Var(i as usize, e as usize), e as usize, LexState::ExpectingOperator)
        }
    } else {
        Step::Fail
    }
}

/// The tokens of `c` from position `i` on in state `st`, each with the
/// position it starts at; or the position of the first character that is not
/// allowed where it stands.
pub open spec fn lex_from(c: Seq<char>, i: int, st: LexState) -> Result<Seq<(Token, usize)>, int>
    decreases c.len() - i,
{
    if i < 0 || i >= c.len() {
        Ok(Seq::empty())
    } else {
        match step(c, i, st) {
            Step::Skip => lex_from(c, i + 1, st),
            Step::Emit(t, next, st2) => if next <= i || next > c.len() {
                Err(i)
            } else {
                match lex_from(c, next as int, st2) {
                    Ok(rest) => Ok(seq![(t, i as usize)] + rest),
                    Err(p) => Err(p),
                }
            },
            Step::Fail => Err(i),
        }
    }
}

/// Byte offset of character position `i`.
pub open spec fn byte_pos(c: Seq<char>, i: int) -> nat
    decreases i,
{
    if i <= 0 || c.len() == 0 {
        0
    } else if i > c.len() {
        byte_pos(c, c.len() as int)
    } else {
        byte_pos(c, i - 1) + spec_utf8_width(c[i - 1])
    }
}

/// The whole token list of a source text, or its first error.
pub open spec fn spec_lex(c: Seq<char>) -> Result<Seq<(Token, usize)>, ParseError> {
    match lex_from(c, 0, LexState::Default) {
        Ok(t) => Ok(t),
        Err(p) => Err(ParseError::UnexpectedChar(c[p], byte_pos(c, p) as usize)),
    }
}

/// Tokens read so far, in front of what the rest of the text gives.
pub open spec fn prepend(done: Seq<(Token, usize)>, rest: Result<Seq<(Token, usize)>, int>) -> Result<
    Seq<(Token, usize)>,
    int,
> {
    match rest {
        Ok(t) => Ok(done + t),
        Err(p) => Err(p),
    }
}

pub proof fn lemma_number_end_bounds(c: Seq<char>, i: int, seen_dot: bool)
    requires
        0 <= i <= c.len(),
    ensures
        i <= number_end(c, i, seen_dot) <= c.len(),
    decreases c.len() - i,
{
    if i < c.len() && (is_digit(c[i]) || (c[i] == '.' && !seen_dot)) {
        lemma_number_end_bounds(c, i + 1, seen_dot || !is_digit(c[i]));
    }
}

pub proof fn lemma_ident_end_bounds(c: Seq<char>, i: int)
    requires
        0 <= i <= c.len(),
    ensures
        i <= ident_end(c, i) <= c.len(),
    decreases c.len() - i,
{
    if i < c.len() && is_ident_char(c[i]) {
        lemma_ident_end_bounds(c, i + 1);
    }
}

fn number_end_exec(c: &Vec<char>, i: usize) -> (e: usize)
    requires
        i <= c@.len(),
    ensures
        e == number_end(c@, i as int, false),
        i <= e <= c@.len(),
        i < c@.len() && (is_digit(c@[i as int]) || c@[i as int] == '.') ==> i < e,
{
    let mut k = i;
    let mut seen_dot = false;
    proof {
        lemma_number_end_bounds(c@, i as int, false);
    }
    while k < c.len()
        invariant
            i <= k <= c@.len(),
            number_end(c@, i as int, false) == number_end(c@, k as int, seen_dot),
            k == i ==> !seen_dot,
        decreases c@.len() - k,
    {
        let x = c[k];
        if '0' <= x && x <= '9' {
            k = k + 1;
        } else if x == '.' && !seen_dot {
            seen_dot = true;
            k = k + 1;
        } else {
            return k;
        }
    }
    k
}

fn ident_end_exec(c: &Vec<char>, i: usize) -> (e: usize)
    requires
        i <= c@.len(),
    ensures
        e == ident_end(c@, i as int),
        i <= e <= c@.len(),
{
    let mut k = i;
    proof {
        lemma_ident_end_bounds(c@, i as int);
    }
    while k < c.len()
        invariant
            i <= k <= c@.len(),
            ident_end(c@, i as int) == ident_end(c@, k as int),
        decreases c@.len() - k,
    {
        let x = c[k];
        if ('a' <= x && x <= 'z') || ('A' <= x && x <= 'Z') || x == '_' || ('0' <= x && x <= '9') {
            k = k + 1;
        } else {
            return k;
        }
    }
    k
}

fn char_at_is_exec(c: &Vec<char>, i: usize, x: char) -> (r: bool)
    ensures
        r == char_at_is(c@, i as int, x),
{
    i < c.len() && c[i] == x
}

fn binary_op_exec(c: &Vec<char>, i: usize) -> (r: Option<(Op, usize)>)
    requires
        i < c@.len(),
    ensures
        match r {
            Some((op, w)) => binary_op_at(c@, i as int) == Some((op, w as int)),
            None => binary_op_at(c@, i as int) is None,
        },
        r matches Some((_, w)) ==> 1 <= w <= 2 && i + w <= c@.len(),
{
    let n = c.len();
    let x = c[i];
    let j = i + 1;
    if x == '+' {
        Some((Op::Add, 1))
    } else if x == '-' {
        Some((Op::Sub, 1))
    } else if x == '*' {
        Some((Op::Mul, 1))
    } else if x == '/' {
        Some((Op::Div, 1))
    } else if x == '%' {
        Some((Op::Mod, 1))
    } else if x == '^' {
        if char_at_is_exec(c, j, '^') {
            Some((Op::BitXor, 2))
        } else {
            Some((Op::Pow, 1))
        }
    } else if x == '&' {
        if char_at_is_exec(c, j, '&') {
            Some((Op::And, 2))
        } else {
            Some((Op::BitAnd, 1))
        }
    } else if x == '|' {
        if char_at_is_exec(c, j, '|') {
            Some((Op::Or, 2))
        } else {
            Some((Op::BitOr, 1))
        }
    } else if x == '<' {
        if char_at_is_exec(c, j, '<') {
            Some((Op::Shl, 2))
        } else if char_at_is_exec(c, j, '=') {
            Some((Op::LowEq, 2))
        } else {
            Some((Op::Low, 1))
        }
    } else if x == '>' {
        if char_at_is_exec(c, j, '>') {
            Some((Op::Shr, 2))
        } else if char_at_is_exec(c, j, '=') {
            Some((Op::GreatEq, 2))
        } else {
            Some((Op::Great, 1))
        }
    } else if x == '=' && char_at_is_exec(c, j, '=') {
        Some((Op::Eq, 2))
    } else if x == '!' && char_at_is_exec(c, j, '=') {
        Some((Op::NotEq, 2))
    } else {
        None
    }
}

/// Whether the characters `[i, e)` spell a word.
fn spells_exec(c: &Vec<char>, i: usize, e: usize, w: &Vec<char>) -> (r: bool)
    requires
        i <= e <= c@.len(),
    ensures
        r == spells(c@, i as int, e as int, w@),
{
    if e - i != w.len() {
        assert(c@.subrange(i as int, e as int).len() != w@.len());
        return false;
    }
    let mut k: usize = 0;
    while k < w.len()
        invariant
            e - i == w@.len(),
            i <= e <= c@.len(),
            k <= w@.len(),
            forall|j: int| 0 <= j < k ==> c@[i + j] == #[trigger] w@[j],
        decreases w@.len() - k,
    {
        if c[i + k] != w[k] {
            assert(c@.subrange(i as int, e as int)[k as int] != w@[k as int]);
            return false;
        }
        k = k + 1;
    }
    assert(c@.subrange(i as int, e as int) =~= w@);
    true
}

/// One step of the lexer.
pub fn step_at(c: &Vec<char>, i: usize, st: LexState) -> (r: Step)
    requires
        i < c@.len(),
    ensures
        r == step(c@, i as int, st),
        r matches Step::Emit(_, next, _) ==> i < next <= c@.len(),
{
    let n = c.len();
    let x = c[i];
    if x == ' ' || x == '\t' || x == '\n' {
        Step::Skip
    } else if x == '(' || x == '[' {
        Step::Emit(Token::LParen, i + 1, st)
    } else if x == ')' || x == ']' {
        Step::Emit(Token::RParen, i + 1, LexState::ExpectingOperator)
    } else if x == ',' {
        Step::Emit(Token::Comma, i + 1, LexState::Default)
    } else if st == LexState::ExpectingOperator {
        match binary_op_exec(c, i) {
            Some((op, w)) => Step::Emit(Token::Op(op), i + w, LexState::Default),
            None => Step::Fail,
        }
    } else if x == '-' {
        Step::Emit(Token::Op(Op::Neg), i + 1, LexState::Default)
    } else if x == '!' {
        Step::Emit(Token::Op(Op::Not), i + 1, LexState::Default)
    } else if ('0' <= x && x <= '9') || x == '.' {
        let e = number_end_exec(c, i);
        Step::Emit(Token::Num(i, e), e, LexState::ExpectingOperator)
    } else if ('a' <= x && x <= 'z') || ('A' <= x && x <= 'Z') || x == '_' {
        let e = ident_end_exec(c, i + 1);
        if char_at_is_exec(c, e, '(') || char_at_is_exec(c, e, '[') {
            Step::Emit(Token::Call(i, e), e + 1, LexState::Default)
        } else if spells_exec(c, i, e, &vec!['t', 'r', 'u', 'e']) {
            Step::Emit(Token::Bool(true), e, LexState::ExpectingOperator)
        } else if spells_exec(c, i, e, &vec!['f', 'a', 'l', 's', 'e']) {
            Step::Emit(Token::Bool(false), e, LexState::ExpectingOperator)
        } else {
            Step::Emit(Token::Var(i, e), e, LexState::ExpectingOperator)
        }
    } else {
        Step::Fail
    }
}

/// Reads the whole character list into tokens, or gives the position of the
/// first character that is not allowed where it stands.
pub fn lex_chars(c: &Vec<char>) -> (r: Result<Vec<(Token, usize)>, usize>)
    ensures
        match r {
            Ok(t) => lex_from(c@, 0, LexState::Default) == Ok::<Seq<(Token, usize)>, int>(t@),
            Err(p) => lex_from(c@, 0, LexState::Default) == Err::<Seq<(Token, usize)>, int>(
                p as int,
            ) && p < c@.len(),
        },
{
    let mut out: Vec<(Token, usize)> = Vec::new();
    let mut i: usize = 0;
    let mut st = LexState::Default;
    while i < c.len()
        invariant
            i <= c@.len(),
            lex_from(c@, 0, LexState::Default) == prepend(out@, lex_from(c@, i as int, st)),
        decreases c@.len() - i,
    {
        match step_at(c, i, st) {
            Step::Skip => {
                i = i + 1;
            },
            Step::Emit(t, next, st2) => {
                if next <= i || next > c.len() {
                    return Err(i);
                }
                proof {
                    let rest = lex_from(c@, next as int, st2);
                    if rest is Ok {
                        assert(out@ + (seq![(t, i)] + rest->Ok_0) =~= out@.push((t, i))
                            + rest->Ok_0);
                    }
                }
                out.push((t, i));
                i = next;
                st = st2;
            },
            Step::Fail => {
                return Err(i);
            },
        }
    }
    assert(out@ + Seq::<(Token, usize)>::empty() =~= out@);
    Ok(out)
}

/// The text ranges of a token lie inside a text of `n` characters.
pub open spec fn span_ok(t: Token, n: int) -> bool {
    match t {
        Token::Num(s, e) => s <= e <= n,
        Token::Var(s, e) => s <= e <= n,
        Token::Call(s, e) => s <= e <= n,
        _ => true,
    }
}

pub proof fn lemma_step_span(c: Seq<char>, i: int, st: LexState)
    requires
        0 <= i < c.len(),
        c.len() <= usize::MAX,
    ensures
        step(c, i, st) matches Step::Emit(t, _, _) ==> span_ok(t, c.len() as int),
{
    lemma_number_end_bounds(c, i, false);
    lemma_ident_end_bounds(c, i + 1);
}

/// Every token takes at least one character.
pub proof fn lemma_lex_count(c: Seq<char>, i: int, st: LexState)
    requires
        0 <= i,
    ensures
        lex_from(c, i, st) is Ok ==> lex_from(c, i, st)->Ok_0.len() <= c.len() - i || i >= c.len(),
    decreases c.len() - i,
{
    if i < c.len() {
        match step(c, i, st) {
            Step::Skip => lemma_lex_count(c, i + 1, st),
            Step::Emit(t, next, st2) => {
                if next > i && next <= c.len() {
                    lemma_lex_count(c, next as int, st2);
                }
            },
            Step::Fail => {},
        }
    }
}

/// The ranges and positions of tokens lie inside a text of `n` characters.
pub open spec fn tokens_ok(ts: Seq<(Token, usize)>, n: int) -> bool {
    forall|j: int| 0 <= j < ts.len() ==> span_ok(#[trigger] ts[j].0, n) && ts[j].1 < n
}

/// Every token of a successful lexing has its ranges and its position inside
/// the text.
#[verifier::spinoff_prover]
pub proof fn lemma_lex_spans(c: Seq<char>, i: int, st: LexState)
    requires
        0 <= i,
        c.len() <= usize::MAX,
    ensures
        lex_from(c, i, st) is Ok ==> tokens_ok(lex_from(c, i, st)->Ok_0, c.len() as int),
    decreases c.len() - i,
{
    if i < c.len() {
        lemma_step_span(c, i, st);
        match step(c, i, st) {
            Step::Skip => {
                lemma_lex_spans(c, i + 1, st);
                assert(lex_from(c, i, st) == lex_from(c, i + 1, st));
            },
            Step::Emit(t, next, st2) => {
                if next > i && next <= c.len() {
                    lemma_lex_spans(c, next as int, st2);
                    let r = lex_from(c, next as int, st2);
                    if r is Ok {
                        let rest = r->Ok_0;
                        assert(tokens_ok(rest, c.len() as int));
                        assert forall|j: int| 0 <= j < rest.len() implies span_ok(
                            #[trigger] rest[j].0,
                            c.len() as int,
                        ) && rest[j].1 < c.len() by {}
                        let ts = seq![(t, i as usize)] + rest;
                        assert(ts[0] == (t, i as usize));
                        assert forall|j: int| 0 <= j < ts.len() implies span_ok(
                            #[trigger] ts[j].0,
                            c.len() as int,
                        ) && ts[j].1 < c.len() by {
                            if j > 0 {
                                assert(ts[j] == rest[j - 1]);
                                assert(span_ok(rest[j - 1].0, c.len() as int));
                            } else {
                                assert(span_ok(t, c.len() as int));
                            }
                        }
                        assert(lex_from(c, i, st) == Ok::<Seq<(Token, usize)>, int>(ts));
                    }
                }
            },
            Step::Fail => {},
        }
    }
}

/// The byte offset of a character position.
pub fn byte_offset(c: &Vec<char>, p: usize) -> (r: usize)
    requires
        p <= c@.len(),
        c@.len() <= usize::MAX / 4,
    ensures
        r == byte_pos(c@, p as int),
{
    let mut i: usize = 0;
    let mut off: usize = 0;
    while i < p
        invariant
            i <= p <= c@.len(),
            c@.len() <= usize::MAX / 4,
            off == byte_pos(c@, i as int),
        decreases p - i,
    {
        proof {
            lemma_byte_pos_bound(c@, i + 1);
        }
        off = off + utf8_width(c[i]);
        i = i + 1;
    }
    off
}

/// A byte offset is at most four bytes per character.
proof fn lemma_byte_pos_bound(c: Seq<char>, i: int)
    requires
        0 <= i <= c.len(),
    ensures
        byte_pos(c, i) <= 4 * i,
    decreases i,
{
    if i > 0 {
        lemma_byte_pos_bound(c, i - 1);
    }
}

/// Reads source text into tokens, each with the character position it
/// starts at; or reports the first character that is not allowed where it
/// stands, with its byte offset in the whole text.
pub fn lex(src: &str) -> (r: Result<Vec<(Token, usize)>, ParseError>)
    requires
        src@.len() <= usize::MAX / 4,
    ensures
        match r {
            Ok(t) => spec_lex(src@) == Ok::<Seq<(Token, usize)>, ParseError>(t@),
            Err(e) => spec_lex(src@) == Err::<Seq<(Token, usize)>, ParseError>(e),
        },
{
    let c = chars_of(src);
    match lex_chars(&c) {
        Ok(t) => Ok(t),
        Err(p) => {
            let off = byte_offset(&c, p);
            Err(ParseError::UnexpectedChar(c[p], off))
        },
    }
}

} // verus!
