//! The expression parser. It drives the grammar
//!
//! ```text
//! Expr   := Or
//! Or     := And ( '|' And )*
//! And    := Atom ( '&' Atom )*
//! Atom   := '(' Expr ')'
//!         | '!' Atom
//!         | Value '<' Ident '<' Value
//!         | Ident ('=' | '<' | '>' | ':') Value
//! ```
//!
//! with an explicit state stack and value stack instead of native call
//! recursion, so that nesting depth is bounded only by the heap. The model
//! `interp` gives the meaning of a parser configuration; `spec_parse` is the
//! meaning of a whole parse.

use vstd::prelude::*;
use crate::tokens::{TokFullM, LexErrM, Token, TokenFull, TokenM, TokenizerError, JsonValue, JsonM};
use crate::tokenizer::{Tokenizer, out_matches};
use crate::lex::{lex_from, lex_all, step_result, lemma_lex_from_bounds};

verus! {

/// The view of a `Result` whose parts have views.
pub open spec fn res_view<A: View, B: View>(r: Result<A, B>) -> Result<A::V, B::V> {
    match r {
        Ok(a) => Ok(a@),
        Err(b) => Err(b@),
    }
}

/// The compilation target of a parse: one method per grammar primitive.
/// Each method is specified by a companion spec function over the views of
/// the visitor's state, result and error types, so that what a parse
/// returns is a function of the source text and the visitor's start state.
pub trait Visitor<T: View, E: View>: View + Sized {
    /// Meaning of `eq`: next state and result from a state and arguments.
    spec fn sp_eq(m: Self::V, ident: Seq<char>, value: JsonM) -> (Self::V, Result<T::V, E::V>);

    spec fn sp_lt(m: Self::V, ident: Seq<char>, value: JsonM) -> (Self::V, Result<T::V, E::V>);

    spec fn sp_gt(m: Self::V, ident: Seq<char>, value: JsonM) -> (Self::V, Result<T::V, E::V>);

    spec fn sp_colon(m: Self::V, ident: Seq<char>, value: JsonM) -> (Self::V, Result<T::V, E::V>);

    spec fn sp_between(m: Self::V, low: JsonM, ident: Seq<char>, high: JsonM) -> (
        Self::V,
        Result<T::V, E::V>,
    );

    spec fn sp_or(m: Self::V, l: T::V, r: T::V) -> (Self::V, Result<T::V, E::V>);

    spec fn sp_and(m: Self::V, l: T::V, r: T::V) -> (Self::V, Result<T::V, E::V>);

    spec fn sp_not(m: Self::V, e: T::V) -> (Self::V, Result<T::V, E::V>);

    fn eq(&mut self, ident: String, value: JsonValue) -> (r: Result<T, E>)
        ensures
            (final(self)@, res_view(r)) == Self::sp_eq(old(self)@, ident@, value@),
    ;

    fn lt(&mut self, ident: String, value: JsonValue) -> (r: Result<T, E>)
        ensures
            (final(self)@, res_view(r)) == Self::sp_lt(old(self)@, ident@, value@),
    ;

    fn gt(&mut self, ident: String, value: JsonValue) -> (r: Result<T, E>)
        ensures
            (final(self)@, res_view(r)) == Self::sp_gt(old(self)@, ident@, value@),
    ;

    fn colon(&mut self, ident: String, value: JsonValue) -> (r: Result<T, E>)
        ensures
            (final(self)@, res_view(r)) == Self::sp_colon(old(self)@, ident@, value@),
    ;

    fn between(&mut self, low_value: JsonValue, ident: String, high_value: JsonValue) -> (r: Result<
        T,
        E,
    >)
        ensures
            (final(self)@, res_view(r)) == Self::sp_between(old(self)@, low_value@, ident@, high_value@),
    ;

    fn or(&mut self, ls: T, rs: T) -> (r: Result<T, E>)
        ensures
            (final(self)@, res_view(r)) == Self::sp_or(old(self)@, ls@, rs@),
    ;

    fn and(&mut self, ls: T, rs: T) -> (r: Result<T, E>)
        ensures
            (final(self)@, res_view(r)) == Self::sp_and(old(self)@, ls@, rs@),
    ;

    fn not(&mut self, expr: T) -> (r: Result<T, E>)
        ensures
            (final(self)@, res_view(r)) == Self::sp_not(old(self)@, expr@),
    ;
}

/// A parse failure: a lexical error, a structural mismatch, an error raised
/// by the visitor, or a corrupted parsing stack (never produced by a parse
/// that starts from the initial configuration on well-formed input).
#[derive(Debug)]
pub enum ExpressionParserError<E> {
    TokenizerError(TokenizerError),
    UnexpectedEndOfExpression,
    UnexpectedKnownToken { expected: Token, got: TokenFull },
    UnexpectedTokenReason { got: TokenFull, expected: &'static str },
    VisitorError(E),
    InvalidParsingStack,
}

/// Model of a parse failure.
#[verifier::ext_equal]
pub enum PErrM<EV> {
    TokenizerError(LexErrM),
    UnexpectedEndOfExpression,
    UnexpectedKnownToken { expected: TokenM, got: TokFullM },
    UnexpectedTokenReason { got: TokFullM, expected: Seq<char> },
    VisitorError(EV),
    InvalidParsingStack,
}

impl<E: View> View for ExpressionParserError<E> {
    type V = PErrM<E::V>;

    open spec fn view(&self) -> PErrM<E::V> {
        match self {
            ExpressionParserError::TokenizerError(e) => PErrM::TokenizerError(e@),
            ExpressionParserError::UnexpectedEndOfExpression => PErrM::UnexpectedEndOfExpression,
            ExpressionParserError::UnexpectedKnownToken { expected, got } => PErrM::UnexpectedKnownToken {
                expected: expected@,
                got: got@,
            },
            ExpressionParserError::UnexpectedTokenReason { got, expected } => PErrM::UnexpectedTokenReason {
                got: got@,
                expected: expected@,
            },
            ExpressionParserError::VisitorError(e) => PErrM::VisitorError(e@),
            ExpressionParserError::InvalidParsingStack => PErrM::InvalidParsingStack,
        }
    }
}

/// States of the parsing machine: each marks a pending continuation of the
/// grammar walk.
#[derive(Clone, Copy, Debug)]
pub enum ParseState {
    OrCalled,
    OrReturned1,
    OrReturned2,
    AndCalled,
    AndReturned1,
    AndReturned2,
    BottomCalled,
    BottomReturn1,
    BottomReturn2,
}

/// Weight of a state: replacing a popped state by its pushes strictly
/// lowers the stack's total weight, which bounds the machine's steps
/// between token consumptions.
pub open spec fn st_weight(st: ParseState) -> nat {
    match st {
        ParseState::OrCalled => 5,
        ParseState::AndCalled => 3,
        ParseState::OrReturned2 => 2,
        ParseState::AndReturned2 => 2,
        _ => 1,
    }
}

pub open spec fn stack_weight(sts: Seq<ParseState>) -> nat
    decreases sts.len(),
{
    if sts.len() == 0 {
        0
    } else {
        stack_weight(sts.drop_last()) + st_weight(sts.last())
    }
}

pub proof fn lemma_weight_push(sts: Seq<ParseState>, x: ParseState)
    ensures
        stack_weight(sts.push(x)) == stack_weight(sts) + st_weight(x),
{
    assert(sts.push(x).drop_last() =~= sts);
}

/// The expectation tag reported when a comparison operator was required.
pub open spec fn msg_expect_op() -> Seq<char> {
    "Token::Eq | Token::Gt | Token::Lt | Token::Colon"@
}

/// The expectation tag reported when `<` was required.
pub open spec fn msg_expect_lt() -> Seq<char> {
    "Token::Lt"@
}

/// The expectation tag reported when `)` was required.
pub open spec fn msg_expect_rpar() -> Seq<char> {
    "Token::RPar"@
}

/// The meaning of a parser configuration: the machine runs the pending
/// states (`states`, top last) against the token sequence `toks` from index
/// `i`, with partial results `vars` and visitor state `m`, until the state
/// stack empties or a failure aborts the run. It yields the final visitor
/// state and either the final value stack with the index reached, or the
/// error.
pub open spec fn interp<T: View, E: View, V: Visitor<T, E>>(
    toks: Seq<Result<TokFullM, LexErrM>>,
    states: Seq<ParseState>,
    vars: Seq<T::V>,
    m: V::V,
    i: int,
) -> (V::V, Result<(Seq<T::V>, int), PErrM<E::V>>)
    decreases toks.len() - i, stack_weight(states), 0int,
    when 0 <= i <= toks.len()
{
    if states.len() == 0 {
        (m, Ok((vars, i)))
    } else {
        let st = states.last();
        let rest = states.drop_last();
        match st {
            ParseState::OrCalled => {
                proof {
                    lemma_weight_push(rest, ParseState::OrReturned1);
                    lemma_weight_push(rest.push(ParseState::OrReturned1), ParseState::AndCalled);
                }
                interp::<T, E, V>(
                    toks,
                    rest.push(ParseState::OrReturned1).push(ParseState::AndCalled),
                    vars,
                    m,
                    i,
                )
            },
            ParseState::OrReturned1 => {
                if i >= toks.len() {
                    interp::<T, E, V>(toks, rest, vars, m, i)
                } else {
                    match toks[i] {
                        Err(e) => (m, Err(PErrM::TokenizerError(e))),
                        Ok(tf) => {
                            if tf.data is Or {
                                proof {
                                    lemma_weight_push(rest, ParseState::OrReturned2);
                                    lemma_weight_push(
                                        rest.push(ParseState::OrReturned2),
                                        ParseState::AndCalled,
                                    );
                                }
                                interp::<T, E, V>(
                                    toks,
                                    rest.push(ParseState::OrReturned2).push(ParseState::AndCalled),
                                    vars,
                                    m,
                                    i + 1,
                                )
                            } else {
                                interp::<T, E, V>(toks, rest, vars, m, i)
                            }
                        },
                    }
                }
            },
            ParseState::OrReturned2 => {
                if vars.len() < 2 {
                    (m, Err(PErrM::InvalidParsingStack))
                } else {
                    let (m2, rr) = V::sp_or(m, vars[vars.len() - 2], vars[vars.len() - 1]);
                    match rr {
                        Err(e) => (m2, Err(PErrM::VisitorError(e))),
                        Ok(t) => {
                            proof {
                                lemma_weight_push(rest, ParseState::OrReturned1);
                            }
                            interp::<T, E, V>(
                                toks,
                                rest.push(ParseState::OrReturned1),
                                vars.drop_last().drop_last().push(t),
                                m2,
                                i,
                            )
                        },
                    }
                }
            },
            ParseState::AndCalled => {
                proof {
                    lemma_weight_push(rest, ParseState::AndReturned1);
                    lemma_weight_push(rest.push(ParseState::AndReturned1), ParseState::BottomCalled);
                }
                interp::<T, E, V>(
                    toks,
                    rest.push(ParseState::AndReturned1).push(ParseState::BottomCalled),
                    vars,
                    m,
                    i,
                )
            },
            ParseState::AndReturned1 => {
                if i >= toks.len() {
                    interp::<T, E, V>(toks, rest, vars, m, i)
                } else {
                    match toks[i] {
                        Err(e) => (m, Err(PErrM::TokenizerError(e))),
                        Ok(tf) => {
                            if tf.data is And {
                                proof {
                                    lemma_weight_push(rest, ParseState::AndReturned2);
                                    lemma_weight_push(
                                        rest.push(ParseState::AndReturned2),
                                        ParseState::BottomCalled,
                                    );
                                }
                                interp::<T, E, V>(
                                    toks,
                                    rest.push(ParseState::AndReturned2).push(
                                        ParseState::BottomCalled,
                                    ),
                                    vars,
                                    m,
                                    i + 1,
                                )
                            } else {
                                interp::<T, E, V>(toks, rest, vars, m, i)
                            }
                        },
                    }
                }
            },
            ParseState::AndReturned2 => {
                if vars.len() < 2 {
                    (m, Err(PErrM::InvalidParsingStack))
                } else {
                    let (m2, rr) = V::sp_and(m, vars[vars.len() - 2], vars[vars.len() - 1]);
                    match rr {
                        Err(e) => (m2, Err(PErrM::VisitorError(e))),
                        Ok(t) => {
                            proof {
                                lemma_weight_push(rest, ParseState::AndReturned1);
                            }
                            interp::<T, E, V>(
                                toks,
                                rest.push(ParseState::AndReturned1),
                                vars.drop_last().drop_last().push(t),
                                m2,
                                i,
                            )
                        },
                    }
                }
            },
            ParseState::BottomCalled => {
                if i >= toks.len() {
                    (m, Err(PErrM::UnexpectedEndOfExpression))
                } else {
                    match toks[i] {
                        Err(e) => (m, Err(PErrM::TokenizerError(e))),
                        Ok(tf) => {
                            match tf.data {
                                TokenM::LPar => {
                                    proof {
                                        lemma_weight_push(rest, ParseState::BottomReturn1);
                                        lemma_weight_push(
                                            rest.push(ParseState::BottomReturn1),
                                            ParseState::OrCalled,
                                        );
                                    }
                                    interp::<T, E, V>(
                                        toks,
                                        rest.push(ParseState::BottomReturn1).push(
                                            ParseState::OrCalled,
                                        ),
                                        vars,
                                        m,
                                        i + 1,
                                    )
                                },
                                TokenM::Value(low) => {
                                    let (m2, rr) = between_step::<T, E, V>(toks, m, i + 1, low);
                                    match rr {
                                        Err(e) => (m2, Err(e)),
                                        Ok(pr) => {
                                            proof {
                                                lemma_between_step_bounds::<T, E, V>(
                                                    toks,
                                                    m,
                                                    i + 1,
                                                    low,
                                                );
                                            }
                                            interp::<T, E, V>(toks, rest, vars.push(pr.0), m2, pr.1)
                                        },
                                    }
                                },
                                TokenM::Bang => {
                                    proof {
                                        lemma_weight_push(rest, ParseState::BottomReturn2);
                                        lemma_weight_push(
                                            rest.push(ParseState::BottomReturn2),
                                            ParseState::BottomCalled,
                                        );
                                    }
                                    interp::<T, E, V>(
                                        toks,
                                        rest.push(ParseState::BottomReturn2).push(
                                            ParseState::BottomCalled,
                                        ),
                                        vars,
                                        m,
                                        i + 1,
                                    )
                                },
                                TokenM::Ident(id) => {
                                    let (m2, rr) = compare_step::<T, E, V>(toks, m, i + 1, id);
                                    match rr {
                                        Err(e) => (m2, Err(e)),
                                        Ok(pr) => {
                                            proof {
                                                lemma_compare_step_bounds::<T, E, V>(
                                                    toks,
                                                    m,
                                                    i + 1,
                                                    id,
                                                );
                                            }
                                            interp::<T, E, V>(toks, rest, vars.push(pr.0), m2, pr.1)
                                        },
                                    }
                                },
                                _ => (
                                    m,
                                    Err(
                                        PErrM::UnexpectedKnownToken {
                                            expected: TokenM::Ident(Seq::empty()),
                                            got: tf,
                                        },
                                    ),
                                ),
                            }
                        },
                    }
                }
            },
            ParseState::BottomReturn1 => {
                if i >= toks.len() {
                    (m, Err(PErrM::UnexpectedEndOfExpression))
                } else {
                    match toks[i] {
                        Err(e) => (m, Err(PErrM::TokenizerError(e))),
                        Ok(tf) => {
                            if tf.data is RPar {
                                interp::<T, E, V>(toks, rest, vars, m, i + 1)
                            } else {
                                (
                                    m,
                                    Err(
                                        PErrM::UnexpectedTokenReason {
                                            got: tf,
                                            expected: msg_expect_rpar(),
                                        },
                                    ),
                                )
                            }
                        },
                    }
                }
            },
            ParseState::BottomReturn2 => {
                if vars.len() < 1 {
                    (m, Err(PErrM::InvalidParsingStack))
                } else {
                    let (m2, rr) = V::sp_not(m, vars.last());
                    match rr {
                        Err(e) => (m2, Err(PErrM::VisitorError(e))),
                        Ok(t) => interp::<T, E, V>(toks, rest, vars.drop_last().push(t), m2, i),
                    }
                }
            },
        }
    }
}

/// The between form, after its leading literal: `'<' Ident '<' Value`,
/// ending in the visitor's `between`. On success it yields the compiled
/// value and the index after the consumed tokens.
pub open spec fn between_step<T: View, E: View, V: Visitor<T, E>>(
    toks: Seq<Result<TokFullM, LexErrM>>,
    m: V::V,
    i: int,
    low: JsonM,
) -> (V::V, Result<(T::V, int), PErrM<E::V>>) {
    if i >= toks.len() {
        (m, Err(PErrM::UnexpectedEndOfExpression))
    } else {
        match toks[i] {
            Err(e) => (m, Err(PErrM::TokenizerError(e))),
            Ok(t2) => {
                if !(t2.data is Lt) {
                    (m, Err(PErrM::UnexpectedTokenReason { got: t2, expected: msg_expect_lt() }))
                } else if i + 1 >= toks.len() {
                    (m, Err(PErrM::UnexpectedEndOfExpression))
                } else {
                    match toks[i + 1] {
                        Err(e) => (m, Err(PErrM::TokenizerError(e))),
                        Ok(t3) => match t3.data {
                            TokenM::Ident(id) => {
                                if i + 2 >= toks.len() {
                                    (m, Err(PErrM::UnexpectedEndOfExpression))
                                } else {
                                    match toks[i + 2] {
                                        Err(e) => (m, Err(PErrM::TokenizerError(e))),
                                        Ok(t4) => {
                                            if !(t4.data is Lt) {
                                                (
                                                    m,
                                                    Err(
                                                        PErrM::UnexpectedTokenReason {
                                                            got: t4,
                                                            expected: msg_expect_lt(),
                                                        },
                                                    ),
                                                )
                                            } else if i + 3 >= toks.len() {
                                                (m, Err(PErrM::UnexpectedEndOfExpression))
                                            } else {
                                                match toks[i + 3] {
                                                    Err(e) => (m, Err(PErrM::TokenizerError(e))),
                                                    Ok(t5) => match t5.data {
                                                        TokenM::Value(high) => {
                                                            let (m2, rr) = V::sp_between(
                                                                m,
                                                                low,
                                                                id,
                                                                high,
                                                            );
                                                            match rr {
                                                                Err(e) => (
                                                                    m2,
                                                                    Err(PErrM::VisitorError(e)),
                                                                ),
                                                                Ok(t) => (m2, Ok((t, i + 4))),
                                                            }
                                                        },
                                                        _ => (
                                                            m,
                                                            Err(
                                                                PErrM::UnexpectedKnownToken {
                                                                    expected: TokenM::Value(
                                                                        JsonM::JNull,
                                                                    ),
                                                                    got: t5,
                                                                },
                                                            ),
                                                        ),
                                                    },
                                                }
                                            }
                                        },
                                    }
                                }
                            },
                            _ => (
                                m,
                                Err(
                                    PErrM::UnexpectedKnownToken {
                                        expected: TokenM::Ident(Seq::empty()),
                                        got: t3,
                                    },
                                ),
                            ),
                        },
                    }
                }
            },
        }
    }
}

pub proof fn lemma_between_step_bounds<T: View, E: View, V: Visitor<T, E>>(
    toks: Seq<Result<TokFullM, LexErrM>>,
    m: V::V,
    i: int,
    low: JsonM,
)
    requires
        0 <= i,
    ensures
        between_step::<T, E, V>(toks, m, i, low).1 matches Ok(pr) ==> i < pr.1 <= toks.len(),
{
}

/// A plain comparison, after its identifier: an operator token and a
/// literal, ending in the matching visitor call. On success it yields the
/// compiled value and the index after the consumed tokens.
pub open spec fn compare_step<T: View, E: View, V: Visitor<T, E>>(
    toks: Seq<Result<TokFullM, LexErrM>>,
    m: V::V,
    i: int,
    id: Seq<char>,
) -> (V::V, Result<(T::V, int), PErrM<E::V>>) {
    if i >= toks.len() {
        (m, Err(PErrM::UnexpectedEndOfExpression))
    } else {
        match toks[i] {
            Err(e) => (m, Err(PErrM::TokenizerError(e))),
            Ok(op) => {
                if op.data is Eq || op.data is Gt || op.data is Lt || op.data is Colon {
                    if i + 1 >= toks.len() {
                        (m, Err(PErrM::UnexpectedEndOfExpression))
                    } else {
                        match toks[i + 1] {
                            Err(e) => (m, Err(PErrM::TokenizerError(e))),
                            Ok(vt) => match vt.data {
                                TokenM::Value(val) => {
                                    let (m2, rr) = if op.data is Eq {
                                        V::sp_eq(m, id, val)
                                    } else if op.data is Gt {
                                        V::sp_gt(m, id, val)
                                    } else if op.data is Lt {
                                        V::sp_lt(m, id, val)
                                    } else {
                                        V::sp_colon(m, id, val)
                                    };
                                    match rr {
                                        Err(e) => (m2, Err(PErrM::VisitorError(e))),
                                        Ok(t) => (m2, Ok((t, i + 2))),
                                    }
                                },
                                _ => (
                                    m,
                                    Err(
                                        PErrM::UnexpectedKnownToken {
                                            expected: TokenM::Value(JsonM::JNull),
                                            got: vt,
                                        },
                                    ),
                                ),
                            },
                        }
                    }
                } else {
                    (m, Err(PErrM::UnexpectedTokenReason { got: op, expected: msg_expect_op() }))
                }
            },
        }
    }
}

pub proof fn lemma_compare_step_bounds<T: View, E: View, V: Visitor<T, E>>(
    toks: Seq<Result<TokFullM, LexErrM>>,
    m: V::V,
    i: int,
    id: Seq<char>,
)
    requires
        0 <= i,
    ensures
        compare_step::<T, E, V>(toks, m, i, id).1 matches Ok(pr) ==> i < pr.1 <= toks.len(),
{
}

/// The meaning of one whole parse from position `i` of source `s`, with
/// visitor state `m`: the machine starts with one pending `Or` walk and an
/// empty value stack.
pub open spec fn spec_parse<T: View, E: View, V: Visitor<T, E>>(s: Seq<char>, i: int, m: V::V) -> (
    V::V,
    Result<T::V, PErrM<E::V>>,
) {
    let (m2, r) = interp::<T, E, V>(lex_all(s, i), seq![ParseState::OrCalled], Seq::empty(), m, 0);
    match r {
        Err(e) => (m2, Err(e)),
        Ok(pr) => {
            if pr.0.len() == 1 {
                (m2, Ok(pr.0[0]))
            } else {
                (m2, Err(PErrM::InvalidParsingStack))
            }
        },
    }
}


/// The views of a sequence of values.
pub open spec fn seq_views<A: View>(v: Seq<A>) -> Seq<A::V> {
    Seq::new(v.len(), |i: int| v[i]@)
}

pub proof fn lemma_seq_views_push<A: View>(v: Seq<A>, x: A)
    ensures
        seq_views(v.push(x)) == seq_views(v).push(x@),
{
    assert(seq_views(v.push(x)) =~= seq_views(v).push(x@));
}

pub proof fn lemma_seq_views_drop<A: View>(v: Seq<A>)
    requires
        v.len() > 0,
    ensures
        seq_views(v.drop_last()) == seq_views(v).drop_last(),
{
    assert(seq_views(v.drop_last()) =~= seq_views(v).drop_last());
}

/// Unfolds the token cursor: when the ghost index `n` into the fixed token
/// sequence corresponds to source position `p`, the element at `n` is the
/// lexing step at `p` and `n + 1` corresponds to its resume position.
pub proof fn lemma_cursor(
    toks: Seq<Result<TokFullM, LexErrM>>,
    n: int,
    s: Seq<char>,
    p: int,
)
    requires
        0 <= n <= toks.len(),
        toks.skip(n) == lex_all(s, p),
        0 <= p <= s.len(),
    ensures
        (n == toks.len()) <==> (lex_from(s, p) is None),
        n < toks.len() ==> (match lex_from(s, p) {
            Some(lr) => {
                &&& toks[n] == step_result(s, lr)
                &&& toks.skip(n + 1) == lex_all(s, lr.resume)
                &&& p < lr.resume <= s.len()
            },
            None => false,
        }),
{
    lemma_lex_from_bounds(s, p);
    match lex_from(s, p) {
        None => {
            assert(lex_all(s, p) =~= Seq::<Result<TokFullM, LexErrM>>::empty());
            assert(toks.skip(n).len() == toks.len() - n);
        },
        Some(lr) => {
            let rest = lex_all(s, lr.resume);
            assert(lex_all(s, p) == seq![step_result(s, lr)] + rest);
            assert(toks.skip(n).len() == toks.len() - n);
            assert(toks.skip(n).len() == 1 + rest.len());
            assert(toks[n] == toks.skip(n)[0]);
            assert(toks.skip(n + 1) =~= toks.skip(n).skip(1));
            assert((seq![step_result(s, lr)] + rest).skip(1) =~= rest);
        },
    }
}

/// The expression parser over one source string: the tokenizer, plus at
/// most one token read ahead.
pub struct ExpressionParser {
    tokenizer: Tokenizer,
    peeked: Option<Option<Result<TokenFull, TokenizerError>>>,
    peek_pos: Ghost<int>,
}

impl ExpressionParser {
    /// The characters of the source string.
    pub closed spec fn input(&self) -> Seq<char> {
        self.tokenizer.input()
    }

    /// The committed position: where the next token attempt begins (before
    /// the peeked token, when one is buffered).
    pub closed spec fn cur_pos(&self) -> int {
        if self.peeked is Some {
            self.peek_pos@
        } else {
            self.tokenizer.pos()
        }
    }

    /// Whether a token has been read ahead.
    pub closed spec fn has_peek(&self) -> bool {
        self.peeked is Some
    }

    /// The token read ahead, if any.
    pub closed spec fn peeked_now(&self) -> Option<Result<TokenFull, TokenizerError>> {
        match self.peeked {
            Some(r) => r,
            None => None,
        }
    }

    /// Internal well-formedness: a buffered token is exactly the lexing
    /// step at the committed position, and the tokenizer stands after it.
    pub closed spec fn wf(&self) -> bool {
        &&& self.tokenizer.wf()
        &&& match self.peeked {
            None => true,
            Some(r) => {
                &&& 0 <= self.peek_pos@ <= self.input().len()
                &&& match lex_from(self.input(), self.peek_pos@) {
                    None => r is None && self.tokenizer.pos() == self.input().len(),
                    Some(lr) => {
                        &&& r matches Some(res) && out_matches(self.input(), lr.out, res)
                        &&& self.tokenizer.pos() == lr.resume
                    },
                }
            },
        }
    }

    pub fn new(expression: &str) -> (p: Self)
        ensures
            p.wf(),
            p.input() == expression@,
            p.cur_pos() == 0,
    {
        ExpressionParser {
            tokenizer: Tokenizer::new(expression),
            peeked: None,
            peek_pos: Ghost(0),
        }
    }

    /// Take the next token, consuming the buffered one if present.
    fn next_token(&mut self) -> (r: Option<Result<TokenFull, TokenizerError>>)
        requires
            old(self).wf(),
        ensures
            final(self).wf(),
            final(self).input() == old(self).input(),
            !final(self).has_peek(),
            match lex_from(old(self).input(), old(self).cur_pos()) {
                None => r is None && final(self).cur_pos() == old(self).input().len(),
                Some(lr) => {
                    &&& r matches Some(res) && out_matches(old(self).input(), lr.out, res)
                    &&& final(self).cur_pos() == lr.resume
                },
            },
    {
        proof {
            self.tokenizer.lemma_wf_bounds();
        }
        let mut tmp: Option<Option<Result<TokenFull, TokenizerError>>> = None;
        core::mem::swap(&mut tmp, &mut self.peeked);
        match tmp {
            Some(r) => r,
            None => self.tokenizer.next(),
        }
    }

    /// Read one token ahead if none is buffered.
    fn ensure_peeked(&mut self)
        requires
            old(self).wf(),
        ensures
            final(self).wf(),
            final(self).input() == old(self).input(),
            final(self).cur_pos() == old(self).cur_pos(),
            final(self).has_peek(),
    {
        proof {
            self.tokenizer.lemma_wf_bounds();
        }
        if self.peeked.is_none() {
            let ghost p = self.tokenizer.pos();
            let r = self.tokenizer.next();
            self.peeked = Some(r);
            self.peek_pos = Ghost(p);
        }
    }

    fn peeked_is_lex_err(&self) -> (b: bool)
        requires
            self.has_peek(),
        ensures
            b == (self.peeked_now() matches Some(r) && r is Err),
    {
        match &self.peeked {
            Some(Some(Err(e))) => true,
            _ => false,
        }
    }

    fn peeked_is_or(&self) -> (b: bool)
        requires
            self.has_peek(),
        ensures
            b == (self.peeked_now() matches Some(r) && r matches Ok(tf) && tf.data is Or),
    {
        match &self.peeked {
            Some(Some(Ok(tf))) => matches!(tf.data, Token::Or),
            _ => false,
        }
    }

    fn peeked_is_and(&self) -> (b: bool)
        requires
            self.has_peek(),
        ensures
            b == (self.peeked_now() matches Some(r) && r matches Ok(tf) && tf.data is And),
    {
        match &self.peeked {
            Some(Some(Ok(tf))) => matches!(tf.data, Token::And),
            _ => false,
        }
    }


    /// The between form, after its leading literal was consumed: read
    /// `'<' Ident '<' Value` and call the visitor's `between`.
    fn parse_between<T: View, E: View, V: Visitor<T, E>>(
        &mut self,
        visitor: &mut V,
        low: JsonValue,
        Ghost(toks): Ghost<Seq<Result<TokFullM, LexErrM>>>,
        Ghost(n): Ghost<int>,
    ) -> (out: (Result<T, ExpressionParserError<E>>, Ghost<int>))
        requires
            old(self).wf(),
            0 <= n <= toks.len(),
            toks.skip(n) == lex_all(old(self).input(), old(self).cur_pos()),
            0 <= old(self).cur_pos() <= old(self).input().len(),
        ensures
            final(self).wf(),
            final(self).input() == old(self).input(),
            ({
                let (m2, rr) = between_step::<T, E, V>(toks, old(visitor)@, n, low@);
                &&& final(visitor)@ == m2
                &&& match out.0 {
                    Ok(t) => {
                        &&& rr matches Ok(pr) && pr.0 == t@ && pr.1 == out.1@
                        &&& toks.skip(out.1@) == lex_all(final(self).input(), final(self).cur_pos())
                        &&& 0 <= final(self).cur_pos() <= final(self).input().len()
                        &&& 0 <= out.1@ <= toks.len()
                    },
                    Err(e) => rr matches Err(em) && em == e@,
                }
            }),
    {
        let ghost s = self.input();
        let ghost mut nn: int = n;
        proof {
            lemma_cursor(toks, nn, s, self.cur_pos());
        }
        let t2 = match self.next_token() {
            None => {
                return (Err(ExpressionParserError::UnexpectedEndOfExpression), Ghost(nn));
            },
            Some(Err(e)) => {
                return (Err(ExpressionParserError::TokenizerError(e)), Ghost(nn));
            },
            Some(Ok(t2)) => t2,
        };
        proof {
            nn = nn + 1;
        }
        if !matches!(t2.data, Token::Lt) {
            return (
                (Err(ExpressionParserError::UnexpectedTokenReason { got: t2, expected: "Token::Lt" })),
                Ghost(nn),
            );
        }
        proof {
            lemma_cursor(toks, nn, s, self.cur_pos());
        }
        let t3 = match self.next_token() {
            None => {
                return (Err(ExpressionParserError::UnexpectedEndOfExpression), Ghost(nn));
            },
            Some(Err(e)) => {
                return (Err(ExpressionParserError::TokenizerError(e)), Ghost(nn));
            },
            Some(Ok(t3)) => t3,
        };
        proof {
            nn = nn + 1;
        }
        let id = match t3.data {
            Token::Ident(id) => id,
            _ => {
                return (
                    Err(
                        ExpressionParserError::UnexpectedKnownToken {
                            expected: Token::Ident(String::new()),
                            got: t3,
                        },
                    ),
                    Ghost(nn),
                );
            },
        };
        proof {
            lemma_cursor(toks, nn, s, self.cur_pos());
        }
        let t4 = match self.next_token() {
            None => {
                return (Err(ExpressionParserError::UnexpectedEndOfExpression), Ghost(nn));
            },
            Some(Err(e)) => {
                return (Err(ExpressionParserError::TokenizerError(e)), Ghost(nn));
            },
            Some(Ok(t4)) => t4,
        };
        proof {
            nn = nn + 1;
        }
        if !matches!(t4.data, Token::Lt) {
            return (
                (Err(ExpressionParserError::UnexpectedTokenReason { got: t4, expected: "Token::Lt" })),
                Ghost(nn),
            );
        }
        proof {
            lemma_cursor(toks, nn, s, self.cur_pos());
        }
        let t5 = match self.next_token() {
            None => {
                return (Err(ExpressionParserError::UnexpectedEndOfExpression), Ghost(nn));
            },
            Some(Err(e)) => {
                return (Err(ExpressionParserError::TokenizerError(e)), Ghost(nn));
            },
            Some(Ok(t5)) => t5,
        };
        proof {
            nn = nn + 1;
        }
        let high = match t5.data {
            Token::Value(high) => high,
            _ => {
                return (
                    Err(
                        ExpressionParserError::UnexpectedKnownToken {
                            expected: Token::Value(JsonValue::Null),
                            got: t5,
                        },
                    ),
                    Ghost(nn),
                );
            },
        };
        match visitor.between(low, id, high) {
            Ok(t) => (Ok(t), Ghost(nn)),
            Err(e) => (Err(ExpressionParserError::VisitorError(e)), Ghost(nn)),
        }
    }

    /// A plain comparison, after its identifier was consumed: read an
    /// operator and a literal and call the matching visitor method.
    fn parse_compare<T: View, E: View, V: Visitor<T, E>>(
        &mut self,
        visitor: &mut V,
        id: String,
        Ghost(toks): Ghost<Seq<Result<TokFullM, LexErrM>>>,
        Ghost(n): Ghost<int>,
    ) -> (out: (Result<T, ExpressionParserError<E>>, Ghost<int>))
        requires
            old(self).wf(),
            0 <= n <= toks.len(),
            toks.skip(n) == lex_all(old(self).input(), old(self).cur_pos()),
            0 <= old(self).cur_pos() <= old(self).input().len(),
        ensures
            final(self).wf(),
            final(self).input() == old(self).input(),
            ({
                let (m2, rr) = compare_step::<T, E, V>(toks, old(visitor)@, n, id@);
                &&& final(visitor)@ == m2
                &&& match out.0 {
                    Ok(t) => {
                        &&& rr matches Ok(pr) && pr.0 == t@ && pr.1 == out.1@
                        &&& toks.skip(out.1@) == lex_all(final(self).input(), final(self).cur_pos())
                        &&& 0 <= final(self).cur_pos() <= final(self).input().len()
                        &&& 0 <= out.1@ <= toks.len()
                    },
                    Err(e) => rr matches Err(em) && em == e@,
                }
            }),
    {
        let ghost s = self.input();
        let ghost mut nn: int = n;
        proof {
            lemma_cursor(toks, nn, s, self.cur_pos());
        }
        let op = match self.next_token() {
            None => {
                return (Err(ExpressionParserError::UnexpectedEndOfExpression), Ghost(nn));
            },
            Some(Err(e)) => {
                return (Err(ExpressionParserError::TokenizerError(e)), Ghost(nn));
            },
            Some(Ok(op)) => op,
        };
        proof {
            nn = nn + 1;
        }
        let is_eq = matches!(op.data, Token::Eq);
        let is_gt = matches!(op.data, Token::Gt);
        let is_lt = matches!(op.data, Token::Lt);
        let is_colon = matches!(op.data, Token::Colon);
        if !(is_eq || is_gt || is_lt || is_colon) {
            return (
                Err(
                    ExpressionParserError::UnexpectedTokenReason {
                        got: op,
                        expected: "Token::Eq | Token::Gt | Token::Lt | Token::Colon",
                    },
                ),
                Ghost(nn),
            );
        }
        proof {
            lemma_cursor(toks, nn, s, self.cur_pos());
        }
        let vt = match self.next_token() {
            None => {
                return (Err(ExpressionParserError::UnexpectedEndOfExpression), Ghost(nn));
            },
            Some(Err(e)) => {
                return (Err(ExpressionParserError::TokenizerError(e)), Ghost(nn));
            },
            Some(Ok(vt)) => vt,
        };
        proof {
            nn = nn + 1;
        }
        let val = match vt.data {
            Token::Value(val) => val,
            _ => {
                return (
                    Err(
                        ExpressionParserError::UnexpectedKnownToken {
                            expected: Token::Value(JsonValue::Null),
                            got: vt,
                        },
                    ),
                    Ghost(nn),
                );
            },
        };
        let res = if is_eq {
            visitor.eq(id, val)
        } else if is_gt {
            visitor.gt(id, val)
        } else if is_lt {
            visitor.lt(id, val)
        } else {
            visitor.colon(id, val)
        };
        match res {
            Ok(t) => (Ok(t), Ghost(nn)),
            Err(e) => (Err(ExpressionParserError::VisitorError(e)), Ghost(nn)),
        }
    }

    /// Run one parse, driving the visitor. The result, the visitor's final
    /// state, and every error are exactly what `spec_parse` gives for the
    /// source text from the current position and the visitor's start state.
    #[verifier::loop_isolation(false)]
    #[verifier::rlimit(100)]
    pub fn parse<T: View, E: View, V: Visitor<T, E>>(&mut self, visitor: &mut V) -> (r: Result<
        T,
        ExpressionParserError<E>,
    >)
        requires
            old(self).wf(),
        ensures
            final(self).wf(),
            final(self).input() == old(self).input(),
            ({
                let (m2, rr) = spec_parse::<T, E, V>(
                    old(self).input(),
                    old(self).cur_pos(),
                    old(visitor)@,
                );
                final(visitor)@ == m2 && res_view(r) == rr
            }),
    {
        proof {
            self.tokenizer.lemma_wf_bounds();
        }
        let ghost s = self.input();
        let ghost toks = lex_all(s, self.cur_pos());
        let ghost m0 = visitor@;
        let ghost target = interp::<T, E, V>(
            toks,
            seq![ParseState::OrCalled],
            Seq::empty(),
            m0,
            0,
        );
        let ghost mut n: int = 0;
        let mut states: Vec<ParseState> = Vec::new();
        states.push(ParseState::OrCalled);
        let mut vars: Vec<T> = Vec::new();
        proof {
            assert(toks.skip(0) =~= toks);
            assert(states@ =~= seq![ParseState::OrCalled]);
            assert(seq_views(vars@) =~= Seq::<T::V>::empty());
        }
        loop
            invariant
                self.wf(),
                self.input() == s,
                0 <= n <= toks.len(),
                toks.skip(n) == lex_all(s, self.cur_pos()),
                0 <= self.cur_pos() <= s.len(),
                interp::<T, E, V>(toks, states@, seq_views(vars@), visitor@, n) == target,
            decreases toks.len() - n, stack_weight(states@),
        {
            let ghost inv_states = states@;
            let ghost entry_vars = vars@;
            let ghost inv_m = visitor@;
            let st = match states.pop() {
                Some(st) => st,
                None => { break; },
            };
            let ghost rest = states@;
            proof {
                assert(inv_states.drop_last() =~= rest);
                assert(inv_states.last() == st);
            }
            match st {
                ParseState::OrCalled => {
                    states.push(ParseState::OrReturned1);
                    states.push(ParseState::AndCalled);
                    proof {
                        lemma_weight_push(rest, ParseState::OrReturned1);
                        lemma_weight_push(rest.push(ParseState::OrReturned1), ParseState::AndCalled);
                    }
                },
                ParseState::AndCalled => {
                    states.push(ParseState::AndReturned1);
                    states.push(ParseState::BottomCalled);
                    proof {
                        lemma_weight_push(rest, ParseState::AndReturned1);
                        lemma_weight_push(
                            rest.push(ParseState::AndReturned1),
                            ParseState::BottomCalled,
                        );
                    }
                },
                ParseState::OrReturned1 => {
                    self.ensure_peeked();
                    proof {
                        lemma_cursor(toks, n, s, self.cur_pos());
                    }
                    if self.peeked_is_lex_err() {
                        match self.next_token() {
                            Some(Err(e)) => {
                                return Err(ExpressionParserError::TokenizerError(e));
                            },
                            _ => {
                                proof {
                                    assert(false);
                                }
                                return Err(ExpressionParserError::InvalidParsingStack);
                            },
                        }
                    } else if self.peeked_is_or() {
                        let consumed = self.next_token();
                        proof {
                            n = n + 1;
                        }
                        states.push(ParseState::OrReturned2);
                        states.push(ParseState::AndCalled);
                    } else {
                        // no `|`: the Or walk is complete
                    }
                },
                ParseState::AndReturned1 => {
                    self.ensure_peeked();
                    proof {
                        lemma_cursor(toks, n, s, self.cur_pos());
                    }
                    if self.peeked_is_lex_err() {
                        match self.next_token() {
                            Some(Err(e)) => {
                                return Err(ExpressionParserError::TokenizerError(e));
                            },
                            _ => {
                                proof {
                                    assert(false);
                                }
                                return Err(ExpressionParserError::InvalidParsingStack);
                            },
                        }
                    } else if self.peeked_is_and() {
                        let consumed = self.next_token();
                        proof {
                            n = n + 1;
                        }
                        states.push(ParseState::AndReturned2);
                        states.push(ParseState::BottomCalled);
                    } else {
                        // no `&`: the And walk is complete
                    }
                },
                ParseState::OrReturned2 => {
                    if vars.len() < 2 {
                        return Err(ExpressionParserError::InvalidParsingStack);
                    }
                    let rs = match vars.pop() {
                        Some(v) => v,
                        None => {
                            proof {
                                assert(false);
                            }
                            return Err(ExpressionParserError::InvalidParsingStack);
                        },
                    };
                    let ls = match vars.pop() {
                        Some(v) => v,
                        None => {
                            proof {
                                assert(false);
                            }
                            return Err(ExpressionParserError::InvalidParsingStack);
                        },
                    };
                    match visitor.or(ls, rs) {
                        Ok(t) => {
                            vars.push(t);
                            states.push(ParseState::OrReturned1);
                            proof {
                                lemma_weight_push(rest, ParseState::OrReturned1);
                                lemma_seq_views_drop(entry_vars);
                                lemma_seq_views_drop(entry_vars.drop_last());
                                lemma_seq_views_push(entry_vars.drop_last().drop_last(), t);
                            }
                        },
                        Err(e) => {
                            return Err(ExpressionParserError::VisitorError(e));
                        },
                    }
                },
                ParseState::AndReturned2 => {
                    if vars.len() < 2 {
                        return Err(ExpressionParserError::InvalidParsingStack);
                    }
                    let rs = match vars.pop() {
                        Some(v) => v,
                        None => {
                            proof {
                                assert(false);
                            }
                            return Err(ExpressionParserError::InvalidParsingStack);
                        },
                    };
                    let ls = match vars.pop() {
                        Some(v) => v,
                        None => {
                            proof {
                                assert(false);
                            }
                            return Err(ExpressionParserError::InvalidParsingStack);
                        },
                    };
                    match visitor.and(ls, rs) {
                        Ok(t) => {
                            vars.push(t);
                            states.push(ParseState::AndReturned1);
                            proof {
                                lemma_weight_push(rest, ParseState::AndReturned1);
                                lemma_seq_views_drop(entry_vars);
                                lemma_seq_views_drop(entry_vars.drop_last());
                                lemma_seq_views_push(entry_vars.drop_last().drop_last(), t);
                            }
                        },
                        Err(e) => {
                            return Err(ExpressionParserError::VisitorError(e));
                        },
                    }
                },
                ParseState::BottomReturn2 => {
                    let expr = match vars.pop() {
                        Some(v) => v,
                        None => {
                            return Err(ExpressionParserError::InvalidParsingStack);
                        },
                    };
                    match visitor.not(expr) {
                        Ok(t) => {
                            vars.push(t);
                            proof {
                                lemma_seq_views_drop(entry_vars);
                                lemma_seq_views_push(entry_vars.drop_last(), t);
                            }
                        },
                        Err(e) => {
                            return Err(ExpressionParserError::VisitorError(e));
                        },
                    }
                },
                ParseState::BottomReturn1 => {
                    proof {
                        lemma_cursor(toks, n, s, self.cur_pos());
                    }
                    match self.next_token() {
                        None => {
                            return Err(ExpressionParserError::UnexpectedEndOfExpression);
                        },
                        Some(Err(e)) => {
                            return Err(ExpressionParserError::TokenizerError(e));
                        },
                        Some(Ok(tf)) => {
                            proof {
                                n = n + 1;
                            }
                            if matches!(tf.data, Token::RPar) {
                                // the group closed
                            } else {
                                return Err(
                                    ExpressionParserError::UnexpectedTokenReason {
                                        got: tf,
                                        expected: "Token::RPar",
                                    },
                                );
                            }
                        },
                    }
                },
                ParseState::BottomCalled => {
                    proof {
                        lemma_cursor(toks, n, s, self.cur_pos());
                    }
                    match self.next_token() {
                        None => {
                            return Err(ExpressionParserError::UnexpectedEndOfExpression);
                        },
                        Some(Err(e)) => {
                            return Err(ExpressionParserError::TokenizerError(e));
                        },
                        Some(Ok(tok)) => {
                            proof {
                                n = n + 1;
                            }
                            match tok.data {
                                Token::LPar => {
                                    states.push(ParseState::BottomReturn1);
                                    states.push(ParseState::OrCalled);
                                    proof {
                                        lemma_weight_push(rest, ParseState::BottomReturn1);
                                        lemma_weight_push(
                                            rest.push(ParseState::BottomReturn1),
                                            ParseState::OrCalled,
                                        );
                                    }
                                },
                                Token::Bang => {
                                    states.push(ParseState::BottomReturn2);
                                    states.push(ParseState::BottomCalled);
                                    proof {
                                        lemma_weight_push(rest, ParseState::BottomReturn2);
                                        lemma_weight_push(
                                            rest.push(ParseState::BottomReturn2),
                                            ParseState::BottomCalled,
                                        );
                                    }
                                },
                                Token::Value(low) => {
                                    let (res, n2) = self.parse_between(
                                        visitor,
                                        low,
                                        Ghost(toks),
                                        Ghost(n),
                                    );
                                    match res {
                                        Ok(t) => {
                                            vars.push(t);
                                            proof {
                                                n = n2@;
                                                lemma_seq_views_push(entry_vars, t);
                                            }
                                        },
                                        Err(e) => {
                                            return Err(e);
                                        },
                                    }
                                },
                                Token::Ident(id) => {
                                    let (res, n2) = self.parse_compare(
                                        visitor,
                                        id,
                                        Ghost(toks),
                                        Ghost(n),
                                    );
                                    match res {
                                        Ok(t) => {
                                            vars.push(t);
                                            proof {
                                                n = n2@;
                                                lemma_seq_views_push(entry_vars, t);
                                            }
                                        },
                                        Err(e) => {
                                            return Err(e);
                                        },
                                    }
                                },
                                _ => {
                                    return Err(
                                        ExpressionParserError::UnexpectedKnownToken {
                                            expected: Token::Ident(String::new()),
                                            got: tok,
                                        },
                                    );
                                },
                            }
                        },
                    }
                },
            }
        }
        match vars.pop() {
            None => Err(ExpressionParserError::InvalidParsingStack),
            Some(ret) => {
                if vars.len() > 0 {
                    Err(ExpressionParserError::InvalidParsingStack)
                } else {
                    Ok(ret)
                }
            },
        }
    }
}

} // verus!
