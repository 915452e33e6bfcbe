//! Laws of the tokenizer and parser: tokens tile the source up to skipped
//! whitespace, parsing is a function of the source and the visitor's start
//! state, and parenthesizing a complete expression changes nothing.

use vstd::prelude::*;
use vstd::pervasive::arbitrary;
use crate::chars::is_ws;
use crate::tokens::{TokFullM, LexErrM};
use crate::lex::{
    lex_from, lex_all, step_result, LexOut, lemma_lex_from_bounds, lemma_skip_ws_bounds, skip_ws,
};
use crate::parser::{
    Visitor, ParseState, interp, between_step, compare_step, lemma_between_step_bounds,
    lemma_compare_step_bounds, spec_parse, PErrM, stack_weight, lemma_weight_push,
};

verus! {

/// Whether every lexing step of a token sequence succeeded.
pub open spec fn all_ok(toks: Seq<Result<TokFullM, LexErrM>>) -> bool {
    forall|q: int| 0 <= q < toks.len() ==> toks[q] is Ok
}

/// The token of a successful lexing step.
pub open spec fn tok_of(r: Result<TokFullM, LexErrM>) -> TokFullM {
    match r {
        Ok(t) => t,
        Err(e) => arbitrary(),
    }
}

/// Whether source position `p` lies inside some token's span.
pub open spec fn covered(toks: Seq<Result<TokFullM, LexErrM>>, p: int) -> bool {
    exists|q: int|
        0 <= q < toks.len() && (#[trigger] tok_of(toks[q])).start.char <= p < tok_of(
            toks[q],
        ).end.char
}

/// Token spans in order: each span is non-empty, lies within `[lo, hi)`,
/// and ends no later than the next begins.
pub open spec fn spans_chained(toks: Seq<Result<TokFullM, LexErrM>>, lo: int, hi: int) -> bool {
    &&& forall|q: int|
        0 <= q < toks.len() ==> lo <= #[trigger] tok_of(toks[q]).start.char < tok_of(
            toks[q],
        ).end.char <= hi
    &&& forall|q: int|
        0 <= q < toks.len() - 1 ==> #[trigger] tok_of(toks[q]).end.char <= tok_of(
            toks[q + 1],
        ).start.char
}

proof fn lemma_spans_from(s: Seq<char>, i: int)
    requires
        0 <= i <= s.len(),
        all_ok(lex_all(s, i)),
    ensures
        spans_chained(lex_all(s, i), i, s.len() as int),
        forall|p: int| i <= p < s.len() && !covered(lex_all(s, i), p) ==> is_ws(#[trigger] s[p]),
    decreases s.len() - i,
{
    let toks = lex_all(s, i);
    lemma_lex_from_bounds(s, i);
    lemma_skip_ws_bounds(s, i);
    match lex_from(s, i) {
        None => {
            assert(toks =~= Seq::<Result<TokFullM, LexErrM>>::empty());
            assert(skip_ws(s, i) == s.len());
            assert forall|p: int| i <= p < s.len() && !covered(toks, p) implies is_ws(s[p]) by {
                assert(is_ws(s[p]));
            }
        },
        Some(lr) => {
            let rest = lex_all(s, lr.resume);
            assert(toks == seq![step_result(s, lr)] + rest);
            assert(toks[0] == step_result(s, lr));
            assert(toks[0] is Ok);
            let lt = match lr.out {
                LexOut::Tok(lt) => lt,
                LexOut::Fail(e) => {
                    assert(false);
                    arbitrary()
                },
            };
            let j = skip_ws(s, i);
            assert(lt.start == j && lt.start < lt.end && lt.end == lr.resume);
            assert forall|q: int| 0 <= q < rest.len() implies rest[q] is Ok by {
                assert(rest[q] == toks[q + 1]);
            }
            lemma_spans_from(s, lr.resume);
            // the head token's span, as the model records it
            assert(tok_of(toks[0]).start.char == lt.start && tok_of(toks[0]).end.char == lt.end);
            assert forall|q: int|
                0 <= q < toks.len() implies i <= #[trigger] tok_of(toks[q]).start.char < tok_of(
                toks[q],
            ).end.char <= s.len() by {
                if q > 0 {
                    assert(toks[q] == rest[q - 1]);
                }
            }
            assert forall|q: int|
                0 <= q < toks.len() - 1 implies #[trigger] tok_of(toks[q]).end.char <= tok_of(
                toks[q + 1],
            ).start.char by {
                if q == 0 {
                    if rest.len() > 0 {
                        assert(toks[1] == rest[0]);
                        assert(lr.resume <= tok_of(rest[0]).start.char);
                    }
                } else {
                    assert(toks[q] == rest[q - 1]);
                    assert(toks[q + 1] == rest[q]);
                }
            }
            assert forall|p: int| i <= p < s.len() && !covered(toks, p) implies is_ws(s[p]) by {
                if p < j {
                    assert(is_ws(s[p]));
                } else if p < lt.end {
                    // within the head token's span: p is covered
                    assert(tok_of(toks[0]).start.char <= p < tok_of(toks[0]).end.char);
                    assert(covered(toks, p));
                } else {
                    // beyond the head token: not covered by the rest either
                    assert(!covered(rest, p)) by {
                        if covered(rest, p) {
                            let q = choose|q: int|
                                0 <= q < rest.len() && (#[trigger] tok_of(rest[q])).start.char
                                    <= p < tok_of(rest[q]).end.char;
                            assert(toks[q + 1] == rest[q]);
                            assert(covered(toks, p));
                        }
                    }
                }
            }
        },
    }
}

/// Tokenizing reconstructs the source: when every lexing step of `s`
/// succeeds, the token spans are non-empty, ordered and non-overlapping,
/// and every character outside all spans is whitespace — so concatenating
/// the spans' text gives `s` with only the skipped whitespace removed.
pub proof fn lemma_spans_reconstruct(s: Seq<char>)
    requires
        all_ok(lex_all(s, 0)),
    ensures
        spans_chained(lex_all(s, 0), 0, s.len() as int),
        forall|p: int| 0 <= p < s.len() && !covered(lex_all(s, 0), p) ==> is_ws(#[trigger] s[p]),
{
    lemma_spans_from(s, 0);
}

/// Parsing is deterministic: the result and the visitor's final state are a
/// function of the source text, the start position and the visitor's start
/// state alone — two parses of equal inputs agree, with no hidden state.
pub proof fn lemma_parse_deterministic<T: View, E: View, V: Visitor<T, E>>(
    s1: Seq<char>,
    i1: int,
    m1: V::V,
    s2: Seq<char>,
    i2: int,
    m2: V::V,
)
    requires
        s1 == s2,
        i1 == i2,
        m1 == m2,
    ensures
        spec_parse::<T, E, V>(s1, i1, m1) == spec_parse::<T, E, V>(s2, i2, m2),
{
}

/// Machine runs compose: running with further continuations and values
/// below the current ones behaves as the plain run, and when that run's
/// state stack empties, the machine continues with what lay below. (A
/// corrupted-stack failure is excluded: with values below, the two runs
/// would pop different operands.)
pub proof fn lemma_interp_frame<T: View, E: View, V: Visitor<T, E>>(
    toks: Seq<Result<TokFullM, LexErrM>>,
    base: Seq<ParseState>,
    vars0: Seq<T::V>,
    states: Seq<ParseState>,
    vars: Seq<T::V>,
    m: V::V,
    i: int,
)
    requires
        0 <= i <= toks.len(),
        states.len() >= 1,
        !(interp::<T, E, V>(toks, states, vars, m, i).1 == Err::<(Seq<T::V>, int), PErrM<E::V>>(
            PErrM::InvalidParsingStack,
        )),
    ensures
        interp::<T, E, V>(toks, base + states, vars0 + vars, m, i) == ({
            let (m2, r2) = interp::<T, E, V>(toks, states, vars, m, i);
            match r2 {
                Err(e) => (m2, Err(e)),
                Ok(pr) => interp::<T, E, V>(toks, base, vars0 + pr.0, m2, pr.1),
            }
        }),
    decreases toks.len() - i, stack_weight(states), 0int,
{
    let st = states.last();
    let rest = states.drop_last();
    let estates = base + states;
    assert(estates.len() > 0);
    assert(estates.last() == st);
    assert(estates.drop_last() =~= base + rest);
    match st {
        ParseState::OrCalled => {
            let ns = rest.push(ParseState::OrReturned1).push(ParseState::AndCalled);
            assert(base + ns =~= (base + rest).push(ParseState::OrReturned1).push(
                ParseState::AndCalled,
            ));
            lemma_weight_push(rest, ParseState::OrReturned1);
            lemma_weight_push(rest.push(ParseState::OrReturned1), ParseState::AndCalled);
            lemma_interp_frame::<T, E, V>(toks, base, vars0, ns, vars, m, i);
        },
        ParseState::AndCalled => {
            let ns = rest.push(ParseState::AndReturned1).push(ParseState::BottomCalled);
            assert(base + ns =~= (base + rest).push(ParseState::AndReturned1).push(
                ParseState::BottomCalled,
            ));
            lemma_weight_push(rest, ParseState::AndReturned1);
            lemma_weight_push(rest.push(ParseState::AndReturned1), ParseState::BottomCalled);
            lemma_interp_frame::<T, E, V>(toks, base, vars0, ns, vars, m, i);
        },
        ParseState::OrReturned1 => {
            if i >= toks.len() {
                frame_pop_step::<T, E, V>(toks, base, vars0, rest, vars, m, i);
            } else {
                match toks[i] {
                    Err(e) => {
                    },
                    Ok(tf) => {
                        if tf.data is Or {
                            let ns = rest.push(ParseState::OrReturned2).push(ParseState::AndCalled);
                            assert(base + ns =~= (base + rest).push(ParseState::OrReturned2).push(
                                ParseState::AndCalled,
                            ));
                            lemma_interp_frame::<T, E, V>(toks, base, vars0, ns, vars, m, i + 1);
                        } else {
                            frame_pop_step::<T, E, V>(toks, base, vars0, rest, vars, m, i);
                        }
                    },
                }
            }
        },
        ParseState::AndReturned1 => {
            if i >= toks.len() {
                frame_pop_step::<T, E, V>(toks, base, vars0, rest, vars, m, i);
            } else {
                match toks[i] {
                    Err(e) => {
                    },
                    Ok(tf) => {
                        if tf.data is And {
                            let ns = rest.push(ParseState::AndReturned2).push(
                                ParseState::BottomCalled,
                            );
                            assert(base + ns =~= (base + rest).push(ParseState::AndReturned2).push(
                                ParseState::BottomCalled,
                            ));
                            lemma_interp_frame::<T, E, V>(toks, base, vars0, ns, vars, m, i + 1);
                        } else {
                            frame_pop_step::<T, E, V>(toks, base, vars0, rest, vars, m, i);
                        }
                    },
                }
            }
        },
        ParseState::OrReturned2 => {
            if vars.len() < 2 {
                assert(false);
            } else {
                assert((vars0 + vars).len() >= 2);
                assert((vars0 + vars)[(vars0 + vars).len() - 1] == vars[vars.len() - 1]);
                assert((vars0 + vars)[(vars0 + vars).len() - 2] == vars[vars.len() - 2]);
                let (m2, rr) = V::sp_or(m, vars[vars.len() - 2], vars[vars.len() - 1]);
                match rr {
                    Err(e) => {
                    },
                    Ok(t) => {
                        let ns = rest.push(ParseState::OrReturned1);
                        let nv = vars.drop_last().drop_last().push(t);
                        assert(base + ns =~= (base + rest).push(ParseState::OrReturned1));
                        assert(vars0 + nv =~= (vars0 + vars).drop_last().drop_last().push(t));
                        lemma_weight_push(rest, ParseState::OrReturned1);
                        lemma_interp_frame::<T, E, V>(toks, base, vars0, ns, nv, m2, i);
                    },
                }
            }
        },
        ParseState::AndReturned2 => {
            if vars.len() < 2 {
                assert(false);
            } else {
                assert((vars0 + vars).len() >= 2);
                assert((vars0 + vars)[(vars0 + vars).len() - 1] == vars[vars.len() - 1]);
                assert((vars0 + vars)[(vars0 + vars).len() - 2] == vars[vars.len() - 2]);
                let (m2, rr) = V::sp_and(m, vars[vars.len() - 2], vars[vars.len() - 1]);
                match rr {
                    Err(e) => {
                    },
                    Ok(t) => {
                        let ns = rest.push(ParseState::AndReturned1);
                        let nv = vars.drop_last().drop_last().push(t);
                        assert(base + ns =~= (base + rest).push(ParseState::AndReturned1));
                        assert(vars0 + nv =~= (vars0 + vars).drop_last().drop_last().push(t));
                        lemma_weight_push(rest, ParseState::AndReturned1);
                        lemma_interp_frame::<T, E, V>(toks, base, vars0, ns, nv, m2, i);
                    },
                }
            }
        },
        ParseState::BottomReturn2 => {
            if vars.len() < 1 {
                assert(false);
            } else {
                assert((vars0 + vars).len() >= 1);
                assert((vars0 + vars).last() == vars.last());
                let (m2, rr) = V::sp_not(m, vars.last());
                match rr {
                    Err(e) => {
                    },
                    Ok(t) => {
                        let nv = vars.drop_last().push(t);
                        assert(vars0 + nv =~= (vars0 + vars).drop_last().push(t));
                        frame_pop_vars_step::<T, E, V>(toks, base, vars0, rest, nv, m2, i);
                    },
                }
            }
        },
        ParseState::BottomReturn1 => {
            if i >= toks.len() {
            } else {
                match toks[i] {
                    Err(e) => {
                    },
                    Ok(tf) => {
                        if tf.data is RPar {
                            frame_pop_vars_step::<T, E, V>(toks, base, vars0, rest, vars, m, i + 1);
                        }
                    },
                }
            }
        },
        ParseState::BottomCalled => {
            if i >= toks.len() {
            } else {
                match toks[i] {
                    Err(e) => {
                    },
                    Ok(tf) => {
                        match tf.data {
                            crate::tokens::TokenM::LPar => {
                                let ns = rest.push(ParseState::BottomReturn1).push(
                                    ParseState::OrCalled,
                                );
                                assert(base + ns =~= (base + rest).push(
                                    ParseState::BottomReturn1,
                                ).push(ParseState::OrCalled));
                                lemma_interp_frame::<T, E, V>(
                                    toks,
                                    base,
                                    vars0,
                                    ns,
                                    vars,
                                    m,
                                    i + 1,
                                );
                            },
                            crate::tokens::TokenM::Bang => {
                                let ns = rest.push(ParseState::BottomReturn2).push(
                                    ParseState::BottomCalled,
                                );
                                assert(base + ns =~= (base + rest).push(
                                    ParseState::BottomReturn2,
                                ).push(ParseState::BottomCalled));
                                lemma_interp_frame::<T, E, V>(
                                    toks,
                                    base,
                                    vars0,
                                    ns,
                                    vars,
                                    m,
                                    i + 1,
                                );
                            },
                            crate::tokens::TokenM::Value(low) => {
                                let (m2, rr) = between_step::<T, E, V>(toks, m, i + 1, low);
                                lemma_between_step_bounds::<T, E, V>(toks, m, i + 1, low);
                                match rr {
                                    Err(e) => {
                                    },
                                    Ok(pr) => {
                                        let nv = vars.push(pr.0);
                                        assert(vars0 + nv =~= (vars0 + vars).push(pr.0));
                                        frame_pop_vars_step::<T, E, V>(
                                            toks,
                                            base,
                                            vars0,
                                            rest,
                                            nv,
                                            m2,
                                            pr.1,
                                        );
                                    },
                                }
                            },
                            crate::tokens::TokenM::Ident(id) => {
                                let (m2, rr) = compare_step::<T, E, V>(toks, m, i + 1, id);
                                lemma_compare_step_bounds::<T, E, V>(toks, m, i + 1, id);
                                match rr {
                                    Err(e) => {
                                    },
                                    Ok(pr) => {
                                        let nv = vars.push(pr.0);
                                        assert(vars0 + nv =~= (vars0 + vars).push(pr.0));
                                        frame_pop_vars_step::<T, E, V>(
                                            toks,
                                            base,
                                            vars0,
                                            rest,
                                            nv,
                                            m2,
                                            pr.1,
                                        );
                                    },
                                }
                            },
                            _ => {
                            },
                        }
                    },
                }
            }
        },
    }
}

/// One continuation was popped with nothing pushed: either the run is over
/// (the plain stack emptied) or both runs continue alike.
proof fn frame_pop_step<T: View, E: View, V: Visitor<T, E>>(
    toks: Seq<Result<TokFullM, LexErrM>>,
    base: Seq<ParseState>,
    vars0: Seq<T::V>,
    rest: Seq<ParseState>,
    vars: Seq<T::V>,
    m: V::V,
    i: int,
)
    requires
        0 <= i <= toks.len(),
        !(interp::<T, E, V>(toks, rest, vars, m, i).1 == Err::<(Seq<T::V>, int), PErrM<E::V>>(
            PErrM::InvalidParsingStack,
        )),
    ensures
        interp::<T, E, V>(toks, base + rest, vars0 + vars, m, i) == ({
            let (m2, r2) = interp::<T, E, V>(toks, rest, vars, m, i);
            match r2 {
                Err(e) => (m2, Err(e)),
                Ok(pr) => interp::<T, E, V>(toks, base, vars0 + pr.0, m2, pr.1),
            }
        }),
    decreases toks.len() - i, stack_weight(rest), 1int,
{
    if rest.len() == 0 {
        assert(base + rest =~= base);
        assert(interp::<T, E, V>(toks, rest, vars, m, i) == (m, Ok::<(Seq<T::V>, int), PErrM<E::V>>(
            (vars, i),
        )));
    } else {
        lemma_interp_frame::<T, E, V>(toks, base, vars0, rest, vars, m, i);
    }
}

/// As `frame_pop_step`, for steps that also replaced the value stack.
proof fn frame_pop_vars_step<T: View, E: View, V: Visitor<T, E>>(
    toks: Seq<Result<TokFullM, LexErrM>>,
    base: Seq<ParseState>,
    vars0: Seq<T::V>,
    rest: Seq<ParseState>,
    vars: Seq<T::V>,
    m: V::V,
    i: int,
)
    requires
        0 <= i <= toks.len(),
        !(interp::<T, E, V>(toks, rest, vars, m, i).1 == Err::<(Seq<T::V>, int), PErrM<E::V>>(
            PErrM::InvalidParsingStack,
        )),
    ensures
        interp::<T, E, V>(toks, base + rest, vars0 + vars, m, i) == ({
            let (m2, r2) = interp::<T, E, V>(toks, rest, vars, m, i);
            match r2 {
                Err(e) => (m2, Err(e)),
                Ok(pr) => interp::<T, E, V>(toks, base, vars0 + pr.0, m2, pr.1),
            }
        }),
    decreases toks.len() - i, stack_weight(rest), 1int,
{
    if rest.len() == 0 {
        assert(base + rest =~= base);
        assert(interp::<T, E, V>(toks, rest, vars, m, i) == (m, Ok::<(Seq<T::V>, int), PErrM<E::V>>(
            (vars, i),
        )));
    } else {
        lemma_interp_frame::<T, E, V>(toks, base, vars0, rest, vars, m, i);
    }
}

/// Parenthesizing is invisible: when the tokens after an opening
/// parenthesis parse completely up to a closing parenthesis, and no
/// conjunction follows it, parsing from the parenthesis yields the same
/// values and the same visitor state as parsing the inside alone, with the
/// closing parenthesis consumed. Applied repeatedly: any depth of
/// parenthesis nesting around a complete expression compiles to the result
/// of the expression itself.
pub proof fn lemma_paren_group<T: View, E: View, V: Visitor<T, E>>(
    toks: Seq<Result<TokFullM, LexErrM>>,
    m: V::V,
    i0: int,
)
    requires
        0 <= i0 < toks.len(),
        toks[i0] matches Ok(tf) && tf.data is LPar,
        ({
            let (m2, r2) = interp::<T, E, V>(
                toks,
                seq![ParseState::OrCalled],
                Seq::empty(),
                m,
                i0 + 1,
            );
            &&& r2 matches Ok(pr)
            &&& 0 <= pr.1 < toks.len()
            &&& toks[pr.1] matches Ok(tr) && tr.data is RPar
            &&& (pr.1 + 1 == toks.len() || (toks[pr.1 + 1] matches Ok(tn) && !(tn.data is Or) && !(
                tn.data is And)))
        }),
    ensures
        ({
            let (m2, r2) = interp::<T, E, V>(
                toks,
                seq![ParseState::OrCalled],
                Seq::empty(),
                m,
                i0 + 1,
            );
            match r2 {
                Ok(pr) => interp::<T, E, V>(toks, seq![ParseState::OrCalled], Seq::empty(), m, i0)
                    == (m2, Ok::<(Seq<T::V>, int), PErrM<E::V>>((pr.0, pr.1 + 1))),
                Err(e) => false,
            }
        }),
{
    let s0 = seq![ParseState::OrCalled];
    let empty_v = Seq::<T::V>::empty();
    let (m2, r2) = interp::<T, E, V>(toks, s0, empty_v, m, i0 + 1);
    let pr = r2->Ok_0;

    // Unfold the outer run to the point where the group begins.
    let s1 = seq![ParseState::OrReturned1, ParseState::AndCalled];
    let s2 = seq![ParseState::OrReturned1, ParseState::AndReturned1, ParseState::BottomCalled];
    let s3 = seq![
        ParseState::OrReturned1,
        ParseState::AndReturned1,
        ParseState::BottomReturn1,
        ParseState::OrCalled,
    ];
    assert(s0.drop_last() =~= Seq::<ParseState>::empty());
    assert(s1 =~= s0.drop_last().push(ParseState::OrReturned1).push(ParseState::AndCalled));
    assert(interp::<T, E, V>(toks, s0, empty_v, m, i0) == interp::<T, E, V>(
        toks,
        s1,
        empty_v,
        m,
        i0,
    ));
    assert(s2 =~= s1.drop_last().push(ParseState::AndReturned1).push(ParseState::BottomCalled));
    assert(interp::<T, E, V>(toks, s1, empty_v, m, i0) == interp::<T, E, V>(
        toks,
        s2,
        empty_v,
        m,
        i0,
    ));
    assert(s3 =~= s2.drop_last().push(ParseState::BottomReturn1).push(ParseState::OrCalled));
    assert(interp::<T, E, V>(toks, s2, empty_v, m, i0) == interp::<T, E, V>(
        toks,
        s3,
        empty_v,
        m,
        i0 + 1,
    ));

    // The inner run, framed under the waiting continuations.
    let base = seq![ParseState::OrReturned1, ParseState::AndReturned1, ParseState::BottomReturn1];
    assert(s3 =~= base + s0);
    assert(empty_v + empty_v =~= empty_v);
    lemma_interp_frame::<T, E, V>(toks, base, empty_v, s0, empty_v, m, i0 + 1);
    assert(empty_v + pr.0 =~= pr.0);
    assert(interp::<T, E, V>(toks, s3, empty_v, m, i0 + 1) == interp::<T, E, V>(
        toks,
        base,
        pr.0,
        m2,
        pr.1,
    ));

    // The closing parenthesis, then the pending `And` and `Or` walks find
    // no conjunction and finish.
    let s4 = seq![ParseState::OrReturned1, ParseState::AndReturned1];
    assert(base.last() == ParseState::BottomReturn1);
    assert(base.drop_last() =~= s4);
    assert(interp::<T, E, V>(toks, base, pr.0, m2, pr.1) == interp::<T, E, V>(
        toks,
        s4,
        pr.0,
        m2,
        pr.1 + 1,
    ));
    let s5 = seq![ParseState::OrReturned1];
    assert(s4.drop_last() =~= s5);
    assert(interp::<T, E, V>(toks, s4, pr.0, m2, pr.1 + 1) == interp::<T, E, V>(
        toks,
        s5,
        pr.0,
        m2,
        pr.1 + 1,
    ));
    assert(s5.drop_last() =~= Seq::<ParseState>::empty());
    assert(interp::<T, E, V>(toks, s5, pr.0, m2, pr.1 + 1) == interp::<T, E, V>(
        toks,
        Seq::<ParseState>::empty(),
        pr.0,
        m2,
        pr.1 + 1,
    ));
    assert(interp::<T, E, V>(toks, Seq::<ParseState>::empty(), pr.0, m2, pr.1 + 1) == (
        m2,
        Ok::<(Seq<T::V>, int), PErrM<E::V>>((pr.0, pr.1 + 1)),
    ));
}


/// How many values a state pops from the value stack when it runs.
pub open spec fn st_need(st: ParseState) -> int {
    match st {
        ParseState::OrReturned2 => 2,
        ParseState::AndReturned2 => 2,
        ParseState::BottomReturn2 => 1,
        ParseState::OrReturned1 => 1,
        ParseState::AndReturned1 => 1,
        _ => 0,
    }
}

/// The net number of values a state leaves on the value stack once it and
/// everything it pushes have fully run.
pub open spec fn st_prod(st: ParseState) -> int {
    match st {
        ParseState::OrCalled => 1,
        ParseState::AndCalled => 1,
        ParseState::BottomCalled => 1,
        ParseState::OrReturned2 => -1,
        ParseState::AndReturned2 => -1,
        _ => 0,
    }
}

/// The stack discipline of a parser configuration: each pending state finds
/// the values it pops, and a completed run leaves exactly one value.
pub open spec fn stack_ok(states: Seq<ParseState>, nv: int) -> bool
    decreases states.len(),
{
    if states.len() == 0 {
        nv == 1
    } else {
        &&& st_need(states.last()) <= nv
        &&& stack_ok(states.drop_last(), nv + st_prod(states.last()))
    }
}

/// A configuration that obeys the stack discipline never reports a
/// corrupted parsing stack, and a completed run ends with exactly one value.
pub proof fn lemma_stack_discipline<T: View, E: View, V: Visitor<T, E>>(
    toks: Seq<Result<TokFullM, LexErrM>>,
    states: Seq<ParseState>,
    vars: Seq<T::V>,
    m: V::V,
    i: int,
)
    requires
        0 <= i <= toks.len(),
        stack_ok(states, vars.len() as int),
    ensures
        ({
            let (m2, r) = interp::<T, E, V>(toks, states, vars, m, i);
            match r {
                Ok(pr) => pr.0.len() == 1,
                Err(e) => !(e == PErrM::<E::V>::InvalidParsingStack),
            }
        }),
    decreases toks.len() - i, stack_weight(states),
{
    if states.len() == 0 {
    } else {
        let st = states.last();
        let rest = states.drop_last();
        let nv = vars.len() as int;
        match st {
            ParseState::OrCalled => {
                let ns = rest.push(ParseState::OrReturned1).push(ParseState::AndCalled);
                assert(ns.drop_last() =~= rest.push(ParseState::OrReturned1));
                assert(ns.drop_last().drop_last() =~= rest);
                assert(stack_ok(rest, nv + 1));
                assert(stack_ok(rest.push(ParseState::OrReturned1), nv + 1));
                assert(stack_ok(ns, nv));
                lemma_weight_push(rest, ParseState::OrReturned1);
                lemma_weight_push(rest.push(ParseState::OrReturned1), ParseState::AndCalled);
                lemma_stack_discipline::<T, E, V>(toks, ns, vars, m, i);
            },
            ParseState::AndCalled => {
                let ns = rest.push(ParseState::AndReturned1).push(ParseState::BottomCalled);
                assert(ns.drop_last() =~= rest.push(ParseState::AndReturned1));
                assert(ns.drop_last().drop_last() =~= rest);
                assert(stack_ok(rest, nv + 1));
                assert(stack_ok(rest.push(ParseState::AndReturned1), nv + 1));
                assert(stack_ok(ns, nv));
                lemma_weight_push(rest, ParseState::AndReturned1);
                lemma_weight_push(rest.push(ParseState::AndReturned1), ParseState::BottomCalled);
                lemma_stack_discipline::<T, E, V>(toks, ns, vars, m, i);
            },
            ParseState::OrReturned1 => {
                if i >= toks.len() {
                    lemma_stack_discipline::<T, E, V>(toks, rest, vars, m, i);
                } else {
                    match toks[i] {
                        Err(e) => {
                        },
                        Ok(tf) => {
                            if tf.data is Or {
                                let ns = rest.push(ParseState::OrReturned2).push(
                                    ParseState::AndCalled,
                                );
                                assert(ns.drop_last() =~= rest.push(ParseState::OrReturned2));
                                assert(ns.drop_last().drop_last() =~= rest);
                                assert(stack_ok(rest, nv));
                                assert(stack_ok(rest.push(ParseState::OrReturned2), nv + 1));
                                assert(stack_ok(ns, nv));
                                lemma_stack_discipline::<T, E, V>(toks, ns, vars, m, i + 1);
                            } else {
                                lemma_stack_discipline::<T, E, V>(toks, rest, vars, m, i);
                            }
                        },
                    }
                }
            },
            ParseState::AndReturned1 => {
                if i >= toks.len() {
                    lemma_stack_discipline::<T, E, V>(toks, rest, vars, m, i);
                } else {
                    match toks[i] {
                        Err(e) => {
                        },
                        Ok(tf) => {
                            if tf.data is And {
                                let ns = rest.push(ParseState::AndReturned2).push(
                                    ParseState::BottomCalled,
                                );
                                assert(ns.drop_last() =~= rest.push(ParseState::AndReturned2));
                                assert(ns.drop_last().drop_last() =~= rest);
                                assert(stack_ok(rest, nv));
                                assert(stack_ok(rest.push(ParseState::AndReturned2), nv + 1));
                                assert(stack_ok(ns, nv));
                                lemma_stack_discipline::<T, E, V>(toks, ns, vars, m, i + 1);
                            } else {
                                lemma_stack_discipline::<T, E, V>(toks, rest, vars, m, i);
                            }
                        },
                    }
                }
            },
            ParseState::OrReturned2 => {
                assert(vars.len() >= 2);
                let (m2, rr) = V::sp_or(m, vars[vars.len() - 2], vars[vars.len() - 1]);
                match rr {
                    Err(e) => {
                    },
                    Ok(tv) => {
                        let ns = rest.push(ParseState::OrReturned1);
                        let nvars = vars.drop_last().drop_last().push(tv);
                        assert(ns.drop_last() =~= rest);
                        assert(stack_ok(rest, nv - 1));
                        assert(stack_ok(ns, nvars.len() as int));
                        lemma_weight_push(rest, ParseState::OrReturned1);
                        lemma_stack_discipline::<T, E, V>(toks, ns, nvars, m2, i);
                    },
                }
            },
            ParseState::AndReturned2 => {
                assert(vars.len() >= 2);
                let (m2, rr) = V::sp_and(m, vars[vars.len() - 2], vars[vars.len() - 1]);
                match rr {
                    Err(e) => {
                    },
                    Ok(tv) => {
                        let ns = rest.push(ParseState::AndReturned1);
                        let nvars = vars.drop_last().drop_last().push(tv);
                        assert(ns.drop_last() =~= rest);
                        assert(stack_ok(rest, nv - 1));
                        assert(stack_ok(ns, nvars.len() as int));
                        lemma_weight_push(rest, ParseState::AndReturned1);
                        lemma_stack_discipline::<T, E, V>(toks, ns, nvars, m2, i);
                    },
                }
            },
            ParseState::BottomReturn2 => {
                assert(vars.len() >= 1);
                let (m2, rr) = V::sp_not(m, vars.last());
                match rr {
                    Err(e) => {
                    },
                    Ok(tv) => {
                        let nvars = vars.drop_last().push(tv);
                        assert(stack_ok(rest, nvars.len() as int));
                        lemma_stack_discipline::<T, E, V>(toks, rest, nvars, m2, i);
                    },
                }
            },
            ParseState::BottomReturn1 => {
                if i < toks.len() {
                    match toks[i] {
                        Err(e) => {
                        },
                        Ok(tf) => {
                            if tf.data is RPar {
                                lemma_stack_discipline::<T, E, V>(toks, rest, vars, m, i + 1);
                            }
                        },
                    }
                }
            },
            ParseState::BottomCalled => {
                if i < toks.len() {
                    match toks[i] {
                        Err(e) => {
                        },
                        Ok(tf) => {
                            match tf.data {
                                crate::tokens::TokenM::LPar => {
                                    let ns = rest.push(ParseState::BottomReturn1).push(
                                        ParseState::OrCalled,
                                    );
                                    assert(ns.drop_last() =~= rest.push(ParseState::BottomReturn1));
                                    assert(ns.drop_last().drop_last() =~= rest);
                                    assert(stack_ok(rest, nv + 1));
                                    assert(stack_ok(rest.push(ParseState::BottomReturn1), nv + 1));
                                    assert(stack_ok(ns, nv));
                                    lemma_stack_discipline::<T, E, V>(toks, ns, vars, m, i + 1);
                                },
                                crate::tokens::TokenM::Bang => {
                                    let ns = rest.push(ParseState::BottomReturn2).push(
                                        ParseState::BottomCalled,
                                    );
                                    assert(ns.drop_last() =~= rest.push(ParseState::BottomReturn2));
                                    assert(ns.drop_last().drop_last() =~= rest);
                                    assert(stack_ok(rest, nv + 1));
                                    assert(stack_ok(rest.push(ParseState::BottomReturn2), nv + 1));
                                    assert(stack_ok(ns, nv));
                                    lemma_stack_discipline::<T, E, V>(toks, ns, vars, m, i + 1);
                                },
                                crate::tokens::TokenM::Value(low) => {
                                    let (m2, rr) = between_step::<T, E, V>(toks, m, i + 1, low);
                                    lemma_between_step_bounds::<T, E, V>(toks, m, i + 1, low);
                                    match rr {
                                        Err(e) => {
                                        },
                                        Ok(pr) => {
                                            let nvars = vars.push(pr.0);
                                            assert(stack_ok(rest, nvars.len() as int));
                                            lemma_stack_discipline::<T, E, V>(
                                                toks,
                                                rest,
                                                nvars,
                                                m2,
                                                pr.1,
                                            );
                                        },
                                    }
                                },
                                crate::tokens::TokenM::Ident(id) => {
                                    let (m2, rr) = compare_step::<T, E, V>(toks, m, i + 1, id);
                                    lemma_compare_step_bounds::<T, E, V>(toks, m, i + 1, id);
                                    match rr {
                                        Err(e) => {
                                        },
                                        Ok(pr) => {
                                            let nvars = vars.push(pr.0);
                                            assert(stack_ok(rest, nvars.len() as int));
                                            lemma_stack_discipline::<T, E, V>(
                                                toks,
                                                rest,
                                                nvars,
                                                m2,
                                                pr.1,
                                            );
                                        },
                                    }
                                },
                                _ => {
                                },
                            }
                        },
                    }
                }
            },
        }
    }
}

/// A parse from the initial configuration never reports a corrupted parsing
/// stack: that failure would signal a defect, not any property of the
/// input.
pub proof fn lemma_stack_corruption_unobservable<T: View, E: View, V: Visitor<T, E>>(
    s: Seq<char>,
    i: int,
    m: V::V,
)
    requires
        0 <= i <= s.len(),
    ensures
        !(spec_parse::<T, E, V>(s, i, m).1 == Err::<T::V, PErrM<E::V>>(
            PErrM::InvalidParsingStack,
        )),
{
    let s0 = seq![ParseState::OrCalled];
    assert(s0.drop_last() =~= Seq::<ParseState>::empty());
    assert(stack_ok(Seq::<ParseState>::empty(), 1));
    assert(stack_ok(s0, 0));
    lemma_stack_discipline::<T, E, V>(lex_all(s, i), s0, Seq::empty(), m, 0);
}


/// Any depth of parenthesis nesting is invisible: when the tokens are `d`
/// opening parentheses, a complete expression, and `d` closing parentheses,
/// parsing the whole yields exactly the values and visitor state of parsing
/// the expression alone.
pub proof fn lemma_paren_nesting<T: View, E: View, V: Visitor<T, E>>(
    toks: Seq<Result<TokFullM, LexErrM>>,
    m: V::V,
    d: int,
)
    requires
        0 <= d,
        2 * d <= toks.len(),
        forall|q: int|
            0 <= q < d ==> ((#[trigger] toks[q]) matches Ok(tf) && tf.data is LPar),
        forall|q: int|
            toks.len() - d <= q < toks.len() ==> ((#[trigger] toks[q]) matches Ok(tf)
                && tf.data is RPar),
        ({
            let (m2, r2) = interp::<T, E, V>(toks, seq![ParseState::OrCalled], Seq::empty(), m, d);
            r2 matches Ok(pr) && pr.1 == toks.len() - d
        }),
    ensures
        ({
            let (m2, r2) = interp::<T, E, V>(toks, seq![ParseState::OrCalled], Seq::empty(), m, d);
            match r2 {
                Ok(pr) => interp::<T, E, V>(toks, seq![ParseState::OrCalled], Seq::empty(), m, 0)
                    == (m2, Ok::<(Seq<T::V>, int), PErrM<E::V>>((pr.0, toks.len() as int))),
                Err(e) => false,
            }
        }),
    decreases d,
{
    let s0 = seq![ParseState::OrCalled];
    let empty_v = Seq::<T::V>::empty();
    let (m2, r2) = interp::<T, E, V>(toks, s0, empty_v, m, d);
    let pr = r2->Ok_0;
    if d == 0 {
    } else {
        lemma_paren_group::<T, E, V>(toks, m, d - 1);
        let (m3, r3) = interp::<T, E, V>(toks, s0, empty_v, m, d - 1);
        assert(r3 == Ok::<(Seq<T::V>, int), PErrM<E::V>>((pr.0, toks.len() - d + 1)));
        assert(m3 == m2);
        lemma_paren_nesting::<T, E, V>(toks, m, d - 1);
    }
}
} // verus!
