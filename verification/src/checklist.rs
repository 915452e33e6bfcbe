//! Quality-check answers: one answer per question, a fixed pair of answers
//! per checklist entry, and the single-character code each answer is stored
//! as.

use vstd::prelude::*;
use std::collections::HashMap;
use crate::chars::chars_string;

verus! {

/// One answer to a quality-check question.
#[derive(Debug, Hash, Clone, Copy, PartialEq, Eq, Structural)]
pub enum QuestionAnswer {
    Incomplete,
    Pass,
    Fail,
    NA,
}

/// A rejected answer code.
#[derive(Debug, Clone, Copy, PartialEq, Eq, Structural)]
pub enum QuestionAnswerError {
    InvalidChar(char),
}

/// The stored code of an answer.
pub open spec fn answer_char(a: QuestionAnswer) -> char {
    match a {
        QuestionAnswer::Incomplete => 'i',
        QuestionAnswer::Pass => 'p',
        QuestionAnswer::Fail => 'f',
        QuestionAnswer::NA => 'n',
    }
}

/// The answer a code denotes: the four codes, in either case.
pub open spec fn answer_of_char(c: char) -> Option<QuestionAnswer> {
    if c == 'i' || c == 'I' {
        Some(QuestionAnswer::Incomplete)
    } else if c == 'p' || c == 'P' {
        Some(QuestionAnswer::Pass)
    } else if c == 'f' || c == 'F' {
        Some(QuestionAnswer::Fail)
    } else if c == 'n' || c == 'N' {
        Some(QuestionAnswer::NA)
    } else {
        None
    }
}

impl QuestionAnswer {
    /// The lower-case code this answer is stored as.
    pub fn as_char(&self) -> (c: char)
        ensures
            c == answer_char(*self),
    {
        match self {
            QuestionAnswer::Incomplete => 'i',
            QuestionAnswer::Pass => 'p',
            QuestionAnswer::Fail => 'f',
            QuestionAnswer::NA => 'n',
        }
    }

    /// The answer a code denotes; other characters are rejected.
    pub fn from_char(c: char) -> (r: Result<QuestionAnswer, QuestionAnswerError>)
        ensures
            match r {
                Ok(a) => answer_of_char(c) == Some(a),
                Err(e) => answer_of_char(c) is None && e == QuestionAnswerError::InvalidChar(c),
            },
    {
        if c == 'i' || c == 'I' {
            Ok(QuestionAnswer::Incomplete)
        } else if c == 'p' || c == 'P' {
            Ok(QuestionAnswer::Pass)
        } else if c == 'f' || c == 'F' {
            Ok(QuestionAnswer::Fail)
        } else if c == 'n' || c == 'N' {
            Ok(QuestionAnswer::NA)
        } else {
            Err(QuestionAnswerError::InvalidChar(c))
        }
    }
}

/// The two answers recorded for one checklist entry.
#[derive(Debug, Hash, Clone, Copy, PartialEq, Eq)]
pub struct QuestionAnswers(pub [QuestionAnswer; 2]);

impl QuestionAnswers {
    /// The two-character code the pair is stored as.
    pub fn encode(&self) -> (r: String)
        ensures
            r@ == seq![answer_char(self.0[0]), answer_char(self.0[1])],
    {
        let mut v: Vec<char> = Vec::new();
        v.push(self.0[0].as_char());
        v.push(self.0[1].as_char());
        proof {
            assert(v@ =~= seq![answer_char(self.0[0]), answer_char(self.0[1])]);
        }
        chars_string(v.as_slice())
    }

    /// The pair a two-character code denotes; either bad code is rejected.
    pub fn from_chars(a: char, b: char) -> (r: Result<QuestionAnswers, QuestionAnswerError>)
        ensures
            match r {
                Ok(q) => answer_of_char(a) == Some(q.0[0]) && answer_of_char(b) == Some(q.0[1]),
                Err(e) => answer_of_char(a) is None || answer_of_char(b) is None,
            },
    {
        let qa = QuestionAnswer::from_char(a)?;
        let qb = QuestionAnswer::from_char(b)?;
        Ok(QuestionAnswers([qa, qb]))
    }
}

/// A checklist: the recorded answer pair for each named check.
#[derive(Debug)]
pub struct QCChecklist(pub HashMap<String, QuestionAnswers>);

impl QCChecklist {
    /// An empty checklist.
    pub fn new() -> (r: Self)
        ensures
            r.0@ == Map::<String, QuestionAnswers>::empty(),
    {
        QCChecklist(HashMap::new())
    }
}


/// A rejected checklist text.
#[derive(Debug, Clone, Copy, PartialEq, Eq, Structural)]
pub enum ChecklistParseError {
    /// A non-empty entry holds no `:`.
    MissingColon,
    /// The answer part of an entry is not exactly two characters.
    InvalidAnswerLength,
    /// An answer character is not one of the codes.
    InvalidAnswer(char),
}

/// The end of the entry that starts at `i`: the next `,` or the end of the
/// text.
pub open spec fn entry_end(s: Seq<char>, i: int) -> int
    decreases s.len() - i,
{
    if 0 <= i < s.len() && s[i] != ',' {
        entry_end(s, i + 1)
    } else {
        i
    }
}

/// The first `:` at or after `i`, before `end`.
pub open spec fn colon_at(s: Seq<char>, i: int, end: int) -> Option<int>
    decreases end - i,
{
    if i < end && 0 <= i < s.len() {
        if s[i] == ':' {
            Some(i)
        } else {
            colon_at(s, i + 1, end)
        }
    } else {
        None
    }
}

/// One parsed entry, or what is wrong with it. The entry spans `[i, end)`;
/// its key runs to the first `:`, and exactly two answer codes follow.
pub open spec fn parse_entry(s: Seq<char>, i: int, end: int) -> Result<
    (Seq<char>, QuestionAnswers),
    ChecklistParseError,
> {
    match colon_at(s, i, end) {
        None => Err(ChecklistParseError::MissingColon),
        Some(c) => {
            if end - (c + 1) != 2 {
                Err(ChecklistParseError::InvalidAnswerLength)
            } else {
                match answer_of_char(s[c + 1]) {
                    None => Err(ChecklistParseError::InvalidAnswer(s[c + 1])),
                    Some(a) => match answer_of_char(s[c + 2]) {
                        None => Err(ChecklistParseError::InvalidAnswer(s[c + 2])),
                        Some(b) => Ok((s.subrange(i, c), QuestionAnswers([a, b]))),
                    },
                }
            }
        },
    }
}

/// The checklist a stored text denotes: `,`-separated `key:xy` entries,
/// empty entries skipped, rejected at the first malformed entry.
pub open spec fn parse_checklist_spec(s: Seq<char>, i: int) -> Result<
    Seq<(Seq<char>, QuestionAnswers)>,
    ChecklistParseError,
>
    decreases s.len() - i,
    when 0 <= i <= s.len()
{
    if i >= s.len() {
        Ok(Seq::empty())
    } else if s[i] == ',' {
        parse_checklist_spec(s, i + 1)
    } else {
        let end = entry_end(s, i);
        proof {
            lemma_entry_end_bounds(s, i);
        }
        match parse_entry(s, i, end) {
            Err(e) => Err(e),
            Ok(pair) => match parse_checklist_spec(s, end) {
                Err(e) => Err(e),
                Ok(rest) => Ok(seq![pair] + rest),
            },
        }
    }
}

pub proof fn lemma_entry_end_bounds(s: Seq<char>, i: int)
    requires
        0 <= i <= s.len(),
    ensures
        i <= entry_end(s, i) <= s.len(),
        forall|p: int| i <= p < entry_end(s, i) ==> s[p] != ',',
        entry_end(s, i) < s.len() ==> s[entry_end(s, i)] == ',',
    decreases s.len() - i,
{
    if i < s.len() && s[i] != ',' {
        lemma_entry_end_bounds(s, i + 1);
    }
}

fn entry_end_exec(chars: &Vec<char>, i: usize) -> (e: usize)
    requires
        i <= chars@.len(),
    ensures
        e == entry_end(chars@, i as int),
        i <= e <= chars@.len(),
    decreases chars@.len() - i,
{
    if i < chars.len() && chars[i] != ',' {
        entry_end_exec(chars, i + 1)
    } else {
        i
    }
}

fn colon_at_exec(chars: &Vec<char>, i: usize, end: usize) -> (r: Option<usize>)
    requires
        i <= end <= chars@.len(),
    ensures
        match r {
            Some(c) => colon_at(chars@, i as int, end as int) == Some(c as int) && i <= c < end,
            None => colon_at(chars@, i as int, end as int) is None,
        },
    decreases end - i,
{
    if i < end {
        if chars[i] == ':' {
            Some(i)
        } else {
            colon_at_exec(chars, i + 1, end)
        }
    } else {
        None
    }
}

/// The models of parsed entries: each key by its characters.
pub open spec fn pairs_view(v: Seq<(String, QuestionAnswers)>) -> Seq<(Seq<char>, QuestionAnswers)> {
    Seq::new(v.len(), |q: int| (v[q].0@, v[q].1))
}

/// Parses a stored checklist text into its entries, in order. Exactly the
/// texts the model accepts come back `Ok`, with exactly its entries.
#[verifier::loop_isolation(false)]
pub fn parse_checklist(text: &str) -> (r: Result<
    Vec<(String, QuestionAnswers)>,
    ChecklistParseError,
>)
    ensures
        match r {
            Ok(v) => parse_checklist_spec(text@, 0) == Ok::<
                Seq<(Seq<char>, QuestionAnswers)>,
                ChecklistParseError,
            >(pairs_view(v@)),
            Err(e) => parse_checklist_spec(text@, 0) == Err::<
                Seq<(Seq<char>, QuestionAnswers)>,
                ChecklistParseError,
            >(e),
        },
{
    let chars = crate::chars::str_chars(text);
    let ghost s = chars@;
    let ghost done = parse_checklist_spec(s, 0);
    let mut out: Vec<(String, QuestionAnswers)> = Vec::new();
    let mut i: usize = 0;
    let n = chars.len();
    proof {
        assert(pairs_view(out@) =~= Seq::<(Seq<char>, QuestionAnswers)>::empty());
    }
    loop
        invariant
            i <= n,
            ({
                match parse_checklist_spec(s, i as int) {
                    Err(e) => done == Err::<Seq<(Seq<char>, QuestionAnswers)>,
                        ChecklistParseError,
                    >(e),
                    Ok(em) => done == Ok::<Seq<(Seq<char>, QuestionAnswers)>,
                        ChecklistParseError,
                    >(pairs_view(out@) + em),
                }
            }),
        decreases n - i,
    {
        if i >= n {
            break;
        }
        if chars[i] == ',' {
            i = i + 1;
            continue;
        }
        let end = entry_end_exec(&chars, i);
        proof {
            lemma_entry_end_bounds(s, i as int);
        }
        let c = match colon_at_exec(&chars, i, end) {
            None => {
                return Err(ChecklistParseError::MissingColon);
            },
            Some(c) => c,
        };
        if end - (c + 1) != 2 {
            return Err(ChecklistParseError::InvalidAnswerLength);
        }
        let a = match QuestionAnswer::from_char(chars[c + 1]) {
            Ok(a) => a,
            Err(u) => {
                return Err(ChecklistParseError::InvalidAnswer(chars[c + 1]));
            },
        };
        let b = match QuestionAnswer::from_char(chars[c + 2]) {
            Ok(b) => b,
            Err(u) => {
                return Err(ChecklistParseError::InvalidAnswer(chars[c + 2]));
            },
        };
        let key_chars = crate::chars::copy_chars(&chars, i, c);
        let key = chars_string(key_chars.as_slice());
        let ghost pair_m = (s.subrange(i as int, c as int), QuestionAnswers([a, b]));
        let ghost old_out = out@;
        out.push((key, QuestionAnswers([a, b])));
        proof {
            assert(parse_entry(s, i as int, end as int) == Ok::<
                (Seq<char>, QuestionAnswers),
                ChecklistParseError,
            >(pair_m));
            assert(pairs_view(out@) =~= pairs_view(old_out).push(pair_m));
            match parse_checklist_spec(s, end as int) {
                Err(e) => {
                },
                Ok(rest) => {
                    assert(parse_checklist_spec(s, i as int) == Ok::<
                        Seq<(Seq<char>, QuestionAnswers)>,
                        ChecklistParseError,
                    >(seq![pair_m] + rest));
                    assert(pairs_view(old_out) + (seq![pair_m] + rest) =~= pairs_view(out@)
                        + rest);
                },
            }
        }
        i = end;
    }
    proof {
        assert(parse_checklist_spec(s, i as int) == Ok::<
            Seq<(Seq<char>, QuestionAnswers)>,
            ChecklistParseError,
        >(Seq::empty()));
        assert(pairs_view(out@) + Seq::<(Seq<char>, QuestionAnswers)>::empty() =~= pairs_view(
            out@,
        ));
    }
    Ok(out)
}

/// The stored text of a checklist's entries: each key, a `:`, the two
/// answer codes, and a trailing `,`.
pub open spec fn encode_checklist_spec(entries: Seq<(Seq<char>, QuestionAnswers)>) -> Seq<char>
    decreases entries.len(),
{
    if entries.len() == 0 {
        Seq::empty()
    } else {
        encode_checklist_spec(entries.drop_last()) + entries.last().0 + seq![':'] + seq![
            answer_char(entries.last().1.0[0]),
            answer_char(entries.last().1.0[1]),
        ] + seq![',']
    }
}

/// Writes a checklist's entries in their stored text form.
#[verifier::loop_isolation(false)]
pub fn encode_checklist(entries: &Vec<(String, QuestionAnswers)>) -> (r: String)
    ensures
        r@ == encode_checklist_spec(pairs_view(entries@)),
{
    let ghost em = pairs_view(entries@);
    let mut out: Vec<char> = Vec::new();
    let mut i: usize = 0;
    let n = entries.len();
    proof {
        assert(em.take(0) =~= Seq::<(Seq<char>, QuestionAnswers)>::empty());
    }
    while i < n
        invariant
            i <= n,
            out@ == encode_checklist_spec(em.take(i as int)),
        decreases n - i,
    {
        let key_chars = crate::chars::str_chars(entries[i].0.as_str());
        let mut k: usize = 0;
        let klen = key_chars.len();
        while k < klen
            invariant
                k <= klen,
                klen == key_chars@.len(),
                out@ == encode_checklist_spec(em.take(i as int)) + key_chars@.take(k as int),
            decreases klen - k,
        {
            out.push(key_chars[k]);
            proof {
                assert(key_chars@.take(k as int + 1) =~= key_chars@.take(k as int).push(
                    key_chars@[k as int],
                ));
                assert(out@ =~= encode_checklist_spec(em.take(i as int)) + key_chars@.take(
                    k as int + 1,
                ));
            }
            k = k + 1;
        }
        proof {
            assert(key_chars@.take(klen as int) =~= key_chars@);
        }
        out.push(':');
        out.push(entries[i].1.0[0].as_char());
        out.push(entries[i].1.0[1].as_char());
        out.push(',');
        proof {
            assert(em.take(i as int + 1).drop_last() =~= em.take(i as int));
            assert(em.take(i as int + 1).last() == em[i as int]);
            assert(out@ =~= encode_checklist_spec(em.take(i as int + 1)));
        }
        i = i + 1;
    }
    proof {
        assert(em.take(n as int) =~= em);
    }
    chars_string(out.as_slice())
}
} // verus!
