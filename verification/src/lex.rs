//! The mathematical model of the tokenizer: a character-class state machine
//! over the source character sequence, written as recursive functions, one
//! per machine state. `lex_from` gives the next token or lexical error from
//! a given position, together with the position where scanning resumes.

use vstd::prelude::*;
use crate::chars::{is_ws, is_digit, is_alpha, is_ident_cont};
use crate::tokens::{PosM, pos_at, JsonM, TokenM, LexErrM};
use crate::json::{number_check, json_check};

verus! {

/// A lexed token with its span, as character offsets into the source.
#[verifier::ext_equal]
pub struct LexTok {
    pub tok: TokenM,
    pub start: int,
    pub end: int,
}

/// Outcome of one lexing step: a token or a lexical error.
#[verifier::ext_equal]
pub enum LexOut {
    Tok(LexTok),
    Fail(LexErrM),
}

/// Outcome plus the character offset at which the tokenizer resumes.
#[verifier::ext_equal]
pub struct LexRes {
    pub out: LexOut,
    pub resume: int,
}

/// First non-whitespace position at or after `i`.
pub open spec fn skip_ws(s: Seq<char>, i: int) -> int
    decreases s.len() - i,
{
    if 0 <= i < s.len() && is_ws(s[i]) {
        skip_ws(s, i + 1)
    } else {
        i
    }
}

/// The token denoted by a single structural character, if any.
pub open spec fn single_token(c: char) -> Option<TokenM> {
    if c == '(' {
        Some(TokenM::LPar)
    } else if c == ')' {
        Some(TokenM::RPar)
    } else if c == '|' {
        Some(TokenM::Or)
    } else if c == '&' {
        Some(TokenM::And)
    } else if c == '>' {
        Some(TokenM::Gt)
    } else if c == '<' {
        Some(TokenM::Lt)
    } else if c == '=' {
        Some(TokenM::Eq)
    } else if c == '*' {
        Some(TokenM::Star)
    } else if c == '^' {
        Some(TokenM::Carrot)
    } else if c == ':' {
        Some(TokenM::Colon)
    } else if c == '!' {
        Some(TokenM::Bang)
    } else if c == ';' {
        Some(TokenM::Semicolon)
    } else {
        None
    }
}

/// Case-insensitive match against the keyword `true`.
pub open spec fn kw_true(t: Seq<char>) -> bool {
    t.len() == 4 && (t[0] == 't' || t[0] == 'T') && (t[1] == 'r' || t[1] == 'R') && (t[2] == 'u'
        || t[2] == 'U') && (t[3] == 'e' || t[3] == 'E')
}

/// Case-insensitive match against the keyword `false`.
pub open spec fn kw_false(t: Seq<char>) -> bool {
    t.len() == 5 && (t[0] == 'f' || t[0] == 'F') && (t[1] == 'a' || t[1] == 'A') && (t[2] == 'l'
        || t[2] == 'L') && (t[3] == 's' || t[3] == 'S') && (t[4] == 'e' || t[4] == 'E')
}

/// Case-insensitive match against the keyword `null`.
pub open spec fn kw_null(t: Seq<char>) -> bool {
    t.len() == 4 && (t[0] == 'n' || t[0] == 'N') && (t[1] == 'u' || t[1] == 'U') && (t[2] == 'l'
        || t[2] == 'L') && (t[3] == 'l' || t[3] == 'L')
}

pub open spec fn msg_path_dot() -> Seq<char> {
    "Expected identifier after dot operator"@
}

pub open spec fn msg_path_empty_index() -> Seq<char> {
    "Cannot close empty path index"@
}

pub open spec fn msg_path_index() -> Seq<char> {
    "Unexpected char found in path index"@
}

pub open spec fn msg_leading_zeros() -> Seq<char> {
    "Too many leading zeros"@
}

pub open spec fn msg_exponent() -> Seq<char> {
    "invalid char, expected + or - or 0-9"@
}

/// A bare identifier run ends: keyword literals are coerced to values,
/// anything else is an identifier.
pub open spec fn finish_ident(s: Seq<char>, j: int, k: int) -> LexRes {
    let text = s.subrange(j, k);
    let tok = if kw_false(text) {
        TokenM::Value(JsonM::JBool(false))
    } else if kw_true(text) {
        TokenM::Value(JsonM::JBool(true))
    } else if kw_null(text) {
        TokenM::Value(JsonM::JNull)
    } else {
        TokenM::Ident(text)
    };
    LexRes { out: LexOut::Tok(LexTok { tok, start: j, end: k }), resume: k }
}

/// Identifier state: the token began at `j`, characters up to `k` are read.
pub open spec fn lex_ident(s: Seq<char>, j: int, k: int) -> LexRes
    decreases s.len() - k,
{
    if k < s.len() {
        let c = s[k];
        if c == '.' {
            lex_path_dot(s, j, k + 1)
        } else if c == '[' {
            lex_path_index_start(s, j, k + 1)
        } else if is_ident_cont(c) {
            lex_ident(s, j, k + 1)
        } else {
            finish_ident(s, j, k)
        }
    } else {
        finish_ident(s, j, k)
    }
}

/// Just after a `.` in a path: an identifier character must follow.
pub open spec fn lex_path_dot(s: Seq<char>, j: int, k: int) -> LexRes
    decreases s.len() - k,
{
    if k >= s.len() {
        LexRes { out: LexOut::Fail(LexErrM::UnfinishedPathDot(pos_at(s, j))), resume: k }
    } else {
        let c = s[k];
        if is_alpha(c) || c == '_' {
            lex_path_ident(s, j, k + 1)
        } else {
            LexRes { out: LexOut::Fail(LexErrM::InvalidPath(c, msg_path_dot())), resume: k }
        }
    }
}

/// Just after a `[` in a path: the index may not be empty.
pub open spec fn lex_path_index_start(s: Seq<char>, j: int, k: int) -> LexRes
    decreases s.len() - k,
{
    if k >= s.len() {
        LexRes { out: LexOut::Fail(LexErrM::UnclosedPathIndex(pos_at(s, j))), resume: k }
    } else {
        let c = s[k];
        if c == ']' {
            LexRes {
                out: LexOut::Fail(LexErrM::InvalidPath(c, msg_path_empty_index())),
                resume: k + 1,
            }
        } else if is_digit(c) || c == '#' || c == '-' {
            lex_path_index(s, j, k + 1)
        } else {
            LexRes { out: LexOut::Fail(LexErrM::InvalidPath(c, msg_path_index())), resume: k }
        }
    }
}

/// Inside a path index: digits, `#` and `-` until the closing `]`.
pub open spec fn lex_path_index(s: Seq<char>, j: int, k: int) -> LexRes
    decreases s.len() - k,
{
    if k >= s.len() {
        LexRes { out: LexOut::Fail(LexErrM::UnclosedPathIndex(pos_at(s, j))), resume: k }
    } else {
        let c = s[k];
        if c == ']' {
            lex_path_ident(s, j, k + 1)
        } else if is_digit(c) || c == '#' || c == '-' {
            lex_path_index(s, j, k + 1)
        } else {
            LexRes { out: LexOut::Fail(LexErrM::InvalidPath(c, msg_path_index())), resume: k }
        }
    }
}

/// Path state after a completed segment or index.
pub open spec fn lex_path_ident(s: Seq<char>, j: int, k: int) -> LexRes
    decreases s.len() - k,
{
    if k < s.len() {
        let c = s[k];
        if c == '.' {
            lex_path_dot(s, j, k + 1)
        } else if c == '[' {
            lex_path_index_start(s, j, k + 1)
        } else if is_ident_cont(c) {
            lex_path_ident(s, j, k + 1)
        } else {
            LexRes {
                out: LexOut::Tok(LexTok { tok: TokenM::Path(s.subrange(j, k)), start: j, end: k }),
                resume: k,
            }
        }
    } else {
        LexRes {
            out: LexOut::Tok(LexTok { tok: TokenM::Path(s.subrange(j, k)), start: j, end: k }),
            resume: k,
        }
    }
}

/// Inside a quoted string; `acc` holds the characters decoded so far.
pub open spec fn lex_str(s: Seq<char>, j: int, k: int, acc: Seq<char>) -> LexRes
    decreases s.len() - k,
{
    if k >= s.len() {
        LexRes { out: LexOut::Fail(LexErrM::UnclosedString(pos_at(s, j))), resume: k }
    } else {
        let c = s[k];
        if c == '"' {
            LexRes {
                out: LexOut::Tok(
                    LexTok { tok: TokenM::Value(JsonM::JStr(acc)), start: j, end: k + 1 },
                ),
                resume: k + 1,
            }
        } else if c == '\\' {
            if k + 1 >= s.len() {
                LexRes { out: LexOut::Fail(LexErrM::UnfinishedEscape(pos_at(s, j))), resume: k + 1 }
            } else {
                let e = s[k + 1];
                if e == '\\' {
                    lex_str(s, j, k + 2, acc.push('\\'))
                } else if e == '"' {
                    lex_str(s, j, k + 2, acc.push('"'))
                } else if e == '0' {
                    lex_str(s, j, k + 2, acc.push('\0'))
                } else {
                    LexRes {
                        out: LexOut::Fail(LexErrM::InvalidEscape(e, pos_at(s, j))),
                        resume: k + 2,
                    }
                }
            }
        } else {
            lex_str(s, j, k + 1, acc.push(c))
        }
    }
}

/// A number run ends at `k`: the text is handed to the JSON number grammar.
pub open spec fn finish_num(s: Seq<char>, j: int, k: int) -> LexRes {
    let text = s.subrange(j, k);
    match number_check(text) {
        Ok(u) => LexRes {
            out: LexOut::Tok(LexTok { tok: TokenM::Value(JsonM::JNum(text)), start: j, end: k }),
            resume: k,
        },
        Err(m) => LexRes {
            out: LexOut::Fail(
                LexErrM::InvalidNumber { msg: m, start: pos_at(s, j), end: pos_at(s, k) },
            ),
            resume: k,
        },
    }
}

/// After a leading zero (possibly signed).
pub open spec fn lex_num_zero(s: Seq<char>, j: int, k: int) -> LexRes
    decreases s.len() - k,
{
    if k >= s.len() {
        LexRes {
            out: LexOut::Tok(
                LexTok { tok: TokenM::Value(JsonM::JNum(s.subrange(j, k))), start: j, end: k },
            ),
            resume: k,
        }
    } else {
        let c = s[k];
        if c == '0' {
            LexRes {
                out: LexOut::Fail(
                    LexErrM::InvalidNumber {
                        msg: msg_leading_zeros(),
                        start: pos_at(s, j),
                        end: pos_at(s, k),
                    },
                ),
                resume: k + 1,
            }
        } else if is_digit(c) {
            lex_num_main(s, j, k + 1)
        } else if c == 'e' || c == 'E' {
            lex_num_epm(s, j, k + 1)
        } else if c == '.' {
            lex_num_dotdig(s, j, k + 1)
        } else {
            LexRes {
                out: LexOut::Tok(
                    LexTok { tok: TokenM::Value(JsonM::JNum(s.subrange(j, k))), start: j, end: k },
                ),
                resume: k,
            }
        }
    }
}

/// In the integer part of a number.
pub open spec fn lex_num_main(s: Seq<char>, j: int, k: int) -> LexRes
    decreases s.len() - k,
{
    if k >= s.len() {
        finish_num(s, j, k)
    } else {
        let c = s[k];
        if is_digit(c) {
            lex_num_main(s, j, k + 1)
        } else if c == 'e' || c == 'E' {
            lex_num_epm(s, j, k + 1)
        } else if c == '.' {
            lex_num_dotdig(s, j, k + 1)
        } else {
            finish_num(s, j, k)
        }
    }
}

/// After the decimal point.
pub open spec fn lex_num_dotdig(s: Seq<char>, j: int, k: int) -> LexRes
    decreases s.len() - k,
{
    if k >= s.len() {
        finish_num(s, j, k)
    } else {
        let c = s[k];
        if is_digit(c) {
            lex_num_dotdig(s, j, k + 1)
        } else if c == 'e' || c == 'E' {
            lex_num_epm(s, j, k + 1)
        } else {
            finish_num(s, j, k)
        }
    }
}

/// Just after the exponent marker: a sign or digit must follow.
pub open spec fn lex_num_epm(s: Seq<char>, j: int, k: int) -> LexRes
    decreases s.len() - k,
{
    if k >= s.len() {
        LexRes {
            out: LexOut::Fail(
                LexErrM::InvalidNumber {
                    msg: msg_exponent(),
                    start: pos_at(s, j),
                    end: pos_at(s, k),
                },
            ),
            resume: k,
        }
    } else {
        let c = s[k];
        if c == '+' || c == '-' || is_digit(c) {
            lex_num_ed(s, j, k + 1)
        } else {
            LexRes {
                out: LexOut::Fail(
                    LexErrM::InvalidNumber {
                        msg: msg_exponent(),
                        start: pos_at(s, j),
                        end: pos_at(s, k),
                    },
                ),
                resume: k + 1,
            }
        }
    }
}

/// In the exponent digits.
pub open spec fn lex_num_ed(s: Seq<char>, j: int, k: int) -> LexRes
    decreases s.len() - k,
{
    if k >= s.len() {
        finish_num(s, j, k)
    } else {
        let c = s[k];
        if is_digit(c) {
            lex_num_ed(s, j, k + 1)
        } else {
            finish_num(s, j, k)
        }
    }
}

/// The closing character of a bracket/brace literal of the given kind.
pub open spec fn json_close(obj: bool) -> char {
    if obj {
        '}'
    } else {
        ']'
    }
}

/// The opening character of a bracket/brace literal of the given kind.
pub open spec fn json_open(obj: bool) -> char {
    if obj {
        '{'
    } else {
        '['
    }
}

/// Inside a bracket/brace literal at nesting depth `depth >= 1`; quoted
/// strings are opaque, so structural characters inside them do not count.
pub open spec fn lex_json(s: Seq<char>, j: int, k: int, obj: bool, depth: int) -> LexRes
    decreases s.len() - k,
{
    if k >= s.len() {
        LexRes { out: LexOut::Fail(LexErrM::UnclosedJson(pos_at(s, j))), resume: k }
    } else {
        let c = s[k];
        if c == json_close(obj) {
            if depth == 1 {
                let span = s.subrange(j, k + 1);
                match json_check(span) {
                    Ok(u) => LexRes {
                        out: LexOut::Tok(
                            LexTok { tok: TokenM::Value(JsonM::JData(span)), start: j, end: k + 1 },
                        ),
                        resume: k + 1,
                    },
                    Err(m) => LexRes {
                        out: LexOut::Fail(
                            LexErrM::InvalidJson {
                                msg: m,
                                start: pos_at(s, j),
                                end: pos_at(s, k),
                            },
                        ),
                        resume: k + 1,
                    },
                }
            } else {
                lex_json(s, j, k + 1, obj, depth - 1)
            }
        } else if c == json_open(obj) {
            lex_json(s, j, k + 1, obj, depth + 1)
        } else if c == '"' {
            lex_json_str(s, j, k + 1, obj, depth)
        } else {
            lex_json(s, j, k + 1, obj, depth)
        }
    }
}

/// Inside a quoted string within a bracket/brace literal; a backslash
/// escapes exactly the next character.
pub open spec fn lex_json_str(s: Seq<char>, j: int, k: int, obj: bool, depth: int) -> LexRes
    decreases s.len() - k,
{
    if k >= s.len() {
        LexRes { out: LexOut::Fail(LexErrM::UnclosedString(pos_at(s, j))), resume: k }
    } else {
        let c = s[k];
        if c == '"' {
            lex_json(s, j, k + 1, obj, depth)
        } else if c == '\\' {
            if k + 1 >= s.len() {
                LexRes { out: LexOut::Fail(LexErrM::UnclosedString(pos_at(s, j))), resume: k + 1 }
            } else {
                lex_json_str(s, j, k + 2, obj, depth)
            }
        } else {
            lex_json_str(s, j, k + 1, obj, depth)
        }
    }
}

/// One token read from position `j`, which holds a non-whitespace character.
pub open spec fn lex_tok(s: Seq<char>, j: int) -> LexRes {
    let c = s[j];
    match single_token(c) {
        Some(t) => LexRes { out: LexOut::Tok(LexTok { tok: t, start: j, end: j + 1 }), resume: j + 1 },
        None => {
            if c == '[' {
                lex_json(s, j, j + 1, false, 1)
            } else if c == '{' {
                lex_json(s, j, j + 1, true, 1)
            } else if c == '-' {
                if j + 1 < s.len() && s[j + 1] == '0' {
                    lex_num_zero(s, j, j + 2)
                } else {
                    lex_num_main(s, j, j + 1)
                }
            } else if c == '0' {
                lex_num_zero(s, j, j + 1)
            } else if is_digit(c) {
                lex_num_main(s, j, j + 1)
            } else if c == '"' {
                lex_str(s, j, j + 1, Seq::<char>::empty())
            } else if is_alpha(c) {
                lex_ident(s, j, j + 1)
            } else {
                LexRes { out: LexOut::Fail(LexErrM::InvalidChar(c, pos_at(s, j))), resume: j + 1 }
            }
        },
    }
}

/// The next lexing step from committed position `i`: `None` when only
/// whitespace remains, otherwise the token or error found after skipping
/// whitespace, with the position where the tokenizer resumes.
pub open spec fn lex_from(s: Seq<char>, i: int) -> Option<LexRes> {
    let j = skip_ws(s, i);
    if j >= s.len() {
        None
    } else {
        Some(lex_tok(s, j))
    }
}


/// Bounds of one machine run: scanning never moves backwards past the entry
/// point `k` nor beyond the input, and a token's span is the consumed text.
pub open spec fn lex_res_ok(s: Seq<char>, j: int, k: int, r: LexRes) -> bool {
    &&& k <= r.resume <= s.len()
    &&& (r.out matches LexOut::Tok(lt) ==> lt.start == j && j < lt.end && lt.end == r.resume)
}

pub proof fn lemma_skip_ws_bounds(s: Seq<char>, i: int)
    requires
        0 <= i <= s.len(),
    ensures
        i <= skip_ws(s, i) <= s.len(),
        forall|p: int| i <= p < skip_ws(s, i) ==> is_ws(#[trigger] s[p]),
        skip_ws(s, i) < s.len() ==> !is_ws(s[skip_ws(s, i)]),
    decreases s.len() - i,
{
    if i < s.len() && is_ws(s[i]) {
        lemma_skip_ws_bounds(s, i + 1);
    }
}

pub proof fn lemma_ident_bounds(s: Seq<char>, j: int, k: int)
    requires
        0 <= j < k <= s.len(),
    ensures
        lex_res_ok(s, j, k, lex_ident(s, j, k)),
    decreases s.len() - k,
{
    if k < s.len() {
        let c = s[k];
        if c == '.' {
            lemma_path_dot_bounds(s, j, k + 1);
        } else if c == '[' {
            lemma_path_index_start_bounds(s, j, k + 1);
        } else if is_ident_cont(c) {
            lemma_ident_bounds(s, j, k + 1);
        }
    }
}

pub proof fn lemma_path_dot_bounds(s: Seq<char>, j: int, k: int)
    requires
        0 <= j < k <= s.len(),
    ensures
        lex_res_ok(s, j, k, lex_path_dot(s, j, k)),
    decreases s.len() - k,
{
    if k < s.len() {
        let c = s[k];
        if is_alpha(c) || c == '_' {
            lemma_path_ident_bounds(s, j, k + 1);
        }
    }
}

pub proof fn lemma_path_index_start_bounds(s: Seq<char>, j: int, k: int)
    requires
        0 <= j < k <= s.len(),
    ensures
        lex_res_ok(s, j, k, lex_path_index_start(s, j, k)),
    decreases s.len() - k,
{
    if k < s.len() {
        let c = s[k];
        if c == ']' {
        } else if is_digit(c) || c == '#' || c == '-' {
            lemma_path_index_bounds(s, j, k + 1);
        }
    }
}

pub proof fn lemma_path_index_bounds(s: Seq<char>, j: int, k: int)
    requires
        0 <= j < k <= s.len(),
    ensures
        lex_res_ok(s, j, k, lex_path_index(s, j, k)),
    decreases s.len() - k,
{
    if k < s.len() {
        let c = s[k];
        if c == ']' {
            lemma_path_ident_bounds(s, j, k + 1);
        } else if is_digit(c) || c == '#' || c == '-' {
            lemma_path_index_bounds(s, j, k + 1);
        }
    }
}

pub proof fn lemma_path_ident_bounds(s: Seq<char>, j: int, k: int)
    requires
        0 <= j < k <= s.len(),
    ensures
        lex_res_ok(s, j, k, lex_path_ident(s, j, k)),
    decreases s.len() - k,
{
    if k < s.len() {
        let c = s[k];
        if c == '.' {
            lemma_path_dot_bounds(s, j, k + 1);
        } else if c == '[' {
            lemma_path_index_start_bounds(s, j, k + 1);
        } else if is_ident_cont(c) {
            lemma_path_ident_bounds(s, j, k + 1);
        }
    }
}

pub proof fn lemma_str_bounds(s: Seq<char>, j: int, k: int, acc: Seq<char>)
    requires
        0 <= j < k <= s.len(),
    ensures
        lex_res_ok(s, j, k, lex_str(s, j, k, acc)),
    decreases s.len() - k,
{
    if k < s.len() {
        let c = s[k];
        if c == '"' {
        } else if c == '\\' {
            if k + 1 < s.len() {
                let e = s[k + 1];
                if e == '\\' {
                    lemma_str_bounds(s, j, k + 2, acc.push('\\'));
                } else if e == '"' {
                    lemma_str_bounds(s, j, k + 2, acc.push('"'));
                } else if e == '0' {
                    lemma_str_bounds(s, j, k + 2, acc.push('\0'));
                }
            }
        } else {
            lemma_str_bounds(s, j, k + 1, acc.push(c));
        }
    }
}

pub proof fn lemma_num_zero_bounds(s: Seq<char>, j: int, k: int)
    requires
        0 <= j < k <= s.len(),
    ensures
        lex_res_ok(s, j, k, lex_num_zero(s, j, k)),
    decreases s.len() - k,
{
    if k < s.len() {
        let c = s[k];
        if c == '0' {
        } else if is_digit(c) {
            lemma_num_main_bounds(s, j, k + 1);
        } else if c == 'e' || c == 'E' {
            lemma_num_epm_bounds(s, j, k + 1);
        } else if c == '.' {
            lemma_num_dotdig_bounds(s, j, k + 1);
        }
    }
}

pub proof fn lemma_num_main_bounds(s: Seq<char>, j: int, k: int)
    requires
        0 <= j < k <= s.len(),
    ensures
        lex_res_ok(s, j, k, lex_num_main(s, j, k)),
    decreases s.len() - k,
{
    if k < s.len() {
        let c = s[k];
        if is_digit(c) {
            lemma_num_main_bounds(s, j, k + 1);
        } else if c == 'e' || c == 'E' {
            lemma_num_epm_bounds(s, j, k + 1);
        } else if c == '.' {
            lemma_num_dotdig_bounds(s, j, k + 1);
        }
    }
}

pub proof fn lemma_num_dotdig_bounds(s: Seq<char>, j: int, k: int)
    requires
        0 <= j < k <= s.len(),
    ensures
        lex_res_ok(s, j, k, lex_num_dotdig(s, j, k)),
    decreases s.len() - k,
{
    if k < s.len() {
        let c = s[k];
        if is_digit(c) {
            lemma_num_dotdig_bounds(s, j, k + 1);
        } else if c == 'e' || c == 'E' {
            lemma_num_epm_bounds(s, j, k + 1);
        }
    }
}

pub proof fn lemma_num_epm_bounds(s: Seq<char>, j: int, k: int)
    requires
        0 <= j < k <= s.len(),
    ensures
        lex_res_ok(s, j, k, lex_num_epm(s, j, k)),
    decreases s.len() - k,
{
    if k < s.len() {
        let c = s[k];
        if c == '+' || c == '-' || is_digit(c) {
            lemma_num_ed_bounds(s, j, k + 1);
        }
    }
}

pub proof fn lemma_num_ed_bounds(s: Seq<char>, j: int, k: int)
    requires
        0 <= j < k <= s.len(),
    ensures
        lex_res_ok(s, j, k, lex_num_ed(s, j, k)),
    decreases s.len() - k,
{
    if k < s.len() {
        let c = s[k];
        if is_digit(c) {
            lemma_num_ed_bounds(s, j, k + 1);
        }
    }
}

pub proof fn lemma_json_bounds(s: Seq<char>, j: int, k: int, obj: bool, depth: int)
    requires
        0 <= j < k <= s.len(),
    ensures
        lex_res_ok(s, j, k, lex_json(s, j, k, obj, depth)),
    decreases s.len() - k,
{
    if k < s.len() {
        let c = s[k];
        if c == json_close(obj) {
            if depth != 1 {
                lemma_json_bounds(s, j, k + 1, obj, depth - 1);
            }
        } else if c == json_open(obj) {
            lemma_json_bounds(s, j, k + 1, obj, depth + 1);
        } else if c == '"' {
            lemma_json_str_bounds(s, j, k + 1, obj, depth);
        } else {
            lemma_json_bounds(s, j, k + 1, obj, depth);
        }
    }
}

pub proof fn lemma_json_str_bounds(s: Seq<char>, j: int, k: int, obj: bool, depth: int)
    requires
        0 <= j < k <= s.len(),
    ensures
        lex_res_ok(s, j, k, lex_json_str(s, j, k, obj, depth)),
    decreases s.len() - k,
{
    if k < s.len() {
        let c = s[k];
        if c == '"' {
            lemma_json_bounds(s, j, k + 1, obj, depth);
        } else if c == '\\' {
            if k + 1 < s.len() {
                lemma_json_str_bounds(s, j, k + 2, obj, depth);
            }
        } else {
            lemma_json_str_bounds(s, j, k + 1, obj, depth);
        }
    }
}

pub proof fn lemma_lex_tok_bounds(s: Seq<char>, j: int)
    requires
        0 <= j < s.len(),
    ensures
        lex_res_ok(s, j, j + 1, lex_tok(s, j)),
    decreases s.len() - j,
{
    let c = s[j];
    if single_token(c) is Some {
    } else if c == '[' {
        lemma_json_bounds(s, j, j + 1, false, 1);
    } else if c == '{' {
        lemma_json_bounds(s, j, j + 1, true, 1);
    } else if c == '-' {
        if j + 1 < s.len() && s[j + 1] == '0' {
            lemma_num_zero_bounds(s, j, j + 2);
        } else {
            lemma_num_main_bounds(s, j, j + 1);
        }
    } else if c == '0' {
        lemma_num_zero_bounds(s, j, j + 1);
    } else if is_digit(c) {
        lemma_num_main_bounds(s, j, j + 1);
    } else if c == '"' {
        lemma_str_bounds(s, j, j + 1, Seq::<char>::empty());
    } else if is_alpha(c) {
        lemma_ident_bounds(s, j, j + 1);
    }
}

/// Every lexing step moves forward: the resume position lies strictly after
/// the committed position, and tokens span exactly the consumed characters.
pub proof fn lemma_lex_from_bounds(s: Seq<char>, i: int)
    requires
        0 <= i <= s.len(),
    ensures
        match lex_from(s, i) {
            None => skip_ws(s, i) == s.len(),
            Some(lr) => {
                &&& i < lr.resume <= s.len()
                &&& (lr.out matches LexOut::Tok(lt) ==> i <= skip_ws(s, i) && lt.start == skip_ws(
                    s,
                    i,
                ) && lt.start < lt.end && lt.end == lr.resume)
            },
        },
{
    lemma_skip_ws_bounds(s, i);
    let j = skip_ws(s, i);
    if j < s.len() {
        lemma_lex_tok_bounds(s, j);
    }
}

/// The result handed out for one lexing step.
pub open spec fn step_result(s: Seq<char>, lr: LexRes) -> Result<crate::tokens::TokFullM, LexErrM> {
    match lr.out {
        LexOut::Tok(lt) => Ok(
            crate::tokens::TokFullM {
                data: lt.tok,
                start: pos_at(s, lt.start),
                end: pos_at(s, lt.end),
            },
        ),
        LexOut::Fail(e) => Err(e),
    }
}

/// The whole token-or-error sequence read from position `i` onwards.
pub open spec fn lex_all(s: Seq<char>, i: int) -> Seq<Result<crate::tokens::TokFullM, LexErrM>>
    decreases s.len() - i
        when 0 <= i <= s.len()
{
    match lex_from(s, i) {
        None => Seq::empty(),
        Some(lr) => {
            proof {
                lemma_lex_from_bounds(s, i);
            }
            seq![step_result(s, lr)] + lex_all(s, lr.resume)
        },
    }
}

} // verus!