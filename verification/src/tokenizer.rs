//! The tokenizer: a pull-based lexer producing the token-or-error sequence
//! that the model in `lex` describes, one `next` call at a time.

use vstd::prelude::*;
use crate::chars::{
    bytes_len, utf8_len_of, ws_char, digit_char, alpha_char, ident_cont_char, str_chars,
    chars_string, lemma_bytes_len_step, lemma_bytes_len_prefix,
};
use crate::tokens::{
    TokenizerPosition, pos_at, JsonValue, Token, TokenFull, TokenizerError, TokFullM,
};
use crate::lex::{
    LexRes, LexOut, lex_from, skip_ws, finish_ident, lex_ident, lex_path_dot,
    lex_path_index_start, lex_path_index, lex_path_ident, lex_str, finish_num, lex_num_zero,
    lex_num_main, lex_num_dotdig, lex_num_epm, lex_num_ed, lex_json, lex_json_str, json_open,
    json_close, kw_true, kw_false, kw_null,
};
use crate::json::{check_number_text, check_json_text};

verus! {

/// A position is well-formed for source `s` when its byte offset is the
/// UTF-8 length of the characters before it.
pub open spec fn pos_wf(s: Seq<char>, p: TokenizerPosition) -> bool {
    p.char_index <= s.len() && p.byte_index == bytes_len(s.take(p.char_index as int))
}

/// The executable outcome `r` (a spanned token or an error) realizes the
/// outcome of a lexing step.
pub open spec fn out_matches(s: Seq<char>, out: LexOut, r: Result<TokenFull, TokenizerError>) -> bool {
    match out {
        LexOut::Tok(lt) => r matches Ok(tf) && tf@ == (TokFullM {
            data: lt.tok,
            start: pos_at(s, lt.start),
            end: pos_at(s, lt.end),
        }),
        LexOut::Fail(e) => r matches Err(te) && te@ == e,
    }
}

/// The executable outcome `r` and the position `resume` where scanning
/// continues realize the lexing step `lr`.
pub open spec fn step_matches(
    s: Seq<char>,
    lr: LexRes,
    r: Result<TokenFull, TokenizerError>,
    resume: TokenizerPosition,
) -> bool {
    &&& resume@ == pos_at(s, lr.resume)
    &&& out_matches(s, lr.out, r)
}

fn pos_step(chars: &Vec<char>, p: TokenizerPosition) -> (q: TokenizerPosition)
    requires
        pos_wf(chars@, p),
        p.char_index < chars@.len(),
        bytes_len(chars@) <= usize::MAX,
    ensures
        pos_wf(chars@, q),
        q.char_index == p.char_index + 1,
{
    let total = chars.len();
    let c = chars[p.char_index];
    proof {
        lemma_bytes_len_step(chars@, p.char_index as int);
        lemma_bytes_len_prefix(chars@, p.char_index as int + 1);
        assert(p.char_index < total);
    }
    let n = utf8_len_of(c);
    TokenizerPosition { byte_index: p.byte_index + n, char_index: p.char_index + 1 }
}

#[verifier::loop_isolation(false)]
fn copy_range(chars: &Vec<char>, j: usize, k: usize) -> (v: Vec<char>)
    requires
        j <= k <= chars@.len(),
    ensures
        v@ == chars@.subrange(j as int, k as int),
{
    let mut v: Vec<char> = Vec::new();
    let mut m: usize = j;
    while m < k
        invariant
            j <= m <= k <= chars@.len(),
            v@ == chars@.subrange(j as int, m as int),
        decreases k - m,
    {
        let c = chars[m];
        v.push(c);
        proof {
            assert(chars@.subrange(j as int, m as int + 1) =~= chars@.subrange(
                j as int,
                m as int,
            ).push(c));
        }
        m = m + 1;
    }
    v
}

fn is_kw_false(v: &Vec<char>) -> (b: bool)
    ensures
        b == kw_false(v@),
{
    v.len() == 5 && (v[0] == 'f' || v[0] == 'F') && (v[1] == 'a' || v[1] == 'A') && (v[2] == 'l'
        || v[2] == 'L') && (v[3] == 's' || v[3] == 'S') && (v[4] == 'e' || v[4] == 'E')
}

fn is_kw_true(v: &Vec<char>) -> (b: bool)
    ensures
        b == kw_true(v@),
{
    v.len() == 4 && (v[0] == 't' || v[0] == 'T') && (v[1] == 'r' || v[1] == 'R') && (v[2] == 'u'
        || v[2] == 'U') && (v[3] == 'e' || v[3] == 'E')
}

fn is_kw_null(v: &Vec<char>) -> (b: bool)
    ensures
        b == kw_null(v@),
{
    v.len() == 4 && (v[0] == 'n' || v[0] == 'N') && (v[1] == 'u' || v[1] == 'U') && (v[2] == 'l'
        || v[2] == 'L') && (v[3] == 'l' || v[3] == 'L')
}

fn finish_ident_exec(chars: &Vec<char>, start: TokenizerPosition, k: TokenizerPosition) -> (out: (
    Result<TokenFull, TokenizerError>,
    TokenizerPosition,
))
    requires
        pos_wf(chars@, start),
        pos_wf(chars@, k),
        start.char_index <= k.char_index,
    ensures
        step_matches(
            chars@,
            finish_ident(chars@, start.char_index as int, k.char_index as int),
            out.0,
            out.1,
        ),
        out.1.char_index <= chars@.len(),
{
    let text = copy_range(chars, start.char_index, k.char_index);
    let tok = if is_kw_false(&text) {
        Token::Value(JsonValue::Bool(false))
    } else if is_kw_true(&text) {
        Token::Value(JsonValue::Bool(true))
    } else if is_kw_null(&text) {
        Token::Value(JsonValue::Null)
    } else {
        Token::Ident(chars_string(text.as_slice()))
    };
    (Ok(TokenFull::new(tok, start, k)), k)
}

/// States of the identifier/path machine.
#[derive(Clone, Copy)]
enum PathSt {
    Ident,
    Dot,
    IndexStart,
    Index,
    Seg,
}

/// The model function that each identifier/path state runs.
spec fn path_spec(st: PathSt, s: Seq<char>, j: int, k: int) -> LexRes {
    match st {
        PathSt::Ident => lex_ident(s, j, k),
        PathSt::Dot => lex_path_dot(s, j, k),
        PathSt::IndexStart => lex_path_index_start(s, j, k),
        PathSt::Index => lex_path_index(s, j, k),
        PathSt::Seg => lex_path_ident(s, j, k),
    }
}

#[verifier::loop_isolation(false)]
fn run_path(chars: &Vec<char>, start: TokenizerPosition, k0: TokenizerPosition) -> (out: (
    Result<TokenFull, TokenizerError>,
    TokenizerPosition,
))
    requires
        pos_wf(chars@, start),
        pos_wf(chars@, k0),
        start.char_index < k0.char_index,
        bytes_len(chars@) <= usize::MAX,
    ensures
        step_matches(
            chars@,
            lex_ident(chars@, start.char_index as int, k0.char_index as int),
            out.0,
            out.1,
        ),
        out.1.char_index <= chars@.len(),
{
    let ghost s = chars@;
    let ghost j = start.char_index as int;
    let ghost target = lex_ident(s, j, k0.char_index as int);
    let mut st = PathSt::Ident;
    let mut k = k0;
    let len = chars.len();
    loop
        invariant
            s == chars@,
            len == s.len(),
            pos_wf(s, start),
            pos_wf(s, k),
            j == start.char_index as int,
            j < k.char_index,
            bytes_len(s) <= usize::MAX,
            path_spec(st, s, j, k.char_index as int) == target,
        decreases s.len() - k.char_index,
    {
        let kc = k.char_index;
        if kc == len {
            match st {
                PathSt::Ident => {
                    return finish_ident_exec(chars, start, k);
                },
                PathSt::Seg => {
                    let text = copy_range(chars, start.char_index, kc);
                    let tok = Token::Path(chars_string(text.as_slice()));
                    return (Ok(TokenFull::new(tok, start, k)), k);
                },
                PathSt::Dot => {
                    return (Err(TokenizerError::UnfinishedPathDot(start)), k);
                },
                PathSt::IndexStart => {
                    return (Err(TokenizerError::UnclosedPathIndex(start)), k);
                },
                PathSt::Index => {
                    return (Err(TokenizerError::UnclosedPathIndex(start)), k);
                },
            }
        }
        let c = chars[kc];
        match st {
            PathSt::Ident => {
                if c == '.' {
                    st = PathSt::Dot;
                    k = pos_step(chars, k);
                } else if c == '[' {
                    st = PathSt::IndexStart;
                    k = pos_step(chars, k);
                } else if ident_cont_char(c) {
                    k = pos_step(chars, k);
                } else {
                    return finish_ident_exec(chars, start, k);
                }
            },
            PathSt::Dot => {
                if alpha_char(c) || c == '_' {
                    st = PathSt::Seg;
                    k = pos_step(chars, k);
                } else {
                    return (
                        Err(
                            TokenizerError::InvalidPath(
                                c,
                                "Expected identifier after dot operator",
                            ),
                        ),
                        k,
                    );
                }
            },
            PathSt::IndexStart => {
                if c == ']' {
                    let k1 = pos_step(chars, k);
                    return (
                        Err(TokenizerError::InvalidPath(c, "Cannot close empty path index")),
                        k1,
                    );
                } else if digit_char(c) || c == '#' || c == '-' {
                    st = PathSt::Index;
                    k = pos_step(chars, k);
                } else {
                    return (
                        Err(TokenizerError::InvalidPath(c, "Unexpected char found in path index")),
                        k,
                    );
                }
            },
            PathSt::Index => {
                if c == ']' {
                    st = PathSt::Seg;
                    k = pos_step(chars, k);
                } else if digit_char(c) || c == '#' || c == '-' {
                    k = pos_step(chars, k);
                } else {
                    return (
                        Err(TokenizerError::InvalidPath(c, "Unexpected char found in path index")),
                        k,
                    );
                }
            },
            PathSt::Seg => {
                if c == '.' {
                    st = PathSt::Dot;
                    k = pos_step(chars, k);
                } else if c == '[' {
                    st = PathSt::IndexStart;
                    k = pos_step(chars, k);
                } else if ident_cont_char(c) {
                    k = pos_step(chars, k);
                } else {
                    let text = copy_range(chars, start.char_index, kc);
                    let tok = Token::Path(chars_string(text.as_slice()));
                    return (Ok(TokenFull::new(tok, start, k)), k);
                }
            },
        }
    }
}

#[verifier::loop_isolation(false)]
fn run_str(chars: &Vec<char>, start: TokenizerPosition, k0: TokenizerPosition) -> (out: (
    Result<TokenFull, TokenizerError>,
    TokenizerPosition,
))
    requires
        pos_wf(chars@, start),
        pos_wf(chars@, k0),
        start.char_index < k0.char_index,
        bytes_len(chars@) <= usize::MAX,
    ensures
        step_matches(
            chars@,
            lex_str(chars@, start.char_index as int, k0.char_index as int, Seq::<char>::empty()),
            out.0,
            out.1,
        ),
        out.1.char_index <= chars@.len(),
{
    let ghost s = chars@;
    let ghost j = start.char_index as int;
    let ghost target = lex_str(s, j, k0.char_index as int, Seq::<char>::empty());
    let mut acc: Vec<char> = Vec::new();
    let mut k = k0;
    let len = chars.len();
    loop
        invariant
            s == chars@,
            len == s.len(),
            pos_wf(s, start),
            pos_wf(s, k),
            j == start.char_index as int,
            j < k.char_index,
            bytes_len(s) <= usize::MAX,
            lex_str(s, j, k.char_index as int, acc@) == target,
        decreases s.len() - k.char_index,
    {
        let kc = k.char_index;
        if kc == len {
            return (Err(TokenizerError::UnclosedString(start)), k);
        }
        let c = chars[kc];
        if c == '"' {
            let end = pos_step(chars, k);
            let tok = Token::Value(JsonValue::Str(chars_string(acc.as_slice())));
            return (Ok(TokenFull::new(tok, start, end)), end);
        } else if c == '\\' {
            let k1 = pos_step(chars, k);
            if k1.char_index == len {
                return (Err(TokenizerError::UnfinishedEscape(start)), k1);
            }
            let e = chars[k1.char_index];
            if e == '\\' {
                acc.push('\\');
                k = pos_step(chars, k1);
            } else if e == '"' {
                acc.push('"');
                k = pos_step(chars, k1);
            } else if e == '0' {
                acc.push('\0');
                k = pos_step(chars, k1);
            } else {
                let k2 = pos_step(chars, k1);
                return (Err(TokenizerError::InvalidEscape(e, start)), k2);
            }
        } else {
            acc.push(c);
            k = pos_step(chars, k);
        }
    }
}

fn finish_num_exec(chars: &Vec<char>, start: TokenizerPosition, k: TokenizerPosition) -> (out: (
    Result<TokenFull, TokenizerError>,
    TokenizerPosition,
))
    requires
        pos_wf(chars@, start),
        pos_wf(chars@, k),
        start.char_index <= k.char_index,
    ensures
        step_matches(
            chars@,
            finish_num(chars@, start.char_index as int, k.char_index as int),
            out.0,
            out.1,
        ),
        out.1.char_index <= chars@.len(),
{
    let text = copy_range(chars, start.char_index, k.char_index);
    let string = chars_string(text.as_slice());
    match check_number_text(string.as_str()) {
        Ok(u) => {
            let tok = Token::Value(JsonValue::Num(string));
            (Ok(TokenFull::new(tok, start, k)), k)
        },
        Err(m) => {
            (Err(TokenizerError::InvalidNumber { msg: m, start, end: k }), k)
        },
    }
}

/// States of the number machine.
#[derive(Clone, Copy)]
enum NumSt {
    Zero,
    Main,
    DotDig,
    Epm,
    Ed,
}

/// The model function that each number state runs.
spec fn num_spec(st: NumSt, s: Seq<char>, j: int, k: int) -> LexRes {
    match st {
        NumSt::Zero => lex_num_zero(s, j, k),
        NumSt::Main => lex_num_main(s, j, k),
        NumSt::DotDig => lex_num_dotdig(s, j, k),
        NumSt::Epm => lex_num_epm(s, j, k),
        NumSt::Ed => lex_num_ed(s, j, k),
    }
}

#[verifier::loop_isolation(false)]
fn run_num(chars: &Vec<char>, start: TokenizerPosition, k0: TokenizerPosition, st0: NumSt) -> (out:
    (Result<TokenFull, TokenizerError>, TokenizerPosition))
    requires
        pos_wf(chars@, start),
        pos_wf(chars@, k0),
        start.char_index < k0.char_index,
        bytes_len(chars@) <= usize::MAX,
    ensures
        step_matches(
            chars@,
            num_spec(st0, chars@, start.char_index as int, k0.char_index as int),
            out.0,
            out.1,
        ),
        out.1.char_index <= chars@.len(),
{
    let ghost s = chars@;
    let ghost j = start.char_index as int;
    let ghost target = num_spec(st0, s, j, k0.char_index as int);
    let mut st = st0;
    let mut k = k0;
    let len = chars.len();
    loop
        invariant
            s == chars@,
            len == s.len(),
            pos_wf(s, start),
            pos_wf(s, k),
            j == start.char_index as int,
            j < k.char_index,
            bytes_len(s) <= usize::MAX,
            num_spec(st, s, j, k.char_index as int) == target,
        decreases s.len() - k.char_index,
    {
        let kc = k.char_index;
        if kc == len {
            match st {
                NumSt::Zero => {
                    let text = copy_range(chars, start.char_index, kc);
                    let tok = Token::Value(JsonValue::Num(chars_string(text.as_slice())));
                    return (Ok(TokenFull::new(tok, start, k)), k);
                },
                NumSt::Epm => {
                    let msg = <String as vstd::string::StringExecFns>::from_str(
                        "invalid char, expected + or - or 0-9",
                    );
                    return (Err(TokenizerError::InvalidNumber { msg, start, end: k }), k);
                },
                NumSt::Main => {
                    return finish_num_exec(chars, start, k);
                },
                NumSt::DotDig => {
                    return finish_num_exec(chars, start, k);
                },
                NumSt::Ed => {
                    return finish_num_exec(chars, start, k);
                },
            }
        }
        let c = chars[kc];
        match st {
            NumSt::Zero => {
                if c == '0' {
                    let msg = <String as vstd::string::StringExecFns>::from_str(
                        "Too many leading zeros",
                    );
                    let k1 = pos_step(chars, k);
                    return (Err(TokenizerError::InvalidNumber { msg, start, end: k }), k1);
                } else if digit_char(c) {
                    st = NumSt::Main;
                    k = pos_step(chars, k);
                } else if c == 'e' || c == 'E' {
                    st = NumSt::Epm;
                    k = pos_step(chars, k);
                } else if c == '.' {
                    st = NumSt::DotDig;
                    k = pos_step(chars, k);
                } else {
                    let text = copy_range(chars, start.char_index, kc);
                    let tok = Token::Value(JsonValue::Num(chars_string(text.as_slice())));
                    return (Ok(TokenFull::new(tok, start, k)), k);
                }
            },
            NumSt::Main => {
                if digit_char(c) {
                    k = pos_step(chars, k);
                } else if c == 'e' || c == 'E' {
                    st = NumSt::Epm;
                    k = pos_step(chars, k);
                } else if c == '.' {
                    st = NumSt::DotDig;
                    k = pos_step(chars, k);
                } else {
                    return finish_num_exec(chars, start, k);
                }
            },
            NumSt::DotDig => {
                if digit_char(c) {
                    k = pos_step(chars, k);
                } else if c == 'e' || c == 'E' {
                    st = NumSt::Epm;
                    k = pos_step(chars, k);
                } else {
                    return finish_num_exec(chars, start, k);
                }
            },
            NumSt::Epm => {
                if c == '+' || c == '-' || digit_char(c) {
                    st = NumSt::Ed;
                    k = pos_step(chars, k);
                } else {
                    let msg = <String as vstd::string::StringExecFns>::from_str(
                        "invalid char, expected + or - or 0-9",
                    );
                    let k1 = pos_step(chars, k);
                    return (Err(TokenizerError::InvalidNumber { msg, start, end: k }), k1);
                }
            },
            NumSt::Ed => {
                if digit_char(c) {
                    k = pos_step(chars, k);
                } else {
                    return finish_num_exec(chars, start, k);
                }
            },
        }
    }
}

#[verifier::loop_isolation(false)]
fn run_json(chars: &Vec<char>, start: TokenizerPosition, k0: TokenizerPosition, obj: bool) -> (out:
    (Result<TokenFull, TokenizerError>, TokenizerPosition))
    requires
        pos_wf(chars@, start),
        pos_wf(chars@, k0),
        start.char_index < k0.char_index,
        bytes_len(chars@) <= usize::MAX,
    ensures
        step_matches(
            chars@,
            lex_json(chars@, start.char_index as int, k0.char_index as int, obj, 1),
            out.0,
            out.1,
        ),
        out.1.char_index <= chars@.len(),
{
    let ghost s = chars@;
    let ghost j = start.char_index as int;
    let ghost target = lex_json(s, j, k0.char_index as int, obj, 1);
    let mut in_str = false;
    let mut depth: usize = 1;
    let mut k = k0;
    let len = chars.len();
    let closec = if obj {
        '}'
    } else {
        ']'
    };
    let openc = if obj {
        '{'
    } else {
        '['
    };
    loop
        invariant
            s == chars@,
            len == s.len(),
            pos_wf(s, start),
            pos_wf(s, k),
            j == start.char_index as int,
            j < k.char_index,
            bytes_len(s) <= usize::MAX,
            1 <= depth <= k.char_index,
            closec == json_close(obj),
            openc == json_open(obj),
            (if in_str {
                lex_json_str(s, j, k.char_index as int, obj, depth as int)
            } else {
                lex_json(s, j, k.char_index as int, obj, depth as int)
            }) == target,
        decreases s.len() - k.char_index,
    {
        let kc = k.char_index;
        if kc == len {
            if in_str {
                return (Err(TokenizerError::UnclosedString(start)), k);
            } else {
                return (Err(TokenizerError::UnclosedJson(start)), k);
            }
        }
        let c = chars[kc];
        if in_str {
            if c == '"' {
                in_str = false;
                k = pos_step(chars, k);
            } else if c == '\\' {
                let k1 = pos_step(chars, k);
                if k1.char_index == len {
                    return (Err(TokenizerError::UnclosedString(start)), k1);
                }
                k = pos_step(chars, k1);
            } else {
                k = pos_step(chars, k);
            }
        } else {
            if c == closec {
                if depth == 1 {
                    let end = pos_step(chars, k);
                    let span = copy_range(chars, start.char_index, end.char_index);
                    let string = chars_string(span.as_slice());
                    match check_json_text(string.as_str()) {
                        Ok(u) => {
                            let tok = Token::Value(JsonValue::Data(string));
                            return (Ok(TokenFull::new(tok, start, end)), end);
                        },
                        Err(m) => {
                            return (
                                Err(TokenizerError::InvalidJson { msg: m, start, end: k }),
                                end,
                            );
                        },
                    }
                } else {
                    depth = depth - 1;
                    k = pos_step(chars, k);
                }
            } else if c == openc {
                depth = depth + 1;
                k = pos_step(chars, k);
            } else if c == '"' {
                in_str = true;
                k = pos_step(chars, k);
            } else {
                k = pos_step(chars, k);
            }
        }
    }
}

/// The tokenizer over a fixed source string; `next` yields one token or
/// error per call, as `lex_from` describes, until the input is exhausted.
pub struct Tokenizer {
    chars: Vec<char>,
    current: TokenizerPosition,
}

impl Tokenizer {
    /// The characters of the source string.
    pub closed spec fn input(&self) -> Seq<char> {
        self.chars@
    }

    /// The committed position: the character offset where the next token
    /// attempt begins.
    pub closed spec fn pos(&self) -> int {
        self.current.char_index as int
    }

    /// Internal well-formedness: the committed byte offset agrees with the
    /// committed character offset.
    pub closed spec fn wf(&self) -> bool {
        &&& pos_wf(self.chars@, self.current)
        &&& bytes_len(self.chars@) <= usize::MAX
    }


    /// The committed position always lies within the input.
    pub proof fn lemma_wf_bounds(&self)
        requires
            self.wf(),
        ensures
            0 <= self.pos() <= self.input().len(),
    {
    }

    pub fn new(str: &str) -> (t: Self)
        ensures
            t.wf(),
            t.input() == str@,
            t.pos() == 0,
    {
        let chars = str_chars(str);
        proof {
            assert(chars@.take(0) =~= Seq::<char>::empty());
            assert(vstd::utf8::encode_utf8(Seq::<char>::empty()) =~= Seq::<u8>::empty());
        }
        Tokenizer { chars, current: TokenizerPosition { byte_index: 0, char_index: 0 } }
    }

    /// Read the next token. Returns `None` when only whitespace remains;
    /// otherwise returns the token or lexical error that the model gives at
    /// the committed position, and advances to the model's resume position.
    #[verifier::loop_isolation(false)]
    pub fn next(&mut self) -> (r: Option<Result<TokenFull, TokenizerError>>)
        requires
            old(self).wf(),
        ensures
            final(self).wf(),
            final(self).input() == old(self).input(),
            match lex_from(old(self).input(), old(self).pos()) {
                None => r is None && final(self).pos() == old(self).input().len(),
                Some(lr) => {
                    &&& final(self).pos() == lr.resume
                    &&& match r {
                        Some(res) => out_matches(old(self).input(), lr.out, res),
                        None => false,
                    }
                },
            },
    {
        let ghost s = self.chars@;
        let ghost i0 = self.current.char_index as int;
        let len = self.chars.len();
        loop
            invariant
                s == self.chars@,
                len == s.len(),
                pos_wf(s, self.current),
                bytes_len(s) <= usize::MAX,
                skip_ws(s, i0) == skip_ws(s, self.current.char_index as int),
            decreases s.len() - self.current.char_index,
        {
            let kc = self.current.char_index;
            if kc == len {
                break;
            }
            let c = self.chars[kc];
            if ws_char(c) {
                self.current = pos_step(&self.chars, self.current);
            } else {
                break;
            }
        }
        let jc = self.current.char_index;
        proof {
            assert(skip_ws(s, jc as int) == jc as int);
        }
        if jc == len {
            return None;
        }
        let start = self.current;
        let ghost j = jc as int;
        let c = self.chars[jc];

        // Single-character structural tokens.
        let single: Option<Token> = if c == '(' {
            Some(Token::LPar)
        } else if c == ')' {
            Some(Token::RPar)
        } else if c == '|' {
            Some(Token::Or)
        } else if c == '&' {
            Some(Token::And)
        } else if c == '>' {
            Some(Token::Gt)
        } else if c == '<' {
            Some(Token::Lt)
        } else if c == '=' {
            Some(Token::Eq)
        } else if c == '*' {
            Some(Token::Star)
        } else if c == '^' {
            Some(Token::Carrot)
        } else if c == ':' {
            Some(Token::Colon)
        } else if c == '!' {
            Some(Token::Bang)
        } else if c == ';' {
            Some(Token::Semicolon)
        } else {
            None
        };
        match single {
            Some(tok) => {
                let end = pos_step(&self.chars, self.current);
                self.current = end;
                return Some(Ok(TokenFull::new(tok, start, end)));
            },
            None => {
            },
        }

        let (res, resume) = if c == '[' {
            let k0 = pos_step(&self.chars, self.current);
            run_json(&self.chars, start, k0, false)
        } else if c == '{' {
            let k0 = pos_step(&self.chars, self.current);
            run_json(&self.chars, start, k0, true)
        } else if c == '-' {
            let k1 = pos_step(&self.chars, self.current);
            if k1.char_index < len && self.chars[k1.char_index] == '0' {
                let k2 = pos_step(&self.chars, k1);
                run_num(&self.chars, start, k2, NumSt::Zero)
            } else {
                run_num(&self.chars, start, k1, NumSt::Main)
            }
        } else if c == '0' {
            let k0 = pos_step(&self.chars, self.current);
            run_num(&self.chars, start, k0, NumSt::Zero)
        } else if digit_char(c) {
            let k0 = pos_step(&self.chars, self.current);
            run_num(&self.chars, start, k0, NumSt::Main)
        } else if c == '"' {
            let k0 = pos_step(&self.chars, self.current);
            run_str(&self.chars, start, k0)
        } else if alpha_char(c) {
            let k0 = pos_step(&self.chars, self.current);
            run_path(&self.chars, start, k0)
        } else {
            let k0 = pos_step(&self.chars, self.current);
            (Err(TokenizerError::InvalidChar(c, start)), k0)
        };
        self.current = resume;
        Some(res)
    }
}

} // verus!
