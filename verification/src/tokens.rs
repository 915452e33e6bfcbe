//! Lexical tokens, literal values, spans and lexical errors, together with
//! their mathematical models.

use vstd::prelude::*;
use crate::chars::bytes_len;

verus! {

/// A source position: byte offset and character offset advance together,
/// one scalar character at a time.
#[derive(Default, Clone, Copy, Debug, Eq, PartialEq, Structural)]
pub struct TokenizerPosition {
    pub byte_index: usize,
    pub char_index: usize,
}

/// Model of a position: byte and character offset as unbounded integers.
#[verifier::ext_equal]
pub struct PosM {
    pub byte: int,
    pub char: int,
}

impl View for TokenizerPosition {
    type V = PosM;

    open spec fn view(&self) -> PosM {
        PosM { byte: self.byte_index as int, char: self.char_index as int }
    }
}

/// The position whose character offset in `s` is `k`.
pub open spec fn pos_at(s: Seq<char>, k: int) -> PosM {
    PosM { byte: bytes_len(s.take(k)), char: k }
}

/// A literal value of the query grammar, as JSON-typed data. Numeric and
/// structured literals carry their validated source text.
#[derive(Debug, Eq, PartialEq, Clone)]
pub enum JsonValue {
    Null,
    Bool(bool),
    /// A number, as its source text (validated against the JSON number
    /// grammar).
    Num(String),
    /// A string literal with its escapes already decoded.
    Str(String),
    /// A balanced `[...]` or `{...}` span, validated as JSON.
    Data(String),
}

/// Model of a literal value.
#[verifier::ext_equal]
pub enum JsonM {
    JNull,
    JBool(bool),
    JNum(Seq<char>),
    JStr(Seq<char>),
    JData(Seq<char>),
}

impl View for JsonValue {
    type V = JsonM;

    open spec fn view(&self) -> JsonM {
        match self {
            JsonValue::Null => JsonM::JNull,
            JsonValue::Bool(b) => JsonM::JBool(*b),
            JsonValue::Num(t) => JsonM::JNum(t@),
            JsonValue::Str(t) => JsonM::JStr(t@),
            JsonValue::Data(t) => JsonM::JData(t@),
        }
    }
}

/// A lexical token.
#[derive(Debug, Eq, PartialEq, Clone)]
pub enum Token {
    LPar,
    RPar,
    Or,
    And,
    Lt,
    Gt,
    Colon,
    Semicolon,
    Carrot,
    Star,
    Bang,
    Eq,
    Ident(String),
    Path(String),
    Value(JsonValue),
}

/// Model of a token.
#[verifier::ext_equal]
pub enum TokenM {
    LPar,
    RPar,
    Or,
    And,
    Lt,
    Gt,
    Colon,
    Semicolon,
    Carrot,
    Star,
    Bang,
    Eq,
    Ident(Seq<char>),
    Path(Seq<char>),
    Value(JsonM),
}

impl View for Token {
    type V = TokenM;

    open spec fn view(&self) -> TokenM {
        match self {
            Token::LPar => TokenM::LPar,
            Token::RPar => TokenM::RPar,
            Token::Or => TokenM::Or,
            Token::And => TokenM::And,
            Token::Lt => TokenM::Lt,
            Token::Gt => TokenM::Gt,
            Token::Colon => TokenM::Colon,
            Token::Semicolon => TokenM::Semicolon,
            Token::Carrot => TokenM::Carrot,
            Token::Star => TokenM::Star,
            Token::Bang => TokenM::Bang,
            Token::Eq => TokenM::Eq,
            Token::Ident(t) => TokenM::Ident(t@),
            Token::Path(t) => TokenM::Path(t@),
            Token::Value(v) => TokenM::Value(v@),
        }
    }
}

/// A token together with its source span; `start` and `end` delimit exactly
/// the characters the token was read from.
#[derive(Debug, Clone)]
pub struct TokenFull {
    pub data: Token,
    pub start: TokenizerPosition,
    pub end: TokenizerPosition,
}

/// Model of a spanned token.
#[verifier::ext_equal]
pub struct TokFullM {
    pub data: TokenM,
    pub start: PosM,
    pub end: PosM,
}

impl View for TokenFull {
    type V = TokFullM;

    open spec fn view(&self) -> TokFullM {
        TokFullM { data: self.data@, start: self.start@, end: self.end@ }
    }
}

impl TokenFull {
    pub fn new(data: Token, start: TokenizerPosition, end: TokenizerPosition) -> (r: Self)
        ensures
            r@ == (TokFullM { data: data@, start: start@, end: end@ }),
    {
        Self { data, start, end }
    }
}

/// A lexical error; each variant carries the offending position or span.
#[derive(Debug, Clone, Eq, PartialEq)]
pub enum TokenizerError {
    InvalidChar(char, TokenizerPosition),
    UnclosedString(TokenizerPosition),
    UnfinishedEscape(TokenizerPosition),
    InvalidEscape(char, TokenizerPosition),
    InvalidPath(char, &'static str),
    UnclosedPathIndex(TokenizerPosition),
    UnfinishedPathDot(TokenizerPosition),
    UnclosedJson(TokenizerPosition),
    InvalidJson { msg: String, start: TokenizerPosition, end: TokenizerPosition },
    InvalidNumber { msg: String, start: TokenizerPosition, end: TokenizerPosition },
}

/// Model of a lexical error.
#[verifier::ext_equal]
pub enum LexErrM {
    InvalidChar(char, PosM),
    UnclosedString(PosM),
    UnfinishedEscape(PosM),
    InvalidEscape(char, PosM),
    InvalidPath(char, Seq<char>),
    UnclosedPathIndex(PosM),
    UnfinishedPathDot(PosM),
    UnclosedJson(PosM),
    InvalidJson { msg: Seq<char>, start: PosM, end: PosM },
    InvalidNumber { msg: Seq<char>, start: PosM, end: PosM },
}

impl View for TokenizerError {
    type V = LexErrM;

    open spec fn view(&self) -> LexErrM {
        match self {
            TokenizerError::InvalidChar(c, p) => LexErrM::InvalidChar(*c, p@),
            TokenizerError::UnclosedString(p) => LexErrM::UnclosedString(p@),
            TokenizerError::UnfinishedEscape(p) => LexErrM::UnfinishedEscape(p@),
            TokenizerError::InvalidEscape(c, p) => LexErrM::InvalidEscape(*c, p@),
            TokenizerError::InvalidPath(c, m) => LexErrM::InvalidPath(*c, m@),
            TokenizerError::UnclosedPathIndex(p) => LexErrM::UnclosedPathIndex(p@),
            TokenizerError::UnfinishedPathDot(p) => LexErrM::UnfinishedPathDot(p@),
            TokenizerError::UnclosedJson(p) => LexErrM::UnclosedJson(p@),
            TokenizerError::InvalidJson { msg, start, end } => LexErrM::InvalidJson {
                msg: msg@,
                start: start@,
                end: end@,
            },
            TokenizerError::InvalidNumber { msg, start, end } => LexErrM::InvalidNumber {
                msg: msg@,
                start: start@,
                end: end@,
            },
        }
    }
}

/// A lexical error together with the span it was found at.
#[derive(Debug, Clone)]
pub struct ErrorFull {
    pub data: TokenizerError,
    pub start: TokenizerPosition,
    pub end: TokenizerPosition,
}

impl ErrorFull {
    pub fn new(data: TokenizerError, start: TokenizerPosition, end: TokenizerPosition) -> (r: Self)
        ensures
            r.data@ == data@,
            r.start == start,
            r.end == end,
    {
        Self { data, start, end }
    }
}

} // verus!
