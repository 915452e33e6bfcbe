use qc_search::tokenizer::Tokenizer;
use qc_search::tokens::{JsonValue, Token, TokenizerError, TokenizerPosition, TokenFull, ErrorFull};

fn all_tokens(src: &str) -> Vec<Result<TokenFull, TokenizerError>> {
    let mut t = Tokenizer::new(src);
    let mut out = Vec::new();
    while let Some(r) = t.next() {
        out.push(r);
    }
    out
}

fn first(src: &str) -> Result<TokenFull, TokenizerError> {
    Tokenizer::new(src).next().expect("expected a token")
}

#[test]
fn structural_tokens() {
    let toks = all_tokens("()|&<>=*^:!;");
    let expect = [
        Token::LPar,
        Token::RPar,
        Token::Or,
        Token::And,
        Token::Lt,
        Token::Gt,
        Token::Eq,
        Token::Star,
        Token::Carrot,
        Token::Colon,
        Token::Bang,
        Token::Semicolon,
    ];
    assert_eq!(toks.len(), expect.len());
    for (r, e) in toks.iter().zip(expect.iter()) {
        assert_eq!(&r.as_ref().unwrap().data, e);
    }
}

#[test]
fn ident_and_keywords() {
    assert_eq!(first("hello ").unwrap().data, Token::Ident("hello".to_string()));
    assert_eq!(first("a_1b").unwrap().data, Token::Ident("a_1b".to_string()));
    assert_eq!(first("true").unwrap().data, Token::Value(JsonValue::Bool(true)));
    assert_eq!(first("FALSE").unwrap().data, Token::Value(JsonValue::Bool(false)));
    assert_eq!(first("Null").unwrap().data, Token::Value(JsonValue::Null));
    // keywords only as the whole identifier
    assert_eq!(first("truest").unwrap().data, Token::Ident("truest".to_string()));
}

#[test]
fn escape_round_trip() {
    // the source "a\"b" denotes the value literal a"b
    let tok = first("\"a\\\"b\"").unwrap();
    assert_eq!(tok.data, Token::Value(JsonValue::Str("a\"b".to_string())));
    let tok = first("\"x\\\\y\\0z\"").unwrap();
    assert_eq!(tok.data, Token::Value(JsonValue::Str("x\\y\0z".to_string())));
}

#[test]
fn number_grammar_edges() {
    assert_eq!(first("0").unwrap().data, Token::Value(JsonValue::Num("0".to_string())));
    assert!(matches!(first("00"), Err(TokenizerError::InvalidNumber { .. })));
    assert!(matches!(first("1."), Err(TokenizerError::InvalidNumber { .. })));
    assert!(matches!(first("1e"), Err(TokenizerError::InvalidNumber { .. })));
    assert_eq!(first("1e3").unwrap().data, Token::Value(JsonValue::Num("1e3".to_string())));
    assert_eq!(first("-12.5e-2").unwrap().data, Token::Value(JsonValue::Num("-12.5e-2".to_string())));
    assert_eq!(first("10 ").unwrap().data, Token::Value(JsonValue::Num("10".to_string())));
}

#[test]
fn paths() {
    assert_eq!(first("a.b.c").unwrap().data, Token::Path("a.b.c".to_string()));
    assert_eq!(first("a[0].b[#][-1]").unwrap().data, Token::Path("a[0].b[#][-1]".to_string()));
    assert!(matches!(first("a."), Err(TokenizerError::UnfinishedPathDot(_))));
    assert!(matches!(first("a.1"), Err(TokenizerError::InvalidPath('1', _))));
    assert!(matches!(first("a[1"), Err(TokenizerError::UnclosedPathIndex(_))));
    assert!(matches!(first("a[]"), Err(TokenizerError::InvalidPath(']', _))));
    assert!(matches!(first("a[x]"), Err(TokenizerError::InvalidPath('x', _))));
}

#[test]
fn string_errors() {
    assert!(matches!(first("\"ab"), Err(TokenizerError::UnclosedString(_))));
    assert!(matches!(first("\"ab\\"), Err(TokenizerError::UnfinishedEscape(_))));
    assert!(matches!(first("\"a\\xb\""), Err(TokenizerError::InvalidEscape('x', _))));
    assert!(matches!(first("$"), Err(TokenizerError::InvalidChar('$', _))));
}

#[test]
fn json_spans() {
    assert_eq!(first("[1, 2]").unwrap().data, Token::Value(JsonValue::Data("[1, 2]".to_string())));
    assert_eq!(
        first("{\"a\": [1]}").unwrap().data,
        Token::Value(JsonValue::Data("{\"a\": [1]}".to_string()))
    );
    // structural characters inside embedded strings do not count
    assert_eq!(
        first("{\"}\": 1}").unwrap().data,
        Token::Value(JsonValue::Data("{\"}\": 1}".to_string()))
    );
    // nested brackets of the same kind
    assert_eq!(first("[[1],[2]]").unwrap().data, Token::Value(JsonValue::Data("[[1],[2]]".to_string())));
    assert!(matches!(first("[1"), Err(TokenizerError::UnclosedJson(_))));
    assert!(matches!(first("[,]"), Err(TokenizerError::InvalidJson { .. })));
}

#[test]
fn spans_and_positions() {
    let toks = all_tokens("ab =  \"x\"");
    assert_eq!(toks.len(), 3);
    let t0 = toks[0].as_ref().unwrap();
    assert_eq!((t0.start.byte_index, t0.start.char_index), (0, 0));
    assert_eq!((t0.end.byte_index, t0.end.char_index), (2, 2));
    let t1 = toks[1].as_ref().unwrap();
    assert_eq!((t1.start.byte_index, t1.start.char_index), (3, 3));
    assert_eq!((t1.end.byte_index, t1.end.char_index), (4, 4));
    let t2 = toks[2].as_ref().unwrap();
    assert_eq!((t2.start.byte_index, t2.start.char_index), (6, 6));
    assert_eq!((t2.end.byte_index, t2.end.char_index), (9, 9));
}

#[test]
fn byte_and_char_offsets_differ() {
    // a two-byte character inside a string literal
    let toks = all_tokens("\u{e9} = 1");
    // the first token attempt: 'é' is not an accepted character
    assert!(matches!(toks[0], Err(TokenizerError::InvalidChar('\u{e9}', _))));

    let toks = all_tokens("\"\u{e9}\" < x < \"b\"");
    let t0 = toks[0].as_ref().unwrap();
    assert_eq!(t0.data, Token::Value(JsonValue::Str("\u{e9}".to_string())));
    assert_eq!((t0.start.byte_index, t0.start.char_index), (0, 0));
    // one quote + two bytes + one quote
    assert_eq!((t0.end.byte_index, t0.end.char_index), (4, 3));
    let t1 = toks[1].as_ref().unwrap();
    assert_eq!((t1.start.byte_index, t1.start.char_index), (5, 4));
}

#[test]
fn spans_reconstruct_source() {
    // concatenating the token spans gives the source minus skipped whitespace
    let src = "a = \"x y\" & ( b < [1, 2] )";
    let toks = all_tokens(src);
    let mut rebuilt = String::new();
    let mut last_end = 0usize;
    for t in toks.iter() {
        let t = t.as_ref().unwrap();
        // the gap holds only whitespace
        assert!(src[last_end..t.start.byte_index].chars().all(|c| c.is_whitespace()));
        rebuilt.push_str(&src[t.start.byte_index..t.end.byte_index]);
        last_end = t.end.byte_index;
    }
    assert!(src[last_end..].chars().all(|c| c.is_whitespace()));
    assert_eq!(rebuilt, "a=\"x y\"&(b<[1, 2])");
}

#[test]
fn tokenizer_resumes_after_error() {
    let toks = all_tokens("$ a");
    assert!(matches!(toks[0], Err(TokenizerError::InvalidChar('$', _))));
    assert_eq!(toks[1].as_ref().unwrap().data, Token::Ident("a".to_string()));
    assert_eq!(toks.len(), 2);
}

#[test]
fn error_full_holds_span() {
    let err = TokenizerError::UnclosedString(TokenizerPosition { byte_index: 0, char_index: 0 });
    let full = ErrorFull::new(
        err.clone(),
        TokenizerPosition { byte_index: 0, char_index: 0 },
        TokenizerPosition { byte_index: 3, char_index: 3 },
    );
    assert_eq!(full.data, err);
    assert_eq!(full.end.byte_index, 3);
}
