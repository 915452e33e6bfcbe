//! The JSON decoder boundary. Numeric texts and balanced bracket/brace spans
//! are validated by serde_json; acceptance and the reported message are
//! functions of the text alone, named here.

use vstd::prelude::*;

verus! {

/// Whether serde_json's number grammar accepts a numeric text, and the
/// message it reports when it does not.
pub uninterp spec fn number_check(s: Seq<char>) -> Result<(), Seq<char>>;

/// Whether serde_json accepts a text as a complete JSON document, and the
/// message it reports when it does not.
pub uninterp spec fn json_check(s: Seq<char>) -> Result<(), Seq<char>>;

/// Relies on `serde_json::Number`'s `FromStr`: it parses the text with
/// serde_json's JSON number grammar, so acceptance and the reported error
/// depend on the text alone.
#[verifier::external_body]
pub fn check_number_text(s: &str) -> (r: Result<(), String>)
    ensures
        match r {
            Ok(u) => number_check(s@) is Ok,
            Err(m) => number_check(s@) matches Err(mm) && m@ == mm,
        },
{
    match <serde_json::Number as core::str::FromStr>::from_str(s) {
        Ok(_) => Ok(()),
        Err(err) => Err(format!("{:?}", err)),
    }
}

/// Relies on `serde_json::from_str::<serde_json::Value>`: it decides whether
/// the text is a well-formed JSON document, so acceptance and the reported
/// error depend on the text alone.
#[verifier::external_body]
pub fn check_json_text(s: &str) -> (r: Result<(), String>)
    ensures
        match r {
            Ok(u) => json_check(s@) is Ok,
            Err(m) => json_check(s@) matches Err(mm) && m@ == mm,
        },
{
    match serde_json::from_str::<serde_json::Value>(s) {
        Ok(_) => Ok(()),
        Err(err) => Err(format!("{:?}", err)),
    }
}


/// The SQL literal text of a JSON number text: serde_json's `Number` value
/// written back, integers plainly (unsigned ones through a wrapping cast to
/// `i64`, as the storage layer expects), other numbers in float notation.
pub uninterp spec fn number_sql(s: Seq<char>) -> Seq<char>;

/// Relies on `serde_json::Number`'s `FromStr` and `Display` formatting of
/// the integer or float value: both depend on the text alone.
#[verifier::external_body]
pub fn number_sql_render(s: &str) -> (r: Option<String>)
    ensures
        match r {
            Some(t) => number_check(s@) is Ok && t@ == number_sql(s@),
            None => !(number_check(s@) is Ok),
        },
{
    match <serde_json::Number as core::str::FromStr>::from_str(s) {
        Err(_) => None,
        Ok(num) => Some(
            if let Some(u) = num.as_u64() {
                format!("{}", u as i64)
            } else if let Some(i) = num.as_i64() {
                format!("{}", i)
            } else if let Some(f) = num.as_f64() {
                format!("{}", f)
            } else {
                num.to_string()
            },
        ),
    }
}

/// A string's JSON encoding (quoted, with serde_json's escapes), a function
/// of the characters alone.
pub uninterp spec fn json_quoted(s: Seq<char>) -> Seq<char>;

/// Relies on `serde_json::to_string` of a JSON string value: the encoding
/// depends on the characters alone. (Serializing a plain string value does
/// not fail; the fallback mirrors the storage layer's.)
#[verifier::external_body]
pub fn json_quote(s: &str) -> (r: String)
    ensures
        r@ == json_quoted(s@),
{
    serde_json::to_string(&serde_json::Value::String(s.to_string())).unwrap_or_else(
        |_| "NULL".to_string(),
    )
}

/// A JSON document's SQL literal text: the document re-serialized
/// canonically, then wrapped as a JSON string; a function of the text alone.
pub uninterp spec fn json_sql(s: Seq<char>) -> Seq<char>;

/// Relies on `serde_json::from_str` and `serde_json::to_string`: parsing,
/// re-serializing and quoting depend on the text alone. (The fallback
/// mirrors the storage layer's.)
#[verifier::external_body]
pub fn json_sql_render(s: &str) -> (r: Option<String>)
    ensures
        match r {
            Some(t) => json_check(s@) is Ok && t@ == json_sql(s@),
            None => !(json_check(s@) is Ok),
        },
{
    match serde_json::from_str::<serde_json::Value>(s) {
        Err(_) => None,
        Ok(v) => Some(
            serde_json::to_string(&v)
                .and_then(|x| serde_json::to_string(&serde_json::Value::String(x)))
                .unwrap_or_else(|_| "NULL".to_string()),
        ),
    }
}
} // verus!
