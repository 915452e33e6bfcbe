use qc_search::checklist::{
    encode_checklist, parse_checklist, ChecklistParseError, QCChecklist, QuestionAnswer,
    QuestionAnswerError, QuestionAnswers,
};
use qc_search::parser::ExpressionParser;
use qc_search::visitors::{render_json_value, VisitorTest};
use qc_search::tokens::JsonValue;

#[test]
fn answer_codes() {
    assert_eq!(QuestionAnswer::Incomplete.as_char(), 'i');
    assert_eq!(QuestionAnswer::Pass.as_char(), 'p');
    assert_eq!(QuestionAnswer::Fail.as_char(), 'f');
    assert_eq!(QuestionAnswer::NA.as_char(), 'n');
}

#[test]
fn answer_from_char_round_trip() {
    for a in [
        QuestionAnswer::Incomplete,
        QuestionAnswer::Pass,
        QuestionAnswer::Fail,
        QuestionAnswer::NA,
    ] {
        assert_eq!(QuestionAnswer::from_char(a.as_char()), Ok(a));
    }
    assert_eq!(QuestionAnswer::from_char('P'), Ok(QuestionAnswer::Pass));
    assert_eq!(QuestionAnswer::from_char('x'), Err(QuestionAnswerError::InvalidChar('x')));
}

#[test]
fn answers_encode() {
    let q = QuestionAnswers([QuestionAnswer::Pass, QuestionAnswer::Fail]);
    assert_eq!(q.encode(), "pf");
    let q = QuestionAnswers::from_chars('N', 'i').unwrap();
    assert_eq!(q.encode(), "ni");
    assert!(QuestionAnswers::from_chars('p', 'q').is_err());
}

#[test]
fn empty_checklist() {
    let c = QCChecklist::new();
    assert!(c.0.is_empty());
}

#[test]
fn json_value_rendering() {
    assert_eq!(render_json_value(&JsonValue::Null), "null");
    assert_eq!(render_json_value(&JsonValue::Bool(true)), "true");
    assert_eq!(render_json_value(&JsonValue::Num("1e3".to_string())), "1e3");
    assert_eq!(render_json_value(&JsonValue::Str("a\"b\\c".to_string())), "\"a\\\"b\\\\c\"");
    assert_eq!(render_json_value(&JsonValue::Data("[1]".to_string())), "[1]");
}

#[test]
fn visitor_test_is_stateless() {
    // one VisitorTest instance reused across parses leaks no state
    let mut v = VisitorTest::new();
    let a = ExpressionParser::new("a=1").parse(&mut v).unwrap();
    let b = ExpressionParser::new("a=1").parse(&mut v).unwrap();
    assert_eq!(a, b);
}

#[test]
fn checklist_text_round_trip() {
    let entries = vec![
        ("boot".to_string(), QuestionAnswers([QuestionAnswer::Pass, QuestionAnswer::Fail])),
        ("screen".to_string(), QuestionAnswers([QuestionAnswer::NA, QuestionAnswer::Incomplete])),
    ];
    let text = encode_checklist(&entries);
    assert_eq!(text, "boot:pf,screen:ni,");
    let back = parse_checklist(&text).unwrap();
    assert_eq!(back, entries);
}

#[test]
fn checklist_text_parsing() {
    // trailing and repeated commas are allowed, entries keep their order
    let v = parse_checklist(",,a:pp,,b:ff,").unwrap();
    assert_eq!(v.len(), 2);
    assert_eq!(v[0].0, "a");
    assert_eq!(v[0].1, QuestionAnswers([QuestionAnswer::Pass, QuestionAnswer::Pass]));
    assert_eq!(v[1].0, "b");
    assert!(parse_checklist("").unwrap().is_empty());
}

#[test]
fn checklist_text_errors() {
    assert_eq!(parse_checklist("abc"), Err(ChecklistParseError::MissingColon));
    assert_eq!(parse_checklist("a:p"), Err(ChecklistParseError::InvalidAnswerLength));
    assert_eq!(parse_checklist("a:ppp"), Err(ChecklistParseError::InvalidAnswerLength));
    assert_eq!(parse_checklist("a:px"), Err(ChecklistParseError::InvalidAnswer('x')));
    // the first malformed entry decides
    assert_eq!(parse_checklist("a:pp,bad,c:ff"), Err(ChecklistParseError::MissingColon));
}
