use qc_search::parser::{ExpressionParser, ExpressionParserError};
use qc_search::tokens::{JsonValue, Token};
use qc_search::visitors::{CompilerVisitor, Node, VisitorTest};

fn render(src: &str) -> Result<String, ExpressionParserError<qc_search::visitors::Infallible>> {
    let mut v = VisitorTest::new();
    ExpressionParser::new(src).parse(&mut v)
}

#[test]
fn operator_precedence_and_over_or() {
    // `&` binds tighter than `|` (a bare identifier is not an atom in this
    // grammar, so the operands are full comparisons)
    assert_eq!(render("a=1&b=2|c=3").unwrap(), "(((a=1)&(b=2))|(c=3))");
    assert_eq!(render("a=1|b=2&c=3").unwrap(), "((a=1)|((b=2)&(c=3)))");
}

#[test]
fn operator_precedence_not_binds_atom() {
    // `!` binds to the next atom only, not to a conjunction's result
    assert_eq!(render("!a=1|b=2").unwrap(), "((!((a=1)))|(b=2))");
    assert_eq!(render("!(a=1|b=2)").unwrap(), "(!(((a=1)|(b=2))))");
}

#[test]
fn left_associative_connectives() {
    assert_eq!(render("a=1|b=2|c=3").unwrap(), "(((a=1)|(b=2))|(c=3))");
    assert_eq!(render("a=1&b=2&c=3").unwrap(), "(((a=1)&(b=2))&(c=3))");
}

#[test]
fn bare_identifier_is_not_an_atom() {
    assert!(matches!(
        render("a&b"),
        Err(ExpressionParserError::UnexpectedTokenReason {
            expected: "Token::Eq | Token::Gt | Token::Lt | Token::Colon",
            ..
        })
    ));
}

#[test]
fn comparison_forms() {
    assert_eq!(render("x=\"v\"").unwrap(), "(x=\"v\")");
    assert_eq!(render("x<1").unwrap(), "(x<1)");
    assert_eq!(render("x>true").unwrap(), "(x>true)");
    assert_eq!(render("x:null").unwrap(), "(x:null)");
}

#[test]
fn between_argument_order() {
    // the Visitor's between receives (low, field, high) in that order
    let mut v = CompilerVisitor::new();
    let res = ExpressionParser::new("\"1\"<age<\"9\"").parse(&mut v).unwrap();
    match res {
        Node::Between(low, ident, high) => {
            assert_eq!(low, JsonValue::Str("1".to_string()));
            assert_eq!(ident, "age");
            assert_eq!(high, JsonValue::Str("9".to_string()));
        }
        other => panic!("expected a between node, got {:?}", other),
    }
}

#[test]
fn deep_nesting_same_result_as_atom() {
    let depth = 300000;
    let mut wrapped = String::new();
    for _ in 0..depth {
        wrapped.push('(');
    }
    wrapped.push_str("a=\"x\"");
    for _ in 0..depth {
        wrapped.push(')');
    }
    let plain = render("a=\"x\"").unwrap();
    let deep = render(&wrapped).unwrap();
    assert_eq!(plain, deep);
}

#[test]
fn repeated_parses_agree() {
    let src = "!(a:\"lol\" | b > \"2\" & c < \"3\") & d=\"5\"";
    let r1 = render(src).unwrap();
    let r2 = render(src).unwrap();
    assert_eq!(r1, r2);
}

#[test]
fn structural_errors() {
    assert!(matches!(render("a="), Err(ExpressionParserError::UnexpectedEndOfExpression)));
    assert!(matches!(render(""), Err(ExpressionParserError::UnexpectedEndOfExpression)));
    assert!(matches!(
        render("&a"),
        Err(ExpressionParserError::UnexpectedKnownToken { expected: Token::Ident(_), .. })
    ));
    assert!(matches!(
        render("a=&"),
        Err(ExpressionParserError::UnexpectedKnownToken { expected: Token::Value(JsonValue::Null), .. })
    ));
    assert!(matches!(
        render("a;1"),
        Err(ExpressionParserError::UnexpectedTokenReason { .. })
    ));
    assert!(matches!(
        render("(a=1 b"),
        Err(ExpressionParserError::UnexpectedTokenReason { expected: "Token::RPar", .. })
    ));
    assert!(matches!(
        render("\"1\"<a>\"2\""),
        Err(ExpressionParserError::UnexpectedTokenReason { expected: "Token::Lt", .. })
    ));
}

#[test]
fn lexical_error_is_fatal() {
    assert!(matches!(render("a=\"x"), Err(ExpressionParserError::TokenizerError(_))));
    assert!(matches!(render("$"), Err(ExpressionParserError::TokenizerError(_))));
}

#[test]
fn path_is_not_a_field_reference() {
    // the parser requires a bare identifier on the left of a comparison
    assert!(matches!(
        render("a.b=\"x\""),
        Err(ExpressionParserError::UnexpectedKnownToken { expected: Token::Ident(_), .. })
    ));
}

#[test]
fn ast_shapes() {
    let mut v = CompilerVisitor::new();
    let res = ExpressionParser::new("!x=\"1\"&y>2").parse(&mut v).unwrap();
    match res {
        Node::And(l, r) => {
            assert!(matches!(*l, Node::Not(_)));
            assert!(matches!(*r, Node::Gt(_, _)));
        }
        other => panic!("expected a conjunction, got {:?}", other),
    }
}
