use qc_search::columns::{
    sql_value_render, verify_column, ColumnType, SearchVisitor, VisitorError,
};
use qc_search::parser::{ExpressionParser, ExpressionParserError, Visitor};
use qc_search::tokens::JsonValue;

fn compile(src: &str) -> Result<String, ExpressionParserError<VisitorError>> {
    let mut v = SearchVisitor::new();
    ExpressionParser::new(src).parse(&mut v)
}

#[test]
fn column_registry() {
    let ci = verify_column("id").unwrap();
    assert_eq!(ci.column_name, "id");
    assert!(ci.nullable);
    assert!(matches!(ci.col_type, ColumnType::PrimaryId));

    let ci = verify_column("oem_serial").unwrap();
    assert!(!ci.nullable);
    assert!(matches!(ci.col_type, ColumnType::Text));

    let ci = verify_column("metadata").unwrap();
    assert!(matches!(ci.col_type, ColumnType::Json));

    assert!(matches!(verify_column("ghost"), Err("ghost")));
}

#[test]
fn unknown_field_is_a_visitor_error() {
    // a Visitor that rejects the field makes the parse return the wrapped
    // visitor error, not a generic failure
    match compile("ghost=\"x\"") {
        Err(ExpressionParserError::VisitorError(VisitorError::InvalidColumn(c))) => {
            assert_eq!(c, "ghost");
        }
        other => panic!("expected the wrapped visitor error, got {:?}", other),
    }
}

#[test]
fn eq_null_is_an_is_null_test() {
    assert_eq!(compile("oem_serial=null").unwrap(), "oem_serial IS NULL");
}

#[test]
fn nullable_columns_coalesce() {
    assert_eq!(compile("asm_serial=\"x\"").unwrap(), "ifnull(asm_serial = \"x\", FALSE)");
    assert_eq!(compile("oem_serial=\"x\"").unwrap(), "oem_serial = \"x\"");
}

#[test]
fn relational_null_is_false() {
    assert_eq!(compile("oem_serial<null").unwrap(), "FALSE");
    assert_eq!(compile("oem_serial>null").unwrap(), "FALSE");
    assert_eq!(compile("oem_serial:null").unwrap(), "FALSE");
    assert_eq!(compile("null<oem_serial<\"9\"").unwrap(), "FALSE");
}

#[test]
fn number_rendering_normalizes() {
    // 1e2 denotes the float value 100, and is rendered from the value
    assert_eq!(compile("id=1e2").unwrap(), "ifnull(id = 100, FALSE)");
    assert_eq!(compile("id=12").unwrap(), "ifnull(id = 12, FALSE)");
}

#[test]
fn string_rendering_is_json_quoted() {
    assert_eq!(compile("oem_serial=\"a\\\"b\"").unwrap(), "oem_serial = \"a\\\"b\"");
}

#[test]
fn structured_rendering_normalizes() {
    // the span is re-serialized canonically and wrapped as a JSON string
    assert_eq!(compile("metadata=[1, 2]").unwrap(), "metadata = \"[1,2]\"");
}

#[test]
fn connectives_and_grouping() {
    assert_eq!(
        compile("finalized=true&oem_serial=\"x\"").unwrap(),
        "(finalized = 1 AND oem_serial = \"x\")"
    );
    assert_eq!(
        compile("!(finalized=false)|mso_installed=true").unwrap(),
        "(NOT (finalized = 0) OR mso_installed = 1)"
    );
}

#[test]
fn between_compiles_to_sql_between() {
    assert_eq!(
        compile("\"1\"<oem_serial<\"9\"").unwrap(),
        "oem_serial BETWEEN \"1\" AND \"9\""
    );
    assert_eq!(
        compile("\"1\"<asm_serial<\"9\"").unwrap(),
        "ifnull(asm_serial BETWEEN \"1\" AND \"9\", FALSE)"
    );
}

#[test]
fn rogue_literal_is_rejected() {
    // a literal whose text the JSON decoder rejects never comes from the
    // tokenizer, but the visitor still answers for it
    let mut v = SearchVisitor::new();
    let r = v.eq("id".to_string(), JsonValue::Num("abc".to_string()));
    assert!(matches!(r, Err(VisitorError::JsonParsingError(_))));
}

#[test]
fn sql_value_rendering() {
    assert_eq!(sql_value_render(&JsonValue::Null).unwrap(), "NULL");
    assert_eq!(sql_value_render(&JsonValue::Bool(true)).unwrap(), "1");
    assert_eq!(sql_value_render(&JsonValue::Bool(false)).unwrap(), "0");
    assert_eq!(sql_value_render(&JsonValue::Num("-3.5".to_string())).unwrap(), "-3.5");
    assert_eq!(sql_value_render(&JsonValue::Str("a'b".to_string())).unwrap(), "\"a'b\"");
    assert_eq!(
        sql_value_render(&JsonValue::Data("{\"a\": 1}".to_string())).unwrap(),
        "\"{\\\"a\\\":1}\""
    );
    assert!(sql_value_render(&JsonValue::Num("x".to_string())).is_none());
}
