use qc_search::parser::ExpressionParser;
use qc_search::tokenizer::Tokenizer;
use qc_search::tokens::{JsonValue, Token};
use qc_search::visitors::VisitorTest;
use qc_search::columns::sql_value_render;

#[test]
fn test_parser() {
    let mut search = String::new();
    for _ in 0..5000000 {
        search.push('(');
    }
    search.push_str("hellp:\"lol\"");
    for _ in 0..5000000 {
        search.push(')');
    }
    let mut visitor = VisitorTest::new();
    let mut expr = ExpressionParser::new(&search);
    let res = expr.parse(&mut visitor);
    drop(expr);
    println!("{:#?}", res);
    assert!(res.is_ok());
}

#[test]
fn toknizer_test() {
    let str = r#"{"test": {"wow": 12}, "vals}": "{}"}% & this : "is\" really \\ neat" """" () this is.a test to[0] test[12]  this.is[0].really.nice[1]"#;
    let mut tokenizer = Tokenizer::new(str);

    while let Some(token) = tokenizer.next() {
        match token {
            Ok(ok) => {
                if let Token::Ident(ident) = &ok.data {
                    println!("{:#?}", ok);
                    println!("value: {}", ident);
                } else if let Token::Value(value) = &ok.data {
                    println!("{:#?}", ok);
                    println!("value: {:?}", value);
                } else {
                    println!("{:#?}", ok);
                }
            }
            Err(err) => {
                println!("err: {:#?}", err);
            }
        }
    }
}

#[test]
fn tokenizer_bruh() {
    let str = r#"[{}{,}]  ;"#;
    let mut tokenizer = Tokenizer::new(str);
    while let Some(token) = tokenizer.next() {
        println!("{:#?}", token);
    }
}

#[test]
fn main_bruh() {
    let vals = [
        JsonValue::Bool(false),
        JsonValue::Str("\"'".to_string()),
        JsonValue::Null,
        JsonValue::Data("[false, true, null, \"\\\"' Hii~\", 12]".to_string()),
    ];
    for v in vals.iter() {
        let mut sql = String::from("ifnull(");
        sql.push_str("asm_serial = ");
        sql.push_str(&sql_value_render(v).unwrap());
        sql.push_str(", FALSE)");
        println!("{}", sql);
    }
}
