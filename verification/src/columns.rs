//! The storage layer's column registry and the visitor that compiles a
//! parsed expression to an SQL boolean condition in text form, with
//! null-coalescing semantics for nullable columns.

use vstd::prelude::*;
use crate::chars::str_chars;
use crate::tokens::{JsonValue, JsonM};
use crate::parser::Visitor;
use crate::json::{
    number_check, json_check, number_sql, json_quoted, json_sql, number_sql_render, json_quote,
    json_sql_render,
};

verus! {

/// Equality of two strings by their characters.
fn str_eq_exec(a: &str, b: &str) -> (r: bool)
    ensures
        r == (a@ == b@),
{
    let va = str_chars(a);
    let vb = str_chars(b);
    let n = va.len();
    if n != vb.len() {
        return false;
    }
    let mut i: usize = 0;
    #[verifier::loop_isolation(false)]
    while i < n
        invariant
            i <= n,
            forall|q: int| 0 <= q < i ==> a@[q] == b@[q],
        decreases n - i,
    {
        if va[i] != vb[i] {
            return false;
        }
        i = i + 1;
    }
    proof {
        assert(a@ =~= b@);
    }
    true
}

/// The storage types a column may have.
#[derive(Debug, Clone, Copy, PartialEq, Eq, Structural)]
pub enum ColumnType {
    PrimaryId,
    Number,
    Datetime,
    Text,
    Boolean,
    Real,
    Json,
    QcAnswer,
}

/// One column of the registry: its name, nullability and storage type.
#[derive(Debug)]
pub struct ColumnInfo {
    pub column_name: &'static str,
    pub nullable: bool,
    pub col_type: ColumnType,
}

impl ColumnInfo {
    pub fn new(column_name: &'static str, nullable: bool, col_type: ColumnType) -> (r: Self)
        ensures
            r.column_name@ == column_name@,
            r.nullable == nullable,
            r.col_type == col_type,
    {
        Self { column_name, nullable, col_type }
    }
}

/// Model of one registry entry.
#[verifier::ext_equal]
pub struct ColM {
    pub name: Seq<char>,
    pub nullable: bool,
    pub col_type: ColumnType,
}

/// The fixed column registry: what each known field name maps to.
pub open spec fn column_spec(name: Seq<char>) -> Option<ColM> {
    if name == "id"@ {
        Some(ColM { name: "id"@, nullable: true, col_type: ColumnType::PrimaryId })
    } else if name == "creation_date"@ {
        Some(ColM { name: "creation_date"@, nullable: false, col_type: ColumnType::Datetime })
    } else if name == "last_updated"@ {
        Some(ColM { name: "last_updated"@, nullable: false, col_type: ColumnType::Datetime })
    } else if name == "finalized"@ {
        Some(ColM { name: "finalized"@, nullable: false, col_type: ColumnType::Boolean })
    } else if name == "build_location"@ {
        Some(ColM { name: "build_location"@, nullable: false, col_type: ColumnType::Text })
    } else if name == "build_type"@ {
        Some(ColM { name: "build_type"@, nullable: false, col_type: ColumnType::Text })
    } else if name == "drive_type"@ {
        Some(ColM { name: "drive_type"@, nullable: false, col_type: ColumnType::Text })
    } else if name == "item_serial"@ {
        Some(ColM { name: "item_serial"@, nullable: false, col_type: ColumnType::Text })
    } else if name == "asm_serial"@ {
        Some(ColM { name: "asm_serial"@, nullable: true, col_type: ColumnType::Text })
    } else if name == "oem_serial"@ {
        Some(ColM { name: "oem_serial"@, nullable: false, col_type: ColumnType::Text })
    } else if name == "make_model"@ {
        Some(ColM { name: "make_model"@, nullable: false, col_type: ColumnType::Text })
    } else if name == "mso_installed"@ {
        Some(ColM { name: "mso_installed"@, nullable: false, col_type: ColumnType::Boolean })
    } else if name == "operating_system"@ {
        Some(ColM { name: "operating_system"@, nullable: false, col_type: ColumnType::Text })
    } else if name == "processor_gen"@ {
        Some(ColM { name: "processor_gen"@, nullable: false, col_type: ColumnType::Text })
    } else if name == "processor_type"@ {
        Some(ColM { name: "processor_type"@, nullable: false, col_type: ColumnType::Text })
    } else if name == "qc_answers"@ {
        Some(ColM { name: "qc_answers"@, nullable: false, col_type: ColumnType::QcAnswer })
    } else if name == "qc1_initial"@ {
        Some(ColM { name: "qc1_initial"@, nullable: false, col_type: ColumnType::Text })
    } else if name == "qc2_initial"@ {
        Some(ColM { name: "qc2_initial"@, nullable: true, col_type: ColumnType::Text })
    } else if name == "ram_size"@ {
        Some(ColM { name: "ram_size"@, nullable: false, col_type: ColumnType::Text })
    } else if name == "ram_type"@ {
        Some(ColM { name: "ram_type"@, nullable: false, col_type: ColumnType::Text })
    } else if name == "drive_size"@ {
        Some(ColM { name: "drive_size"@, nullable: false, col_type: ColumnType::Text })
    } else if name == "sales_order"@ {
        Some(ColM { name: "sales_order"@, nullable: true, col_type: ColumnType::Text })
    } else if name == "tech_notes"@ {
        Some(ColM { name: "tech_notes"@, nullable: false, col_type: ColumnType::Text })
    } else if name == "metadata"@ {
        Some(ColM { name: "metadata"@, nullable: false, col_type: ColumnType::Json })
    } else {
        None
    }
}

/// Looks a field name up in the registry; unknown names come back as the
/// error, exactly when `column_spec` has no entry.
pub fn verify_column<'a>(column: &'a str) -> (r: Result<ColumnInfo, &'a str>)
    ensures
        match r {
            Ok(ci) => column_spec(column@) matches Some(cm) && ci.column_name@ == cm.name
                && ci.nullable == cm.nullable && ci.col_type == cm.col_type,
            Err(e) => column_spec(column@) is None && e@ == column@,
        },
{
    if str_eq_exec(column, "id") {
        Ok(ColumnInfo::new("id", true, ColumnType::PrimaryId))
    } else if str_eq_exec(column, "creation_date") {
        Ok(ColumnInfo::new("creation_date", false, ColumnType::Datetime))
    } else if str_eq_exec(column, "last_updated") {
        Ok(ColumnInfo::new("last_updated", false, ColumnType::Datetime))
    } else if str_eq_exec(column, "finalized") {
        Ok(ColumnInfo::new("finalized", false, ColumnType::Boolean))
    } else if str_eq_exec(column, "build_location") {
        Ok(ColumnInfo::new("build_location", false, ColumnType::Text))
    } else if str_eq_exec(column, "build_type") {
        Ok(ColumnInfo::new("build_type", false, ColumnType::Text))
    } else if str_eq_exec(column, "drive_type") {
        Ok(ColumnInfo::new("drive_type", false, ColumnType::Text))
    } else if str_eq_exec(column, "item_serial") {
        Ok(ColumnInfo::new("item_serial", false, ColumnType::Text))
    } else if str_eq_exec(column, "asm_serial") {
        Ok(ColumnInfo::new("asm_serial", true, ColumnType::Text))
    } else if str_eq_exec(column, "oem_serial") {
        Ok(ColumnInfo::new("oem_serial", false, ColumnType::Text))
    } else if str_eq_exec(column, "make_model") {
        Ok(ColumnInfo::new("make_model", false, ColumnType::Text))
    } else if str_eq_exec(column, "mso_installed") {
        Ok(ColumnInfo::new("mso_installed", false, ColumnType::Boolean))
    } else if str_eq_exec(column, "operating_system") {
        Ok(ColumnInfo::new("operating_system", false, ColumnType::Text))
    } else if str_eq_exec(column, "processor_gen") {
        Ok(ColumnInfo::new("processor_gen", false, ColumnType::Text))
    } else if str_eq_exec(column, "processor_type") {
        Ok(ColumnInfo::new("processor_type", false, ColumnType::Text))
    } else if str_eq_exec(column, "qc_answers") {
        Ok(ColumnInfo::new("qc_answers", false, ColumnType::QcAnswer))
    } else if str_eq_exec(column, "qc1_initial") {
        Ok(ColumnInfo::new("qc1_initial", false, ColumnType::Text))
    } else if str_eq_exec(column, "qc2_initial") {
        Ok(ColumnInfo::new("qc2_initial", true, ColumnType::Text))
    } else if str_eq_exec(column, "ram_size") {
        Ok(ColumnInfo::new("ram_size", false, ColumnType::Text))
    } else if str_eq_exec(column, "ram_type") {
        Ok(ColumnInfo::new("ram_type", false, ColumnType::Text))
    } else if str_eq_exec(column, "drive_size") {
        Ok(ColumnInfo::new("drive_size", false, ColumnType::Text))
    } else if str_eq_exec(column, "sales_order") {
        Ok(ColumnInfo::new("sales_order", true, ColumnType::Text))
    } else if str_eq_exec(column, "tech_notes") {
        Ok(ColumnInfo::new("tech_notes", false, ColumnType::Text))
    } else if str_eq_exec(column, "metadata") {
        Ok(ColumnInfo::new("metadata", false, ColumnType::Json))
    } else {
        Err(column)
    }
}

/// Errors a compiling visitor can raise: semantic failures, threaded
/// through the parser untouched.
#[derive(Debug, PartialEq, Eq)]
pub enum VisitorError {
    ExpectedNonNull,
    InvalidTypeUsedWithLikeOperator(&'static str),
    InvalidTypeUsedWithEqOperator(&'static str),
    InvalidTypeUsedWithLtOperator(&'static str),
    InvalidTypeUsedWithGtOperator(&'static str),
    InvalidTypeUsedWithBetweenOperator(&'static str),
    JsonParsingError(String),
    InvalidColumn(String),
}

/// Model of a visitor error.
#[verifier::ext_equal]
pub enum VisitorErrM {
    ExpectedNonNull,
    InvalidTypeUsedWithLikeOperator(Seq<char>),
    InvalidTypeUsedWithEqOperator(Seq<char>),
    InvalidTypeUsedWithLtOperator(Seq<char>),
    InvalidTypeUsedWithGtOperator(Seq<char>),
    InvalidTypeUsedWithBetweenOperator(Seq<char>),
    JsonParsingError(Seq<char>),
    InvalidColumn(Seq<char>),
}

impl View for VisitorError {
    type V = VisitorErrM;

    open spec fn view(&self) -> VisitorErrM {
        match self {
            VisitorError::ExpectedNonNull => VisitorErrM::ExpectedNonNull,
            VisitorError::InvalidTypeUsedWithLikeOperator(t) => VisitorErrM::InvalidTypeUsedWithLikeOperator(
                t@,
            ),
            VisitorError::InvalidTypeUsedWithEqOperator(t) => VisitorErrM::InvalidTypeUsedWithEqOperator(
                t@,
            ),
            VisitorError::InvalidTypeUsedWithLtOperator(t) => VisitorErrM::InvalidTypeUsedWithLtOperator(
                t@,
            ),
            VisitorError::InvalidTypeUsedWithGtOperator(t) => VisitorErrM::InvalidTypeUsedWithGtOperator(
                t@,
            ),
            VisitorError::InvalidTypeUsedWithBetweenOperator(t) => VisitorErrM::InvalidTypeUsedWithBetweenOperator(
                t@,
            ),
            VisitorError::JsonParsingError(t) => VisitorErrM::JsonParsingError(t@),
            VisitorError::InvalidColumn(t) => VisitorErrM::InvalidColumn(t@),
        }
    }
}

/// Whether a literal can be rendered as an SQL literal (numeric and
/// structured literals carry validated text).
pub open spec fn sql_value_ok(v: JsonM) -> bool {
    match v {
        JsonM::JNum(t) => number_check(t) is Ok,
        JsonM::JData(t) => json_check(t) is Ok,
        _ => true,
    }
}

/// The SQL literal text of a literal value.
pub open spec fn sql_value_text(v: JsonM) -> Seq<char> {
    match v {
        JsonM::JNull => "NULL"@,
        JsonM::JBool(b) => if b {
            "1"@
        } else {
            "0"@
        },
        JsonM::JNum(t) => number_sql(t),
        JsonM::JStr(t) => json_quoted(t),
        JsonM::JData(t) => json_sql(t),
    }
}

/// Renders a literal as an SQL literal; fails exactly on texts the JSON
/// decoder rejects.
pub fn sql_value_render(v: &JsonValue) -> (r: Option<String>)
    ensures
        match r {
            Some(t) => sql_value_ok(v@) && t@ == sql_value_text(v@),
            None => !sql_value_ok(v@),
        },
{
    match v {
        JsonValue::Null => Some(<String as vstd::string::StringExecFns>::from_str("NULL")),
        JsonValue::Bool(b) => {
            if *b {
                Some(<String as vstd::string::StringExecFns>::from_str("1"))
            } else {
                Some(<String as vstd::string::StringExecFns>::from_str("0"))
            }
        },
        JsonValue::Num(t) => number_sql_render(t.as_str()),
        JsonValue::Str(t) => Some(json_quote(t.as_str())),
        JsonValue::Data(t) => json_sql_render(t.as_str()),
    }
}

/// The message carried when a literal's text cannot be rendered.
pub open spec fn msg_bad_literal() -> Seq<char> {
    "invalid literal text"@
}

/// The condition compiled for `field op literal` with an SQL comparison
/// operator (`null` compares to nothing: the condition is false; for `eq`
/// see `sql_eq_model`).
pub open spec fn sql_rel_model(op: Seq<char>, ident: Seq<char>, value: JsonM) -> Result<
    Seq<char>,
    VisitorErrM,
> {
    match column_spec(ident) {
        None => Err(VisitorErrM::InvalidColumn(ident)),
        Some(cm) => {
            if value is JNull {
                Ok("FALSE"@)
            } else if !sql_value_ok(value) {
                Err(VisitorErrM::JsonParsingError(msg_bad_literal()))
            } else if cm.nullable {
                Ok("ifnull("@ + cm.name + op + sql_value_text(value) + ", FALSE)"@)
            } else {
                Ok(cm.name + op + sql_value_text(value))
            }
        },
    }
}

/// The condition compiled for `field = literal`; `field = null` becomes an
/// `IS NULL` test.
pub open spec fn sql_eq_model(ident: Seq<char>, value: JsonM) -> Result<Seq<char>, VisitorErrM> {
    match column_spec(ident) {
        None => Err(VisitorErrM::InvalidColumn(ident)),
        Some(cm) => {
            if value is JNull {
                Ok(cm.name + " IS NULL"@)
            } else if !sql_value_ok(value) {
                Err(VisitorErrM::JsonParsingError(msg_bad_literal()))
            } else if cm.nullable {
                Ok("ifnull("@ + cm.name + " = "@ + sql_value_text(value) + ", FALSE)"@)
            } else {
                Ok(cm.name + " = "@ + sql_value_text(value))
            }
        },
    }
}

/// The condition compiled for the between form; a `null` bound makes the
/// condition false.
pub open spec fn sql_between_model(low: JsonM, ident: Seq<char>, high: JsonM) -> Result<
    Seq<char>,
    VisitorErrM,
> {
    match column_spec(ident) {
        None => Err(VisitorErrM::InvalidColumn(ident)),
        Some(cm) => {
            if low is JNull || high is JNull {
                Ok("FALSE"@)
            } else if !sql_value_ok(low) || !sql_value_ok(high) {
                Err(VisitorErrM::JsonParsingError(msg_bad_literal()))
            } else if cm.nullable {
                Ok(
                    "ifnull("@ + cm.name + " BETWEEN "@ + sql_value_text(low) + " AND "@
                        + sql_value_text(high) + ", FALSE)"@,
                )
            } else {
                Ok(cm.name + " BETWEEN "@ + sql_value_text(low) + " AND "@ + sql_value_text(high))
            }
        },
    }
}

/// Compiles a parsed expression to the text of an SQL boolean condition.
/// Unknown fields are rejected; conditions on nullable columns are wrapped
/// in `ifnull(..., FALSE)` so that SQL nulls never satisfy a filter.
#[derive(Debug)]
pub struct SearchVisitor {

}

impl View for SearchVisitor {
    type V = ();

    open spec fn view(&self) -> () {
        ()
    }
}

impl SearchVisitor {
    pub fn new() -> (r: Self)
        ensures
            r@ == (),
    {
        Self {  }
    }
}

fn sql_rel_exec(op: &str, ident: String, value: &JsonValue) -> (r: Result<String, VisitorError>)
    ensures
        match r {
            Ok(t) => sql_rel_model(op@, ident@, value@) matches Ok(tm) && t@ == tm,
            Err(e) => sql_rel_model(op@, ident@, value@) matches Err(em) && e@ == em,
        },
{
    let ci = match verify_column(ident.as_str()) {
        Ok(ci) => ci,
        Err(u) => {
            return Err(VisitorError::InvalidColumn(ident));
        },
    };
    if matches!(value, JsonValue::Null) {
        return Ok(<String as vstd::string::StringExecFns>::from_str("FALSE"));
    }
    let val = match sql_value_render(value) {
        Some(t) => t,
        None => {
            return Err(
                VisitorError::JsonParsingError(
                    <String as vstd::string::StringExecFns>::from_str("invalid literal text"),
                ),
            );
        },
    };
    if ci.nullable {
        let mut out = <String as vstd::string::StringExecFns>::from_str("ifnull(");
        <String as vstd::string::StringExecFns>::append(&mut out, ci.column_name);
        <String as vstd::string::StringExecFns>::append(&mut out, op);
        <String as vstd::string::StringExecFns>::append(&mut out, val.as_str());
        <String as vstd::string::StringExecFns>::append(&mut out, ", FALSE)");
        proof {
            assert(out@ =~= "ifnull("@ + ci.column_name@ + op@ + sql_value_text(value@)
                + ", FALSE)"@);
        }
        Ok(out)
    } else {
        let mut out = <String as vstd::string::StringExecFns>::from_str(ci.column_name);
        <String as vstd::string::StringExecFns>::append(&mut out, op);
        <String as vstd::string::StringExecFns>::append(&mut out, val.as_str());
        proof {
            assert(out@ =~= ci.column_name@ + op@ + sql_value_text(value@));
        }
        Ok(out)
    }
}

impl Visitor<String, VisitorError> for SearchVisitor {
    open spec fn sp_eq(m: (), ident: Seq<char>, value: JsonM) -> (
        (),
        Result<Seq<char>, VisitorErrM>,
    ) {
        (m, sql_eq_model(ident, value))
    }

    open spec fn sp_lt(m: (), ident: Seq<char>, value: JsonM) -> (
        (),
        Result<Seq<char>, VisitorErrM>,
    ) {
        (m, sql_rel_model(" < "@, ident, value))
    }

    open spec fn sp_gt(m: (), ident: Seq<char>, value: JsonM) -> (
        (),
        Result<Seq<char>, VisitorErrM>,
    ) {
        (m, sql_rel_model(" > "@, ident, value))
    }

    open spec fn sp_colon(m: (), ident: Seq<char>, value: JsonM) -> (
        (),
        Result<Seq<char>, VisitorErrM>,
    ) {
        (m, sql_rel_model(" LIKE "@, ident, value))
    }

    open spec fn sp_between(m: (), low: JsonM, ident: Seq<char>, high: JsonM) -> (
        (),
        Result<Seq<char>, VisitorErrM>,
    ) {
        (m, sql_between_model(low, ident, high))
    }

    open spec fn sp_or(m: (), l: Seq<char>, r: Seq<char>) -> ((), Result<Seq<char>, VisitorErrM>) {
        (m, Ok("("@ + l + " OR "@ + r + ")"@))
    }

    open spec fn sp_and(m: (), l: Seq<char>, r: Seq<char>) -> ((), Result<Seq<char>, VisitorErrM>) {
        (m, Ok("("@ + l + " AND "@ + r + ")"@))
    }

    open spec fn sp_not(m: (), e: Seq<char>) -> ((), Result<Seq<char>, VisitorErrM>) {
        (m, Ok("NOT ("@ + e + ")"@))
    }

    fn eq(&mut self, ident: String, value: JsonValue) -> (r: Result<String, VisitorError>) {
        let ci = match verify_column(ident.as_str()) {
            Ok(ci) => ci,
            Err(u) => {
                return Err(VisitorError::InvalidColumn(ident));
            },
        };
        if matches!(value, JsonValue::Null) {
            let mut out = <String as vstd::string::StringExecFns>::from_str(ci.column_name);
            <String as vstd::string::StringExecFns>::append(&mut out, " IS NULL");
            return Ok(out);
        }
        let val = match sql_value_render(&value) {
            Some(t) => t,
            None => {
                return Err(
                    VisitorError::JsonParsingError(
                        <String as vstd::string::StringExecFns>::from_str("invalid literal text"),
                    ),
                );
            },
        };
        if ci.nullable {
            let mut out = <String as vstd::string::StringExecFns>::from_str("ifnull(");
            <String as vstd::string::StringExecFns>::append(&mut out, ci.column_name);
            <String as vstd::string::StringExecFns>::append(&mut out, " = ");
            <String as vstd::string::StringExecFns>::append(&mut out, val.as_str());
            <String as vstd::string::StringExecFns>::append(&mut out, ", FALSE)");
            proof {
                assert(out@ =~= "ifnull("@ + ci.column_name@ + " = "@ + sql_value_text(value@)
                    + ", FALSE)"@);
            }
            Ok(out)
        } else {
            let mut out = <String as vstd::string::StringExecFns>::from_str(ci.column_name);
            <String as vstd::string::StringExecFns>::append(&mut out, " = ");
            <String as vstd::string::StringExecFns>::append(&mut out, val.as_str());
            proof {
                assert(out@ =~= ci.column_name@ + " = "@ + sql_value_text(value@));
            }
            Ok(out)
        }
    }

    fn lt(&mut self, ident: String, value: JsonValue) -> (r: Result<String, VisitorError>) {
        sql_rel_exec(" < ", ident, &value)
    }

    fn gt(&mut self, ident: String, value: JsonValue) -> (r: Result<String, VisitorError>) {
        sql_rel_exec(" > ", ident, &value)
    }

    fn colon(&mut self, ident: String, value: JsonValue) -> (r: Result<String, VisitorError>) {
        sql_rel_exec(" LIKE ", ident, &value)
    }

    fn between(&mut self, low_value: JsonValue, ident: String, high_value: JsonValue) -> (r: Result<
        String,
        VisitorError,
    >) {
        let ci = match verify_column(ident.as_str()) {
            Ok(ci) => ci,
            Err(u) => {
                return Err(VisitorError::InvalidColumn(ident));
            },
        };
        if matches!(low_value, JsonValue::Null) || matches!(high_value, JsonValue::Null) {
            return Ok(<String as vstd::string::StringExecFns>::from_str("FALSE"));
        }
        let lv = match sql_value_render(&low_value) {
            Some(t) => t,
            None => {
                return Err(
                    VisitorError::JsonParsingError(
                        <String as vstd::string::StringExecFns>::from_str("invalid literal text"),
                    ),
                );
            },
        };
        let hv = match sql_value_render(&high_value) {
            Some(t) => t,
            None => {
                return Err(
                    VisitorError::JsonParsingError(
                        <String as vstd::string::StringExecFns>::from_str("invalid literal text"),
                    ),
                );
            },
        };
        if ci.nullable {
            let mut out = <String as vstd::string::StringExecFns>::from_str("ifnull(");
            <String as vstd::string::StringExecFns>::append(&mut out, ci.column_name);
            <String as vstd::string::StringExecFns>::append(&mut out, " BETWEEN ");
            <String as vstd::string::StringExecFns>::append(&mut out, lv.as_str());
            <String as vstd::string::StringExecFns>::append(&mut out, " AND ");
            <String as vstd::string::StringExecFns>::append(&mut out, hv.as_str());
            <String as vstd::string::StringExecFns>::append(&mut out, ", FALSE)");
            proof {
                assert(out@ =~= "ifnull("@ + ci.column_name@ + " BETWEEN "@ + sql_value_text(
                    low_value@,
                ) + " AND "@ + sql_value_text(high_value@) + ", FALSE)"@);
            }
            Ok(out)
        } else {
            let mut out = <String as vstd::string::StringExecFns>::from_str(ci.column_name);
            <String as vstd::string::StringExecFns>::append(&mut out, " BETWEEN ");
            <String as vstd::string::StringExecFns>::append(&mut out, lv.as_str());
            <String as vstd::string::StringExecFns>::append(&mut out, " AND ");
            <String as vstd::string::StringExecFns>::append(&mut out, hv.as_str());
            proof {
                assert(out@ =~= ci.column_name@ + " BETWEEN "@ + sql_value_text(low_value@)
                    + " AND "@ + sql_value_text(high_value@));
            }
            Ok(out)
        }
    }

    fn or(&mut self, ls: String, rs: String) -> (r: Result<String, VisitorError>) {
        let mut out = <String as vstd::string::StringExecFns>::from_str("(");
        <String as vstd::string::StringExecFns>::append(&mut out, ls.as_str());
        <String as vstd::string::StringExecFns>::append(&mut out, " OR ");
        <String as vstd::string::StringExecFns>::append(&mut out, rs.as_str());
        <String as vstd::string::StringExecFns>::append(&mut out, ")");
        proof {
            assert(out@ =~= "("@ + ls@ + " OR "@ + rs@ + ")"@);
        }
        Ok(out)
    }

    fn and(&mut self, ls: String, rs: String) -> (r: Result<String, VisitorError>) {
        let mut out = <String as vstd::string::StringExecFns>::from_str("(");
        <String as vstd::string::StringExecFns>::append(&mut out, ls.as_str());
        <String as vstd::string::StringExecFns>::append(&mut out, " AND ");
        <String as vstd::string::StringExecFns>::append(&mut out, rs.as_str());
        <String as vstd::string::StringExecFns>::append(&mut out, ")");
        proof {
            assert(out@ =~= "("@ + ls@ + " AND "@ + rs@ + ")"@);
        }
        Ok(out)
    }

    fn not(&mut self, expr: String) -> (r: Result<String, VisitorError>) {
        let mut out = <String as vstd::string::StringExecFns>::from_str("NOT (");
        <String as vstd::string::StringExecFns>::append(&mut out, expr.as_str());
        <String as vstd::string::StringExecFns>::append(&mut out, ")");
        proof {
            assert(out@ =~= "NOT ("@ + expr@ + ")"@);
        }
        Ok(out)
    }
}

} // verus!
