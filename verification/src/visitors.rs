//! Compilation targets for parsed expressions: a plain syntax tree and a
//! visitor that renders expressions to parenthesized text. Both validate
//! nothing: every grammar primitive succeeds.

use vstd::prelude::*;
use crate::tokens::{JsonValue, JsonM};
use crate::parser::Visitor;

verus! {

/// An error type that these visitors never produce. (The verifier does not
/// accept an empty datatype, so one never-constructed variant stands in.)
#[derive(Debug, Clone, Copy)]
pub enum Infallible {
    Never,
}

impl View for Infallible {
    type V = Infallible;

    open spec fn view(&self) -> Infallible {
        *self
    }
}

/// A plain expression tree, one node per grammar primitive.
#[derive(Debug)]
pub enum Node {
    Eq(String, JsonValue),
    Lt(String, JsonValue),
    Gt(String, JsonValue),
    Between(JsonValue, String, JsonValue),
    Colon(String, JsonValue),
    And(Box<Node>, Box<Node>),
    Or(Box<Node>, Box<Node>),
    Not(Box<Node>),
}

/// Model of an expression tree.
#[verifier::ext_equal]
pub enum NodeM {
    Eq(Seq<char>, JsonM),
    Lt(Seq<char>, JsonM),
    Gt(Seq<char>, JsonM),
    Between(JsonM, Seq<char>, JsonM),
    Colon(Seq<char>, JsonM),
    And(Box<NodeM>, Box<NodeM>),
    Or(Box<NodeM>, Box<NodeM>),
    Not(Box<NodeM>),
}

pub open spec fn node_view(n: Node) -> NodeM
    decreases n,
{
    match n {
        Node::Eq(id, v) => NodeM::Eq(id@, v@),
        Node::Lt(id, v) => NodeM::Lt(id@, v@),
        Node::Gt(id, v) => NodeM::Gt(id@, v@),
        Node::Between(l, id, h) => NodeM::Between(l@, id@, h@),
        Node::Colon(id, v) => NodeM::Colon(id@, v@),
        Node::And(l, r) => NodeM::And(Box::new(node_view(*l)), Box::new(node_view(*r))),
        Node::Or(l, r) => NodeM::Or(Box::new(node_view(*l)), Box::new(node_view(*r))),
        Node::Not(e) => NodeM::Not(Box::new(node_view(*e))),
    }
}

impl View for Node {
    type V = NodeM;

    open spec fn view(&self) -> NodeM {
        node_view(*self)
    }
}

/// Builds the expression tree of a parse: each primitive becomes the
/// matching `Node`, and no input is ever rejected.
#[derive(Debug)]
pub struct CompilerVisitor {

}

impl View for CompilerVisitor {
    type V = ();

    open spec fn view(&self) -> () {
        ()
    }
}

impl CompilerVisitor {
    pub fn new() -> (r: Self)
        ensures
            r@ == (),
    {
        CompilerVisitor {  }
    }
}

impl Visitor<Node, Infallible> for CompilerVisitor {
    open spec fn sp_eq(m: (), ident: Seq<char>, value: JsonM) -> ((), Result<NodeM, Infallible>) {
        (m, Ok(NodeM::Eq(ident, value)))
    }

    open spec fn sp_lt(m: (), ident: Seq<char>, value: JsonM) -> ((), Result<NodeM, Infallible>) {
        (m, Ok(NodeM::Lt(ident, value)))
    }

    open spec fn sp_gt(m: (), ident: Seq<char>, value: JsonM) -> ((), Result<NodeM, Infallible>) {
        (m, Ok(NodeM::Gt(ident, value)))
    }

    open spec fn sp_colon(m: (), ident: Seq<char>, value: JsonM) -> ((), Result<NodeM, Infallible>) {
        (m, Ok(NodeM::Colon(ident, value)))
    }

    open spec fn sp_between(m: (), low: JsonM, ident: Seq<char>, high: JsonM) -> (
        (),
        Result<NodeM, Infallible>,
    ) {
        (m, Ok(NodeM::Between(low, ident, high)))
    }

    open spec fn sp_or(m: (), l: NodeM, r: NodeM) -> ((), Result<NodeM, Infallible>) {
        (m, Ok(NodeM::Or(Box::new(l), Box::new(r))))
    }

    open spec fn sp_and(m: (), l: NodeM, r: NodeM) -> ((), Result<NodeM, Infallible>) {
        (m, Ok(NodeM::And(Box::new(l), Box::new(r))))
    }

    open spec fn sp_not(m: (), e: NodeM) -> ((), Result<NodeM, Infallible>) {
        (m, Ok(NodeM::Not(Box::new(e))))
    }

    fn eq(&mut self, ident: String, value: JsonValue) -> (r: Result<Node, Infallible>) {
        Ok(Node::Eq(ident, value))
    }

    fn lt(&mut self, ident: String, value: JsonValue) -> (r: Result<Node, Infallible>) {
        Ok(Node::Lt(ident, value))
    }

    fn gt(&mut self, ident: String, value: JsonValue) -> (r: Result<Node, Infallible>) {
        Ok(Node::Gt(ident, value))
    }

    fn colon(&mut self, ident: String, value: JsonValue) -> (r: Result<Node, Infallible>) {
        Ok(Node::Colon(ident, value))
    }

    fn between(&mut self, low_value: JsonValue, ident: String, high_value: JsonValue) -> (r: Result<
        Node,
        Infallible,
    >) {
        Ok(Node::Between(low_value, ident, high_value))
    }

    fn or(&mut self, ls: Node, rs: Node) -> (r: Result<Node, Infallible>) {
        Ok(Node::Or(Box::new(ls), Box::new(rs)))
    }

    fn and(&mut self, ls: Node, rs: Node) -> (r: Result<Node, Infallible>) {
        Ok(Node::And(Box::new(ls), Box::new(rs)))
    }

    fn not(&mut self, expr: Node) -> (r: Result<Node, Infallible>) {
        Ok(Node::Not(Box::new(expr)))
    }
}

/// How one character of a string literal is written back: the escapes the
/// tokenizer accepts, in reverse.
pub open spec fn esc_char(c: char) -> Seq<char> {
    if c == '\\' {
        seq!['\\', '\\']
    } else if c == '"' {
        seq!['\\', '"']
    } else if c == '\0' {
        seq!['\\', '0']
    } else {
        seq![c]
    }
}

/// A string literal's characters written back with escapes.
pub open spec fn esc_str(s: Seq<char>) -> Seq<char>
    decreases s.len(),
{
    if s.len() == 0 {
        Seq::empty()
    } else {
        esc_char(s[0]) + esc_str(s.drop_first())
    }
}

pub proof fn lemma_esc_str_snoc(s: Seq<char>, i: int)
    requires
        0 <= i < s.len(),
    ensures
        esc_str(s.take(i + 1)) == esc_str(s.take(i)) + esc_char(s[i]),
    decreases i,
{
    if i == 0 {
        assert(s.take(1) =~= seq![s[0]]);
        assert(s.take(0) =~= Seq::<char>::empty());
        assert(seq![s[0]].drop_first() =~= Seq::<char>::empty());
        assert(esc_str(Seq::<char>::empty()) == Seq::<char>::empty());
        assert(esc_str(seq![s[0]]) == esc_char(s[0]) + esc_str(Seq::<char>::empty()));
        assert(esc_char(s[0]) + Seq::<char>::empty() =~= esc_char(s[0]));
        assert(esc_str(s.take(0)) + esc_char(s[0]) =~= esc_char(s[0]));
    } else {
        lemma_esc_str_snoc(s.drop_first(), i - 1);
        assert(s.take(i + 1).drop_first() =~= s.drop_first().take(i));
        assert(s.take(i).drop_first() =~= s.drop_first().take(i - 1));
        assert(s.drop_first()[i - 1] == s[i]);
        assert(esc_str(s.take(i + 1)) == esc_char(s[0]) + esc_str(s.drop_first().take(i)));
        assert(esc_str(s.take(i)) == esc_char(s[0]) + esc_str(s.drop_first().take(i - 1)));
        assert(esc_char(s[0]) + (esc_str(s.drop_first().take(i - 1)) + esc_char(s[i])) =~= (esc_char(
            s[0],
        ) + esc_str(s.drop_first().take(i - 1))) + esc_char(s[i]));
    }
}

/// The canonical text of a literal value: keywords, the number or span
/// text, or a quoted string with its escapes written back.
pub open spec fn render_json(v: JsonM) -> Seq<char> {
    match v {
        JsonM::JNull => "null"@,
        JsonM::JBool(b) => if b {
            "true"@
        } else {
            "false"@
        },
        JsonM::JNum(t) => t,
        JsonM::JStr(t) => "\""@ + esc_str(t) + "\""@,
        JsonM::JData(t) => t,
    }
}

fn push_escaped(out: &mut Vec<char>, text: &str)
    ensures
        final(out)@ == old(out)@ + esc_str(text@),
{
    let chars = crate::chars::str_chars(text);
    let n = chars.len();
    let mut i: usize = 0;
    proof {
        assert(text@.take(0) =~= Seq::<char>::empty());
        assert(out@ + esc_str(chars@.take(0)) =~= out@);
    }
    #[verifier::loop_isolation(false)]
    while i < n
        invariant
            i <= n,
            out@ == old(out)@ + esc_str(text@.take(i as int)),
        decreases n - i,
    {
        let c = chars[i];
        if c == '\\' {
            out.push('\\');
            out.push('\\');
        } else if c == '"' {
            out.push('\\');
            out.push('"');
        } else if c == '\0' {
            out.push('\\');
            out.push('0');
        } else {
            out.push(c);
        }
        proof {
            lemma_esc_str_snoc(text@, i as int);
            assert(out@ =~= old(out)@ + esc_str(text@.take(i as int + 1)));
        }
        i = i + 1;
    }
    proof {
        assert(text@.take(n as int) =~= text@);
    }
}

/// The canonical text of a literal value, as `render_json` gives it.
pub fn render_json_value(v: &JsonValue) -> (r: String)
    ensures
        r@ == render_json(v@),
{
    match v {
        JsonValue::Null => {
            let r = <String as vstd::string::StringExecFns>::from_str("null");
            r
        },
        JsonValue::Bool(b) => {
            if *b {
                <String as vstd::string::StringExecFns>::from_str("true")
            } else {
                <String as vstd::string::StringExecFns>::from_str("false")
            }
        },
        JsonValue::Num(t) => {
            let r = <String as vstd::string::StringExecFns>::from_str(t.as_str());
            r
        },
        JsonValue::Data(t) => {
            let r = <String as vstd::string::StringExecFns>::from_str(t.as_str());
            r
        },
        JsonValue::Str(t) => {
            let mut out = <String as vstd::string::StringExecFns>::from_str("\"");
            let mut ev: Vec<char> = Vec::new();
            push_escaped(&mut ev, t.as_str());
            let es = crate::chars::chars_string(ev.as_slice());
            <String as vstd::string::StringExecFns>::append(&mut out, es.as_str());
            <String as vstd::string::StringExecFns>::append(&mut out, "\"");
            proof {
                assert(out@ =~= "\""@ + esc_str(t@) + "\""@);
            }
            out
        },
    }
}

/// The rendering of one `eq`/`lt`/`gt`/`colon` comparison.
pub open spec fn render_cmp(op: Seq<char>, ident: Seq<char>, value: JsonM) -> Seq<char> {
    "("@ + ident + op + render_json(value) + ")"@
}

/// The rendering of a between form.
pub open spec fn render_between(low: JsonM, ident: Seq<char>, high: JsonM) -> Seq<char> {
    "("@ + render_json(low) + "<"@ + ident + "<"@ + render_json(high) + ")"@
}

/// The rendering of a binary connective.
pub open spec fn render_bin(op: Seq<char>, l: Seq<char>, r: Seq<char>) -> Seq<char> {
    "("@ + l + op + r + ")"@
}

/// The rendering of a negation.
pub open spec fn render_not(e: Seq<char>) -> Seq<char> {
    "(!("@ + e + "))"@
}

/// Renders each parsed expression back to fully parenthesized text, making
/// the parse shape visible; every primitive succeeds.
#[derive(Debug)]
pub struct VisitorTest {

}

impl View for VisitorTest {
    type V = ();

    open spec fn view(&self) -> () {
        ()
    }
}

impl VisitorTest {
    pub fn new() -> (r: Self)
        ensures
            r@ == (),
    {
        Self {  }
    }
}

fn cat3(a: &str, mid: &String, b: &str) -> (r: String)
    ensures
        r@ == a@ + mid@ + b@,
{
    let mut out = <String as vstd::string::StringExecFns>::from_str(a);
    <String as vstd::string::StringExecFns>::append(&mut out, mid.as_str());
    <String as vstd::string::StringExecFns>::append(&mut out, b);
    out
}

fn render_cmp_exec(op: &str, ident: &String, value: &JsonValue) -> (r: String)
    ensures
        r@ == render_cmp(op@, ident@, value@),
{
    let mut out = <String as vstd::string::StringExecFns>::from_str("(");
    <String as vstd::string::StringExecFns>::append(&mut out, ident.as_str());
    <String as vstd::string::StringExecFns>::append(&mut out, op);
    let v = render_json_value(value);
    <String as vstd::string::StringExecFns>::append(&mut out, v.as_str());
    <String as vstd::string::StringExecFns>::append(&mut out, ")");
    proof {
        assert(out@ =~= render_cmp(op@, ident@, value@));
    }
    out
}

impl Visitor<String, Infallible> for VisitorTest {
    open spec fn sp_eq(m: (), ident: Seq<char>, value: JsonM) -> (
        (),
        Result<Seq<char>, Infallible>,
    ) {
        (m, Ok(render_cmp("="@, ident, value)))
    }

    open spec fn sp_lt(m: (), ident: Seq<char>, value: JsonM) -> (
        (),
        Result<Seq<char>, Infallible>,
    ) {
        (m, Ok(render_cmp("<"@, ident, value)))
    }

    open spec fn sp_gt(m: (), ident: Seq<char>, value: JsonM) -> (
        (),
        Result<Seq<char>, Infallible>,
    ) {
        (m, Ok(render_cmp(">"@, ident, value)))
    }

    open spec fn sp_colon(m: (), ident: Seq<char>, value: JsonM) -> (
        (),
        Result<Seq<char>, Infallible>,
    ) {
        (m, Ok(render_cmp(":"@, ident, value)))
    }

    open spec fn sp_between(m: (), low: JsonM, ident: Seq<char>, high: JsonM) -> (
        (),
        Result<Seq<char>, Infallible>,
    ) {
        (m, Ok(render_between(low, ident, high)))
    }

    open spec fn sp_or(m: (), l: Seq<char>, r: Seq<char>) -> ((), Result<Seq<char>, Infallible>) {
        (m, Ok(render_bin("|"@, l, r)))
    }

    open spec fn sp_and(m: (), l: Seq<char>, r: Seq<char>) -> ((), Result<Seq<char>, Infallible>) {
        (m, Ok(render_bin("&"@, l, r)))
    }

    open spec fn sp_not(m: (), e: Seq<char>) -> ((), Result<Seq<char>, Infallible>) {
        (m, Ok(render_not(e)))
    }

    fn eq(&mut self, ident: String, value: JsonValue) -> (r: Result<String, Infallible>) {
        Ok(render_cmp_exec("=", &ident, &value))
    }

    fn lt(&mut self, ident: String, value: JsonValue) -> (r: Result<String, Infallible>) {
        Ok(render_cmp_exec("<", &ident, &value))
    }

    fn gt(&mut self, ident: String, value: JsonValue) -> (r: Result<String, Infallible>) {
        Ok(render_cmp_exec(">", &ident, &value))
    }

    fn colon(&mut self, ident: String, value: JsonValue) -> (r: Result<String, Infallible>) {
        Ok(render_cmp_exec(":", &ident, &value))
    }

    fn between(&mut self, low_value: JsonValue, ident: String, high_value: JsonValue) -> (r: Result<
        String,
        Infallible,
    >) {
        let mut out = <String as vstd::string::StringExecFns>::from_str("(");
        let l = render_json_value(&low_value);
        <String as vstd::string::StringExecFns>::append(&mut out, l.as_str());
        <String as vstd::string::StringExecFns>::append(&mut out, "<");
        <String as vstd::string::StringExecFns>::append(&mut out, ident.as_str());
        <String as vstd::string::StringExecFns>::append(&mut out, "<");
        let h = render_json_value(&high_value);
        <String as vstd::string::StringExecFns>::append(&mut out, h.as_str());
        <String as vstd::string::StringExecFns>::append(&mut out, ")");
        proof {
            assert(out@ =~= render_between(low_value@, ident@, high_value@));
        }
        Ok(out)
    }

    fn or(&mut self, ls: String, rs: String) -> (r: Result<String, Infallible>) {
        let out = cat3("(", &ls, "|");
        let out2 = cat3(out.as_str(), &rs, ")");
        proof {
            assert(out2@ =~= render_bin("|"@, ls@, rs@));
        }
        Ok(out2)
    }

    fn and(&mut self, ls: String, rs: String) -> (r: Result<String, Infallible>) {
        let out = cat3("(", &ls, "&");
        let out2 = cat3(out.as_str(), &rs, ")");
        proof {
            assert(out2@ =~= render_bin("&"@, ls@, rs@));
        }
        Ok(out2)
    }

    fn not(&mut self, expr: String) -> (r: Result<String, Infallible>) {
        let out = cat3("(!(", &expr, "))");
        proof {
            assert(out@ =~= render_not(expr@));
        }
        Ok(out)
    }
}

} // verus!
