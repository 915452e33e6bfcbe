//! Search-expression subsystem: a lexer for a small boolean query language
//! over JSON-typed literals, a non-recursive operator-precedence parser that
//! drives a pluggable Visitor, and visitors that compile parsed expressions
//! to an expression tree, to rendered text, or to an SQL condition against
//! a fixed column registry.

pub mod chars;
pub mod checklist;
pub mod columns;
pub mod json;
pub mod laws;
pub mod lex;
pub mod parser;
pub mod tokenizer;
pub mod tokens;
pub mod visitors;
