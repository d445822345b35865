//! The SQL front-end: the query tree and the parser that produces it.

pub mod ast;
pub mod grammar;
pub mod parser;
