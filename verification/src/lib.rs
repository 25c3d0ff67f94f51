//! A small front end for SQL-like statements: a scanner that turns text into
//! tokens, and a parser that turns tokens into a statement.
pub mod lexer;
pub mod parser;
