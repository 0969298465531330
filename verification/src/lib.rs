//! A Pratt parser for expressions over a token stream, with every parsing
//! function proved against a functional grammar (`parse::grammar`).
pub mod ast;
pub mod helper;
pub mod lex;
pub mod parse;
