//! The query front-end: characters, tokens, the tokenizer, the syntax tree
//! and the parser.

pub mod chars;
pub mod number;
pub mod token;
pub mod lexer;
pub mod lexer_proofs;
pub mod ast;
pub mod parser;
pub mod parser_proofs;
pub mod round_trip;
