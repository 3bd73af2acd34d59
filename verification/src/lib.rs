//! Text front-end of a small SQL engine: request framing, a tokenizer, a
//! syntax tree with a canonical rendering, and a recursive-descent parser for
//! a restricted `SELECT` grammar. Every function is verified against a
//! mathematical description of its result.

pub mod database;
pub mod network;
pub mod sql;
