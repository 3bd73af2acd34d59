//! The entry point for a whole query text: tokenize it, then parse it.

use vstd::prelude::*;
use crate::sql::ast::{Ast, StatementView};
use crate::sql::lexer::{lex, tokenize, LexError};
use crate::sql::parser::{parse, parse_tokens, ParseError, ParseErrorView};

verus! {

/// Why a query text is no program: it holds a character that begins no
/// token, or its tokens are no program.
#[derive(Debug, PartialEq, Eq, Clone)]
pub enum QueryError {
    Lex(LexError),
    Parse(ParseError),
}

/// A query error as a mathematical value.
pub enum QueryErrorView {
    Lex(LexError),
    Parse(ParseErrorView),
}

impl View for QueryError {
    type V = QueryErrorView;

    open spec fn view(&self) -> QueryErrorView {
        match self {
            QueryError::Lex(e) => QueryErrorView::Lex(*e),
            QueryError::Parse(e) => QueryErrorView::Parse(e@),
        }
    }
}

/// The program that a query text is, or the first error: a lexical error
/// anywhere in the text comes before any parse error.
pub open spec fn query_of(source: Seq<char>) -> Result<Seq<StatementView>, QueryErrorView> {
    match lex(source) {
        Err(e) => Err(QueryErrorView::Lex(e)),
        Ok(tokens) => match parse_tokens(tokens) {
            Ok(statements) => Ok(statements),
            Err(e) => Err(QueryErrorView::Parse(e)),
        },
    }
}

/// Tokenizes and parses `source`.
pub fn parse_query(source: &str) -> (result: Result<Ast, QueryError>)
    ensures
        match query_of(source@) {
            Ok(statements) => result is Ok && result->Ok_0@ == statements,
            Err(e) => result is Err && result->Err_0@ == e,
        },
{
    match tokenize(source) {
        Err(e) => Err(QueryError::Lex(e)),
        Ok(tokens) => match parse(tokens) {
            Ok(ast) => Ok(ast),
            Err(e) => Err(QueryError::Parse(e)),
        },
    }
}

} // verus!
