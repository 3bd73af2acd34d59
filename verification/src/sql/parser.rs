//! The parser: a single pass of recursive descent over the tokens.

use vstd::prelude::*;
use crate::sql::ast::{
    expression_views, number_of_text, statement_views, Ast, Expression, ExpressionView,
    NumberExpr, SelectStatement, SelectView, Statement, StatementView,
};
use crate::sql::token::{all_well_formed, token_views, Token, TokenType, TokenView};

verus! {

/// Why a sequence of tokens is no program.
#[derive(Debug, PartialEq, Eq, Clone)]
pub enum ParseError {
    /// A statement was expected where the tokens end.
    UnexpectedEnd,
    /// The token begins no statement that is supported.
    UnsupportedStatement(Token),
    /// The tokens end inside the selection of a `SELECT`.
    UnterminatedStatement,
    /// The token can neither continue nor close a selection.
    UnexpectedToken(Token),
    /// The token, or the end of the tokens, stands where an expression was
    /// expected.
    UnsupportedExpression(Option<Token>),
}

/// A parse error as a mathematical value.
pub enum ParseErrorView {
    UnexpectedEnd,
    UnsupportedStatement(TokenView),
    UnterminatedStatement,
    UnexpectedToken(TokenView),
    UnsupportedExpression(Option<TokenView>),
}

impl View for ParseError {
    type V = ParseErrorView;

    open spec fn view(&self) -> ParseErrorView {
        match self {
            ParseError::UnexpectedEnd => ParseErrorView::UnexpectedEnd,
            ParseError::UnsupportedStatement(token) => ParseErrorView::UnsupportedStatement(
                token@,
            ),
            ParseError::UnterminatedStatement => ParseErrorView::UnterminatedStatement,
            ParseError::UnexpectedToken(token) => ParseErrorView::UnexpectedToken(token@),
            ParseError::UnsupportedExpression(Some(token)) => ParseErrorView::UnsupportedExpression(
                Some(token@),
            ),
            ParseError::UnsupportedExpression(None) => ParseErrorView::UnsupportedExpression(None),
        }
    }
}

/// The expression that a single token is, if it is one.
pub open spec fn expression_of(token: TokenView) -> Option<ExpressionView> {
    match token.token_type {
        TokenType::Number => Some(ExpressionView::Number(number_of_text(token.literal))),
        TokenType::Star => Some(ExpressionView::Wildcard),
        TokenType::Identifier => Some(ExpressionView::Column(token.literal)),
        _ => None,
    }
}

/// The expression at offset `i`.
pub open spec fn expression_at(tokens: Seq<TokenView>, i: int) -> Result<
    ExpressionView,
    ParseErrorView,
> {
    if 0 <= i < tokens.len() {
        match expression_of(tokens[i]) {
            Some(expression) => Ok(expression),
            None => Err(ParseErrorView::UnsupportedExpression(Some(tokens[i]))),
        }
    } else {
        Err(ParseErrorView::UnsupportedExpression(None))
    }
}

/// The selection that begins at offset `i`: its expressions, and the offset
/// of the `FROM` or `;` that closes it.
pub open spec fn selection_from(tokens: Seq<TokenView>, i: int) -> Result<
    (Seq<ExpressionView>, int),
    ParseErrorView,
>
    decreases tokens.len() - i,
{
    match expression_at(tokens, i) {
        Err(e) => Err(e),
        Ok(first) => {
            if i + 1 >= tokens.len() {
                Err(ParseErrorView::UnterminatedStatement)
            } else {
                let next = tokens[i + 1];
                if next.token_type == TokenType::From || next.token_type == TokenType::SemiColon {
                    Ok((seq![first], i + 1))
                } else if next.token_type == TokenType::Comma {
                    match selection_from(tokens, i + 2) {
                        Ok((rest, stop)) => Ok((seq![first] + rest, stop)),
                        Err(e) => Err(e),
                    }
                } else {
                    Err(ParseErrorView::UnexpectedToken(next))
                }
            }
        },
    }
}

/// A statement that selects `selection` from `from`, and nothing more.
pub open spec fn plain_select(
    selection: Seq<ExpressionView>,
    from: Option<ExpressionView>,
) -> SelectView {
    SelectView {
        selection,
        from,
        joins: Seq::empty(),
        group_by: Seq::empty(),
        order_by: Seq::empty(),
    }
}

/// The `SELECT` statement whose selection begins at offset `i`, behind the
/// keyword, and the offset behind the statement.
pub open spec fn select_at(tokens: Seq<TokenView>, i: int) -> Result<
    (SelectView, int),
    ParseErrorView,
> {
    match selection_from(tokens, i) {
        Err(e) => Err(e),
        Ok((selection, stop)) => {
            if tokens[stop].token_type == TokenType::From {
                match expression_at(tokens, stop + 1) {
                    Err(e) => Err(e),
                    Ok(from) => {
                        let end = if stop + 2 < tokens.len() && tokens[stop + 2].token_type
                            == TokenType::SemiColon {
                            stop + 3
                        } else {
                            stop + 2
                        };
                        Ok((plain_select(selection, Some(from)), end))
                    },
                }
            } else {
                Ok((plain_select(selection, None), stop + 1))
            }
        },
    }
}

/// The statement that begins at offset `i`, and the offset behind it.
pub open spec fn statement_at(tokens: Seq<TokenView>, i: int) -> Result<
    (StatementView, int),
    ParseErrorView,
> {
    if 0 <= i < tokens.len() {
        if tokens[i].token_type == TokenType::Select {
            match select_at(tokens, i + 1) {
                Ok((select, end)) => Ok((StatementView::Select(select), end)),
                Err(e) => Err(e),
            }
        } else {
            Err(ParseErrorView::UnsupportedStatement(tokens[i]))
        }
    } else {
        Err(ParseErrorView::UnexpectedEnd)
    }
}

/// The statements from offset `i` on, or the first error.
pub open spec fn statements_from(tokens: Seq<TokenView>, i: int) -> Result<
    Seq<StatementView>,
    ParseErrorView,
>
    decreases tokens.len() - i,
{
    if 0 <= i < tokens.len() {
        match statement_at(tokens, i) {
            Err(e) => Err(e),
            Ok((statement, end)) => {
                proof {
                    lemma_statement_at(tokens, i);
                }
                match statements_from(tokens, end) {
                    Ok(rest) => Ok(seq![statement] + rest),
                    Err(e) => Err(e),
                }
            },
        }
    } else {
        Ok(Seq::empty())
    }
}

/// The program that a whole sequence of tokens is, or the first error.
pub open spec fn parse_tokens(tokens: Seq<TokenView>) -> Result<
    Seq<StatementView>,
    ParseErrorView,
> {
    statements_from(tokens, 0)
}

/// A selection holds at least one expression, and is closed inside the
/// tokens by a `FROM` or a `;`.
pub proof fn lemma_selection_from(tokens: Seq<TokenView>, i: int)
    ensures
        match selection_from(tokens, i) {
            Ok((selection, stop)) => {
                &&& 0 <= i < stop < tokens.len()
                &&& selection.len() >= 1
                &&& (tokens[stop].token_type == TokenType::From || tokens[stop].token_type
                    == TokenType::SemiColon)
            },
            Err(_) => true,
        },
    decreases tokens.len() - i,
{
    if expression_at(tokens, i) is Ok && i + 1 < tokens.len() && tokens[i + 1].token_type
        == TokenType::Comma {
        lemma_selection_from(tokens, i + 2);
    }
}

/// A statement is not empty, ends inside the tokens, and selects at least
/// one expression.
pub proof fn lemma_statement_at(tokens: Seq<TokenView>, i: int)
    ensures
        match statement_at(tokens, i) {
            Ok((StatementView::Select(select), end)) => {
                &&& 0 <= i < end <= tokens.len()
                &&& select.selection.len() >= 1
            },
            Err(_) => true,
        },
{
    lemma_selection_from(tokens, i + 1);
}

/// The expressions read so far, followed by what the rest of the selection
/// yields.
pub open spec fn after_expressions(
    done: Seq<ExpressionView>,
    rest: Result<(Seq<ExpressionView>, int), ParseErrorView>,
) -> Result<(Seq<ExpressionView>, int), ParseErrorView> {
    match rest {
        Ok((more, stop)) => Ok((done + more, stop)),
        Err(e) => Err(e),
    }
}

/// The statements read so far, followed by what the rest of the tokens
/// yields.
pub open spec fn after_statements(
    done: Seq<StatementView>,
    rest: Result<Seq<StatementView>, ParseErrorView>,
) -> Result<Seq<StatementView>, ParseErrorView> {
    match rest {
        Ok(more) => Ok(done + more),
        Err(e) => Err(e),
    }
}

/// A read cursor over a sequence of tokens.
pub struct Parser {
    tokens: Vec<Token>,
    position: usize,
}

impl Parser {
    /// The tokens, as mathematical values.
    pub closed spec fn tokens(&self) -> Seq<TokenView> {
        token_views(self.tokens@)
    }

    /// The offset of the next token to read.
    pub closed spec fn cursor(&self) -> int {
        self.position as int
    }

    /// The cursor stands inside the tokens or at their end, and the tokens
    /// are well formed.
    pub closed spec fn wf(&self) -> bool {
        &&& self.position <= self.tokens@.len()
        &&& all_well_formed(token_views(self.tokens@))
    }

    /// A cursor at the first of `tokens`.
    pub fn new(tokens: Vec<Token>) -> (parser: Parser)
        requires
            all_well_formed(token_views(tokens@)),
        ensures
            parser.wf(),
            parser.tokens() == token_views(tokens@),
            parser.cursor() == 0,
    {
        Parser { tokens, position: 0 }
    }

    /// Whether every token has been read.
    fn is_at_end(&self) -> (at_end: bool)
        requires
            self.wf(),
        ensures
            at_end == (self.cursor() >= self.tokens().len()),
    {
        self.position >= self.tokens.len()
    }

    /// The next token, which stays unread.
    fn peek_token(&self) -> (token: Option<&Token>)
        requires
            self.wf(),
        ensures
            match token {
                Some(token) => self.cursor() < self.tokens().len() && token@
                    == self.tokens()[self.cursor()],
                None => self.cursor() >= self.tokens().len(),
            },
    {
        if self.position < self.tokens.len() {
            Some(&self.tokens[self.position])
        } else {
            None
        }
    }

    /// Reads the next token, if one is left.
    fn read_token(&mut self) -> (token: Option<Token>)
        requires
            old(self).wf(),
        ensures
            final(self).wf(),
            final(self).tokens() == old(self).tokens(),
            match token {
                Some(token) => {
                    &&& old(self).cursor() < old(self).tokens().len()
                    &&& token@ == old(self).tokens()[old(self).cursor()]
                    &&& final(self).cursor() == old(self).cursor() + 1
                },
                None => {
                    &&& old(self).cursor() >= old(self).tokens().len()
                    &&& final(self).cursor() == old(self).cursor()
                },
            },
    {
        if self.position < self.tokens.len() {
            let token = self.tokens[self.position].duplicate();
            self.position += 1;
            Some(token)
        } else {
            None
        }
    }

    /// Reads one token as an expression.
    fn parse_expression(&mut self) -> (result: Result<Expression, ParseError>)
        requires
            old(self).wf(),
        ensures
            final(self).wf(),
            final(self).tokens() == old(self).tokens(),
            old(self).cursor() <= final(self).cursor(),
            match expression_at(old(self).tokens(), old(self).cursor()) {
                Ok(expression) => {
                    &&& result is Ok
                    &&& result->Ok_0@ == expression
                    &&& final(self).cursor() == old(self).cursor() + 1
                },
                Err(e) => result is Err && result->Err_0@ == e,
            },
    {
        match self.read_token() {
            None => Err(ParseError::UnsupportedExpression(None)),
            Some(token) => {
                assert(token@.well_formed());
                match token.token_type {
                    TokenType::Number => Ok(Expression::Number(NumberExpr::new(token.literal))),
                    TokenType::Star => Ok(Expression::Wildcard),
                    TokenType::Identifier => Ok(Expression::Column(token.literal)),
                    _ => Err(ParseError::UnsupportedExpression(Some(token))),
                }
            },
        }
    }

    /// Reads the expressions of a selection, up to the `FROM` or `;` that
    /// closes it, which stays unread.
    fn parse_selection(&mut self) -> (result: Result<Vec<Expression>, ParseError>)
        requires
            old(self).wf(),
        ensures
            final(self).wf(),
            final(self).tokens() == old(self).tokens(),
            old(self).cursor() <= final(self).cursor(),
            match selection_from(old(self).tokens(), old(self).cursor()) {
                Ok((selection, stop)) => {
                    &&& result is Ok
                    &&& expression_views(result->Ok_0@) == selection
                    &&& final(self).cursor() == stop
                },
                Err(e) => result is Err && result->Err_0@ == e,
            },
    {
        let mut selection: Vec<Expression> = Vec::new();
        proof {
            let rest = selection_from(self.tokens(), self.cursor());
            if rest is Ok {
                assert(expression_views(selection@) + rest->Ok_0.0 =~= rest->Ok_0.0);
            }
        }
        loop
            invariant
                self.wf(),
                self.tokens() == old(self).tokens(),
                old(self).cursor() <= self.cursor(),
                selection_from(old(self).tokens(), old(self).cursor()) == after_expressions(
                    expression_views(selection@),
                    selection_from(self.tokens(), self.cursor()),
                ),
            decreases self.tokens().len() - self.cursor(),
        {
            let ghost done = expression_views(selection@);
            match self.parse_expression() {
                Ok(expression) => {
                    selection.push(expression);
                    assert(expression_views(selection@) =~= done.push(expression@));
                },
                Err(err) => {
                    return Err(err);
                },
            }
            let separator = match self.peek_token() {
                None => {
                    return Err(ParseError::UnterminatedStatement);
                },
                Some(token) => token.duplicate(),
            };
            match separator.token_type {
                TokenType::From | TokenType::SemiColon => {
                    assert(done + seq![selection@.last()@] =~= expression_views(selection@));
                    return Ok(selection);
                },
                TokenType::Comma => {
                    self.read_token();
                    proof {
                        let rest = selection_from(self.tokens(), self.cursor());
                        if rest is Ok {
                            let more = rest->Ok_0.0;
                            assert(done + (seq![selection@.last()@] + more) =~= expression_views(
                                selection@,
                            ) + more);
                        }
                    }
                },
                _ => {
                    return Err(ParseError::UnexpectedToken(separator));
                },
            }
        }
    }

    /// Reads a `SELECT` statement whose keyword has been read.
    fn parse_select(&mut self) -> (result: Result<SelectStatement, ParseError>)
        requires
            old(self).wf(),
        ensures
            final(self).wf(),
            final(self).tokens() == old(self).tokens(),
            old(self).cursor() <= final(self).cursor(),
            match select_at(old(self).tokens(), old(self).cursor()) {
                Ok((select, end)) => {
                    &&& result is Ok
                    &&& result->Ok_0@ == select
                    &&& final(self).cursor() == end
                },
                Err(e) => result is Err && result->Err_0@ == e,
            },
    {
        proof {
            lemma_selection_from(self.tokens(), self.cursor());
        }
        let mut statement = SelectStatement::new();
        match self.parse_selection() {
            Ok(selection) => {
                statement.selection = selection;
            },
            Err(err) => {
                return Err(err);
            },
        }
        let from_follows = match self.peek_token() {
            Some(token) => token.token_type == TokenType::From,
            None => false,
        };
        if from_follows {
            self.read_token();
            match self.parse_expression() {
                Ok(from) => {
                    statement.from = Some(from);
                },
                Err(err) => {
                    return Err(err);
                },
            }
        }
        let closed = match self.peek_token() {
            Some(token) => token.token_type == TokenType::SemiColon,
            None => false,
        };
        if closed {
            self.read_token();
        }
        Ok(statement)
    }

    /// Reads one statement.
    pub fn parse_statement(&mut self) -> (result: Result<Statement, ParseError>)
        requires
            old(self).wf(),
        ensures
            final(self).wf(),
            final(self).tokens() == old(self).tokens(),
            old(self).cursor() <= final(self).cursor(),
            match statement_at(old(self).tokens(), old(self).cursor()) {
                Ok((statement, end)) => {
                    &&& result is Ok
                    &&& result->Ok_0@ == statement
                    &&& final(self).cursor() == end
                },
                Err(e) => result is Err && result->Err_0@ == e,
            },
    {
        let token = match self.read_token() {
            None => {
                return Err(ParseError::UnexpectedEnd);
            },
            Some(token) => token,
        };
        match token.token_type {
            TokenType::Select => match self.parse_select() {
                Ok(select) => Ok(Statement::Select(select)),
                Err(err) => Err(err),
            },
            _ => Err(ParseError::UnsupportedStatement(token)),
        }
    }

    /// Reads statements until the tokens end. The first error ends the
    /// parse, and no statement is returned with it.
    pub fn create_ast(&mut self) -> (result: Result<Ast, ParseError>)
        requires
            old(self).wf(),
        ensures
            final(self).wf(),
            final(self).tokens() == old(self).tokens(),
            old(self).cursor() <= final(self).cursor(),
            match statements_from(old(self).tokens(), old(self).cursor()) {
                Ok(statements) => {
                    &&& result is Ok
                    &&& result->Ok_0@ == statements
                    &&& final(self).cursor() >= old(self).tokens().len()
                },
                Err(e) => result is Err && result->Err_0@ == e,
            },
    {
        let mut nodes: Vec<Statement> = Vec::new();
        proof {
            let rest = statements_from(self.tokens(), self.cursor());
            if rest is Ok {
                assert(statement_views(nodes@) + rest->Ok_0 =~= rest->Ok_0);
            }
        }
        while !self.is_at_end()
            invariant
                self.wf(),
                self.tokens() == old(self).tokens(),
                old(self).cursor() <= self.cursor(),
                statements_from(old(self).tokens(), old(self).cursor()) == after_statements(
                    statement_views(nodes@),
                    statements_from(self.tokens(), self.cursor()),
                ),
            decreases self.tokens().len() - self.cursor(),
        {
            let ghost done = statement_views(nodes@);
            proof {
                lemma_statement_at(self.tokens(), self.cursor());
            }
            match self.parse_statement() {
                Err(err) => {
                    return Err(err);
                },
                Ok(statement) => {
                    nodes.push(statement);
                    proof {
                        assert(statement_views(nodes@) =~= done.push(statement@));
                        let rest = statements_from(self.tokens(), self.cursor());
                        if rest is Ok {
                            assert(done + (seq![statement@] + rest->Ok_0) =~= statement_views(
                                nodes@,
                            ) + rest->Ok_0);
                        }
                    }
                },
            }
        }
        proof {
            assert(statement_views(nodes@) + Seq::<StatementView>::empty() =~= statement_views(
                nodes@,
            ));
        }
        Ok(Ast { statements: nodes })
    }
}

/// Parses a whole sequence of tokens into a program, or reports the first
/// error in it.
pub fn parse(tokens: Vec<Token>) -> (result: Result<Ast, ParseError>)
    requires
        all_well_formed(token_views(tokens@)),
    ensures
        match parse_tokens(token_views(tokens@)) {
            Ok(statements) => result is Ok && result->Ok_0@ == statements,
            Err(e) => result is Err && result->Err_0@ == e,
        },
{
    let mut parser = Parser::new(tokens);
    parser.create_ast()
}

} // verus!
