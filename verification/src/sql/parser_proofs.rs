//! What holds of the parser on whole classes of token sequences.

use vstd::prelude::*;
use crate::sql::ast::{ExpressionView, StatementView};
use crate::sql::parser::{
    expression_of, lemma_statement_at, parse_tokens, plain_select, select_at, selection_from,
    statement_at, statements_from, ParseErrorView,
};
use crate::sql::token::{TokenType, TokenView};

verus! {

/// From offset `i` on stand `n` expressions, with a comma between each two.
pub open spec fn is_expression_list(tokens: Seq<TokenView>, i: int, n: int) -> bool {
    &&& 0 <= i
    &&& 1 <= n
    &&& i + 2 * n - 1 <= tokens.len()
    &&& forall|k: int| 0 <= k < n ==> expression_of(#[trigger] tokens[i + 2 * k]) is Some
    &&& forall|k: int| 0 <= k < n - 1 ==> (#[trigger] tokens[i + 2 * k + 1]).token_type
        == TokenType::Comma
}

/// The `n` expressions of the list that begins at offset `i`.
pub open spec fn listed_expressions(tokens: Seq<TokenView>, i: int, n: int) -> Seq<
    ExpressionView,
> {
    Seq::new(n as nat, |k: int| expression_of(tokens[i + 2 * k])->0)
}

/// The tokens are `SELECT`, a list of `n` expressions, `FROM` and one more
/// expression where `with_from` holds, and `;`.
pub open spec fn is_select_query(tokens: Seq<TokenView>, n: int, with_from: bool) -> bool {
    &&& tokens.len() == if with_from {
        2 * n + 3
    } else {
        2 * n + 1
    }
    &&& tokens[0].token_type == TokenType::Select
    &&& is_expression_list(tokens, 1, n)
    &&& if with_from {
        &&& tokens[2 * n].token_type == TokenType::From
        &&& expression_of(tokens[2 * n + 1]) is Some
        &&& tokens[2 * n + 2].token_type == TokenType::SemiColon
    } else {
        tokens[2 * n].token_type == TokenType::SemiColon
    }
}

/// A list of `n` expressions that a `FROM` or a `;` follows is read as a
/// selection of these `n` expressions, up to that token.
pub proof fn lemma_closed_list(tokens: Seq<TokenView>, i: int, n: int)
    requires
        is_expression_list(tokens, i, n),
        i + 2 * n - 1 < tokens.len(),
        tokens[i + 2 * n - 1].token_type == TokenType::From || tokens[i + 2 * n - 1].token_type
            == TokenType::SemiColon,
    ensures
        selection_from(tokens, i) == Ok::<(Seq<ExpressionView>, int), ParseErrorView>(
            (listed_expressions(tokens, i, n), i + 2 * n - 1),
        ),
    decreases n,
{
    assert(expression_of(tokens[i + 2 * 0]) is Some);
    let first = expression_of(tokens[i])->0;
    if n == 1 {
        assert(listed_expressions(tokens, i, n) =~= seq![first]);
    } else {
        assert(tokens[i + 2 * 0 + 1].token_type == TokenType::Comma);
        assert(is_expression_list(tokens, i + 2, n - 1)) by {
            assert forall|k: int| 0 <= k < n - 1 implies expression_of(
                #[trigger] tokens[i + 2 + 2 * k],
            ) is Some by {
                assert(expression_of(tokens[i + 2 * (k + 1)]) is Some);
            }
            assert forall|k: int| 0 <= k < n - 2 implies (#[trigger] tokens[i + 2 + 2 * k
                + 1]).token_type == TokenType::Comma by {
                assert(tokens[i + 2 * (k + 1) + 1].token_type == TokenType::Comma);
            }
        }
        lemma_closed_list(tokens, i + 2, n - 1);
        assert(seq![first] + listed_expressions(tokens, i + 2, n - 1) =~= listed_expressions(
            tokens,
            i,
            n,
        )) by {
            assert forall|k: int| 1 <= k < n implies listed_expressions(tokens, i + 2, n - 1)[k
                - 1] == listed_expressions(tokens, i, n)[k] by {
                assert(i + 2 + 2 * (k - 1) == i + 2 * k);
            }
        }
    }
}

/// A list of `n` expressions at which the tokens end is a selection that
/// was not finished.
pub proof fn lemma_open_list(tokens: Seq<TokenView>, i: int, n: int)
    requires
        is_expression_list(tokens, i, n),
        i + 2 * n - 1 == tokens.len(),
    ensures
        selection_from(tokens, i) == Err::<(Seq<ExpressionView>, int), ParseErrorView>(
            ParseErrorView::UnterminatedStatement,
        ),
    decreases n,
{
    assert(expression_of(tokens[i + 2 * 0]) is Some);
    if n > 1 {
        assert(tokens[i + 2 * 0 + 1].token_type == TokenType::Comma);
        assert(is_expression_list(tokens, i + 2, n - 1)) by {
            assert forall|k: int| 0 <= k < n - 1 implies expression_of(
                #[trigger] tokens[i + 2 + 2 * k],
            ) is Some by {
                assert(expression_of(tokens[i + 2 * (k + 1)]) is Some);
            }
            assert forall|k: int| 0 <= k < n - 2 implies (#[trigger] tokens[i + 2 + 2 * k
                + 1]).token_type == TokenType::Comma by {
                assert(tokens[i + 2 * (k + 1) + 1].token_type == TokenType::Comma);
            }
        }
        lemma_open_list(tokens, i + 2, n - 1);
    }
}

/// The tokens of `SELECT e1, .., en;` or of `SELECT e1, .., en FROM e;` are
/// parsed to one `SELECT` statement, whose selection holds the `n`
/// expressions in their order and whose source is `e` where there is one.
pub proof fn lemma_select_query(tokens: Seq<TokenView>, n: int, with_from: bool)
    requires
        is_select_query(tokens, n, with_from),
    ensures
        parse_tokens(tokens) == Ok::<Seq<StatementView>, ParseErrorView>(
            seq![
                StatementView::Select(
                    plain_select(
                        listed_expressions(tokens, 1, n),
                        if with_from {
                            expression_of(tokens[2 * n + 1])
                        } else {
                            None
                        },
                    ),
                ),
            ],
        ),
        listed_expressions(tokens, 1, n).len() == n,
{
    lemma_closed_list(tokens, 1, n);
    let from = if with_from {
        expression_of(tokens[2 * n + 1])
    } else {
        None
    };
    let select = plain_select(listed_expressions(tokens, 1, n), from);
    let statement = StatementView::Select(select);
    let len = tokens.len() as int;
    assert(select_at(tokens, 1) == Ok::<_, ParseErrorView>((select, len)));
    assert(statement_at(tokens, 0) == Ok::<_, ParseErrorView>((statement, len)));
    assert(statements_from(tokens, len) == Ok::<Seq<StatementView>, ParseErrorView>(
        Seq::empty(),
    ));
    assert(seq![statement] + Seq::<StatementView>::empty() =~= seq![statement]);
}

/// The tokens of `SELECT e1, .., en`, with neither `FROM` nor `;` behind
/// the list, are a statement that was not finished.
pub proof fn lemma_unterminated_select(tokens: Seq<TokenView>, n: int)
    requires
        tokens.len() == 2 * n,
        tokens[0].token_type == TokenType::Select,
        is_expression_list(tokens, 1, n),
    ensures
        parse_tokens(tokens) == Err::<Seq<StatementView>, ParseErrorView>(
            ParseErrorView::UnterminatedStatement,
        ),
{
    lemma_open_list(tokens, 1, n);
}

/// Tokens that begin with anything but `SELECT` are refused as an
/// unsupported statement, with that first token.
pub proof fn lemma_unsupported_statement(tokens: Seq<TokenView>)
    requires
        tokens.len() > 0,
        tokens[0].token_type != TokenType::Select,
    ensures
        parse_tokens(tokens) == Err::<Seq<StatementView>, ParseErrorView>(
            ParseErrorView::UnsupportedStatement(tokens[0]),
        ),
{
}

/// Every statement of a program selects at least one expression.
pub proof fn lemma_selections_not_empty(tokens: Seq<TokenView>, i: int)
    ensures
        match statements_from(tokens, i) {
            Ok(statements) => forall|k: int|
                0 <= k < statements.len() ==> match #[trigger] statements[k] {
                    StatementView::Select(select) => select.selection.len() >= 1,
                },
            Err(_) => true,
        },
    decreases tokens.len() - i,
{
    if 0 <= i < tokens.len() {
        match statement_at(tokens, i) {
            Err(_) => {},
            Ok((statement, end)) => {
                lemma_statement_at(tokens, i);
                lemma_selections_not_empty(tokens, end);
                match statements_from(tokens, end) {
                    Ok(rest) => {
                        let all = seq![statement] + rest;
                        assert forall|k: int| 0 <= k < all.len() implies match #[trigger] all[k] {
                            StatementView::Select(select) => select.selection.len() >= 1,
                        } by {
                            if k > 0 {
                                assert(all[k] == rest[k - 1]);
                            }
                        }
                    },
                    Err(_) => {},
                }
            },
        }
    }
}

/// An error anywhere among the statements is the result of the whole parse:
/// no statement is returned beside it.
pub proof fn lemma_first_error_ends_the_parse(tokens: Seq<TokenView>, i: int)
    requires
        0 <= i < tokens.len(),
        statement_at(tokens, i) is Err,
    ensures
        statements_from(tokens, i) == Err::<Seq<StatementView>, ParseErrorView>(
            statement_at(tokens, i)->Err_0,
        ),
{
}

} // verus!
