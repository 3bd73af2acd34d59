//! Rendering and reading back: the text that a statement renders to is read
//! as that statement again.

use vstd::prelude::*;
use crate::database::{query_of, QueryErrorView};
use crate::sql::ast::{
    render_expression, render_list, render_select, render_statement, ExpressionView, NumberType,
    SelectView, StatementView,
};
use crate::sql::chars::{is_digit, is_digit_run, is_identifier_part, is_whitespace};
use crate::sql::lexer::{
    identifier_end, lemma_identifier_end, lemma_lex_step, lemma_number_end, lemma_skip_spaces,
    lex, lex_from, number_end, skip_spaces, token_at, LexError,
};
use crate::sql::lexer_proofs::{
    is_word, lemma_identifier_runs, lemma_number_runs, lemma_single_token, literal_kind,
};
use crate::sql::number::{canonical_number, lemma_canonical_digits, lemma_digit_run_is_number};
use crate::sql::parser::{
    expression_at, expression_of, lemma_selection_from, lemma_statement_at, plain_select,
    select_at, selection_from, statement_at, statements_from,
};
use crate::sql::parser_proofs::{
    is_expression_list, is_select_query, lemma_select_query, listed_expressions,
};
use crate::sql::token::{keyword_kind, same_word, TokenType, TokenView};

verus! {

/// A character that the rendering puts behind a token.
pub open spec fn is_delimiter(c: char) -> bool {
    c == ' ' || c == ',' || c == ';'
}

/// White space is skipped alike in a text and in the same text behind a
/// prefix.
pub proof fn lemma_skip_spaces_shift(w: Seq<char>, v: Seq<char>, i: int)
    requires
        0 <= i <= v.len(),
    ensures
        skip_spaces(w + v, w.len() + i) == w.len() + skip_spaces(v, i),
    decreases v.len() - i,
{
    if i < v.len() {
        assert((w + v)[w.len() + i] == v[i]);
        if is_whitespace(v[i]) {
            lemma_skip_spaces_shift(w, v, i + 1);
        }
    }
}

/// An identifier ends alike in a text and in the same text behind a prefix.
pub proof fn lemma_identifier_end_shift(w: Seq<char>, v: Seq<char>, i: int)
    requires
        0 <= i <= v.len(),
    ensures
        identifier_end(w + v, w.len() + i) == w.len() + identifier_end(v, i),
    decreases v.len() - i,
{
    if i < v.len() {
        assert((w + v)[w.len() + i] == v[i]);
        if is_identifier_part(v[i]) {
            lemma_identifier_end_shift(w, v, i + 1);
        }
    }
}

/// A number ends alike in a text and in the same text behind a prefix.
pub proof fn lemma_number_end_shift(w: Seq<char>, v: Seq<char>, i: int)
    requires
        0 <= i <= v.len(),
    ensures
        number_end(w + v, w.len() + i) == w.len() + number_end(v, i),
    decreases v.len() - i,
{
    if i < v.len() {
        assert((w + v)[w.len() + i] == v[i]);
        lemma_number_end_shift(w, v, i + 1);
    }
}

/// The same token begins at an offset of a text and at that offset of the
/// same text behind a prefix.
pub proof fn lemma_token_at_shift(w: Seq<char>, v: Seq<char>, j: int)
    requires
        0 <= j < v.len(),
    ensures
        token_at(w + v, w.len() + j) == match token_at(v, j) {
            Some((kind, end)) => Some((kind, w.len() + end)),
            None => None,
        },
{
    let u = w + v;
    let n = w.len() as int;
    assert(u[n + j] == v[j]);
    if j + 1 < v.len() {
        assert(u[n + j + 1] == v[j + 1]);
    }
    lemma_identifier_end_shift(w, v, j + 1);
    lemma_number_end_shift(w, v, j + 1);
    let end = identifier_end(v, j + 1);
    lemma_identifier_end(v, j + 1);
    assert(u.subrange(n + j, n + end) =~= v.subrange(j, end));
}

/// A text that is tokenized without error is tokenized to the same tokens
/// behind a prefix.
pub proof fn lemma_lex_shift(w: Seq<char>, v: Seq<char>, i: int)
    requires
        0 <= i <= v.len(),
        lex_from(v, i) is Ok,
    ensures
        lex_from(w + v, w.len() + i) == lex_from(v, i),
    decreases v.len() - i,
{
    let u = w + v;
    let n = w.len() as int;
    lemma_lex_step(v, i);
    lemma_lex_step(u, n + i);
    lemma_skip_spaces(v, i);
    lemma_skip_spaces_shift(w, v, i);
    let start = skip_spaces(v, i);
    if start < v.len() {
        lemma_token_at_shift(w, v, start);
        match token_at(v, start) {
            None => {},
            Some((kind, end)) => {
                lemma_lex_shift(w, v, end);
                assert(u.subrange(n + start, n + end) =~= v.subrange(start, end));
            },
        }
    }
}

/// A space before a text that is tokenized without error changes nothing.
pub proof fn lemma_lex_space(v: Seq<char>)
    requires
        lex(v) is Ok,
    ensures
        lex(seq![' '] + v) == lex(v),
{
    let w = seq![' '];
    let u = w + v;
    lemma_lex_shift(w, v, 0);
    lemma_lex_step(u, 0);
    lemma_lex_step(u, 1);
    lemma_skip_spaces(u, 1);
    assert(u[0] == ' ');
    assert(skip_spaces(u, 0) == skip_spaces(u, 1));
}

/// A token's literal form before a text that is tokenized without error,
/// and that begins with a delimiter or is empty, adds that token in front.
pub proof fn lemma_lex_token(w: Seq<char>, v: Seq<char>)
    requires
        literal_kind(w) is Some,
        lex(v) is Ok,
        v.len() == 0 || is_delimiter(v[0]),
    ensures
        lex(w + v) == Ok::<Seq<TokenView>, LexError>(
            seq![TokenView { token_type: literal_kind(w)->0, literal: w }] + lex(v)->Ok_0,
        ),
{
    let u = w + v;
    let n = w.len() as int;
    let kind = literal_kind(w)->0;
    assert(u.subrange(0, n) =~= w);
    assert(u[0] == w[0]);
    assert(skip_spaces(u, 0) == 0);
    if v.len() > 0 {
        assert(u[n] == v[0]);
    }
    if n == 2 {
        assert(u[1] == w[1]);
    }
    if is_word(w) {
        assert forall|k: int| 1 <= k < n implies is_identifier_part(#[trigger] u[k]) by {
            assert(u[k] == w[k]);
        }
        lemma_identifier_runs(u, 1, n);
    }
    if is_digit_run(w) {
        assert forall|k: int| 1 <= k < n implies is_digit(#[trigger] u[k]) by {
            assert(u[k] == w[k]);
        }
        lemma_number_runs(u, 1, n);
    }
    assert(token_at(u, 0) == Some((kind, n)));
    lemma_lex_step(u, 0);
    lemma_lex_shift(w, v, 0);
}

/// An expression as the parser builds it from one token of the tokenizer: a
/// whole number in canonical text, the wildcard, or a column whose name is a
/// word and no keyword.
pub open spec fn is_plain_expression(expression: ExpressionView) -> bool {
    match expression {
        ExpressionView::Number(number) => {
            &&& number.number_type == NumberType::Int
            &&& is_digit_run(number.text)
            &&& canonical_number(number.text) == number.text
        },
        ExpressionView::Wildcard => true,
        ExpressionView::Column(name) => is_word(name) && keyword_kind(name)
            == TokenType::Identifier,
    }
}

/// The token that an expression renders to.
pub open spec fn token_of(expression: ExpressionView) -> TokenView {
    match expression {
        ExpressionView::Number(number) => TokenView {
            token_type: TokenType::Number,
            literal: number.text,
        },
        ExpressionView::Wildcard => TokenView { token_type: TokenType::Star, literal: seq!['*'] },
        ExpressionView::Column(name) => TokenView {
            token_type: TokenType::Identifier,
            literal: name,
        },
    }
}

/// The comma between two expressions of a selection.
pub open spec fn comma_token() -> TokenView {
    TokenView { token_type: TokenType::Comma, literal: seq![','] }
}

/// The tokens that a list of expressions renders to.
pub open spec fn list_tokens(expressions: Seq<ExpressionView>) -> Seq<TokenView>
    decreases expressions.len(),
{
    if expressions.len() == 0 {
        Seq::empty()
    } else if expressions.len() == 1 {
        seq![token_of(expressions[0])]
    } else {
        seq![token_of(expressions[0]), comma_token()] + list_tokens(expressions.drop_first())
    }
}

/// The tokens that the end of a statement renders to: `FROM` and the
/// source, where there is one, and `;`.
pub open spec fn tail_tokens(from: Option<ExpressionView>) -> Seq<TokenView> {
    let semicolon = TokenView { token_type: TokenType::SemiColon, literal: seq![';'] };
    match from {
        Some(from) => seq![
            TokenView { token_type: TokenType::From, literal: seq!['f', 'r', 'o', 'm'] },
            token_of(from),
            semicolon,
        ],
        None => seq![semicolon],
    }
}

/// The tokens that a statement renders to.
pub open spec fn select_tokens(
    selection: Seq<ExpressionView>,
    from: Option<ExpressionView>,
) -> Seq<TokenView> {
    seq![
        TokenView {
            token_type: TokenType::Select,
            literal: seq!['s', 'e', 'l', 'e', 'c', 't'],
        },
    ] + (list_tokens(selection) + tail_tokens(from))
}

/// The text of a list of two expressions or more is the text of the first,
/// `", "`, and the text of the others.
pub proof fn lemma_render_list_first(expressions: Seq<ExpressionView>)
    requires
        expressions.len() >= 2,
    ensures
        render_list(expressions) == render_expression(expressions[0]) + seq![',', ' ']
            + render_list(expressions.drop_first()),
    decreases expressions.len(),
{
    reveal_strlit(", ");
    assert(", "@ =~= seq![',', ' ']);
    let front = expressions.drop_last();
    let back = expressions.drop_first();
    if expressions.len() == 2 {
        assert(render_list(front) == render_expression(expressions[0]));
        assert(render_list(back) == render_expression(expressions[1]));
    } else {
        lemma_render_list_first(front);
        assert(front.drop_first() =~= back.drop_last());
        assert(front[0] == expressions[0]);
        assert(back.last() == expressions.last());
        assert(render_list(expressions) =~= render_expression(expressions[0]) + seq![',', ' ']
            + render_list(back));
    }
}

/// A plain expression renders to the literal form of its token, and the
/// parser reads that token as the expression again.
pub proof fn lemma_plain_expression(expression: ExpressionView)
    requires
        is_plain_expression(expression),
    ensures
        literal_kind(render_expression(expression)) == Some(token_of(expression).token_type),
        token_of(expression).literal == render_expression(expression),
        expression_of(token_of(expression)) == Some(expression),
{
    match expression {
        ExpressionView::Number(number) => {
            lemma_digit_run_is_number(number.text);
            assert(is_digit(number.text[0]));
        },
        ExpressionView::Wildcard => {
            reveal_strlit("*");
            assert("*"@ =~= seq!['*']);
        },
        ExpressionView::Column(name) => {},
    }
}

/// The text of a list of plain expressions, before a text that is
/// tokenized without error and begins with a delimiter, is tokenized to the
/// tokens of the list and then those of that text.
pub proof fn lemma_lex_list(expressions: Seq<ExpressionView>, tail: Seq<char>)
    requires
        expressions.len() >= 1,
        forall|k: int| 0 <= k < expressions.len() ==> is_plain_expression(#[trigger] expressions[k]),
        lex(tail) is Ok,
        tail.len() > 0,
        is_delimiter(tail[0]),
    ensures
        lex(render_list(expressions) + tail) == Ok::<Seq<TokenView>, LexError>(
            list_tokens(expressions) + lex(tail)->Ok_0,
        ),
    decreases expressions.len(),
{
    let first = expressions[0];
    let tail_tokens = lex(tail)->Ok_0;
    lemma_plain_expression(first);
    if expressions.len() == 1 {
        lemma_lex_token(render_expression(first), tail);
    } else {
        let rest = expressions.drop_first();
        assert forall|k: int| 0 <= k < rest.len() implies is_plain_expression(
            #[trigger] rest[k],
        ) by {
            assert(rest[k] == expressions[k + 1]);
        }
        lemma_lex_list(rest, tail);
        let after_space = render_list(rest) + tail;
        lemma_lex_space(after_space);
        let after_comma = seq![' '] + after_space;
        assert(after_comma[0] == ' ');
        lemma_lex_token(seq![','], after_comma);
        let after_first = seq![','] + after_comma;
        assert(after_first[0] == ',');
        lemma_lex_token(render_expression(first), after_first);
        lemma_render_list_first(expressions);
        assert(render_expression(first) + after_first =~= render_list(expressions) + tail);
        assert(seq![token_of(first)] + (seq![comma_token()] + (list_tokens(rest) + tail_tokens))
            =~= list_tokens(expressions) + tail_tokens);
    }
}

/// The end of a statement is tokenized to its tokens, and begins with a
/// delimiter.
pub proof fn lemma_lex_tail(from: Option<ExpressionView>) -> (tail: Seq<char>)
    requires
        from is Some ==> is_plain_expression(from->0),
    ensures
        tail == match from {
            Some(from) => " from "@ + render_expression(from),
            None => Seq::empty(),
        } + ";"@,
        lex(tail) == Ok::<Seq<TokenView>, LexError>(tail_tokens(from)),
        tail.len() > 0,
        is_delimiter(tail[0]),
{
    reveal_strlit(";");
    reveal_strlit(" from ");
    assert(";"@ =~= seq![';']);
    assert(" from "@ =~= seq![' ', 'f', 'r', 'o', 'm', ' ']);
    let end = seq![';'];
    lemma_single_token(end);
    match from {
        None => {
            let tail = Seq::<char>::empty() + ";"@;
            assert(tail =~= end);
            tail
        },
        Some(from) => {
            lemma_plain_expression(from);
            lemma_lex_token(render_expression(from), end);
            let after_space = render_expression(from) + end;
            lemma_lex_space(after_space);
            let after_word = seq![' '] + after_space;
            assert(after_word[0] == ' ');
            let word = seq!['f', 'r', 'o', 'm'];
            lemma_keyword_from(word);
            lemma_lex_token(word, after_word);
            let after_all = word + after_word;
            lemma_lex_space(after_all);
            let tail = " from "@ + render_expression(from) + ";"@;
            assert(tail =~= seq![' '] + after_all);
            assert(tail[0] == ' ');
            assert(seq![TokenView { token_type: TokenType::From, literal: word }] + (seq![
                token_of(from),
            ] + seq![TokenView { token_type: TokenType::SemiColon, literal: end }])
                =~= tail_tokens(Some(from)));
            tail
        },
    }
}

/// `from` is the literal form of the keyword `FROM`.
pub proof fn lemma_keyword_from(word: Seq<char>)
    requires
        word == seq!['f', 'r', 'o', 'm'],
    ensures
        literal_kind(word) == Some(TokenType::From),
{
    reveal_strlit("select");
    reveal_strlit("from");
    assert(same_word(word, "from"@));
    assert(!same_word(word, "select"@));
}

/// `select` is the literal form of the keyword `SELECT`.
pub proof fn lemma_keyword_select(word: Seq<char>)
    requires
        word == seq!['s', 'e', 'l', 'e', 'c', 't'],
    ensures
        literal_kind(word) == Some(TokenType::Select),
{
    reveal_strlit("select");
    assert(same_word(word, "select"@));
}

/// The text of a statement with plain expressions is tokenized to the
/// tokens of the statement.
pub proof fn lemma_lex_select(selection: Seq<ExpressionView>, from: Option<ExpressionView>)
    requires
        selection.len() >= 1,
        forall|k: int| 0 <= k < selection.len() ==> is_plain_expression(#[trigger] selection[k]),
        from is Some ==> is_plain_expression(from->0),
    ensures
        lex(render_select(plain_select(selection, from))) == Ok::<Seq<TokenView>, LexError>(
            select_tokens(selection, from),
        ),
{
    let tail = lemma_lex_tail(from);
    lemma_lex_list(selection, tail);
    let after_space = render_list(selection) + tail;
    lemma_lex_space(after_space);
    let after_word = seq![' '] + after_space;
    assert(after_word[0] == ' ');
    let word = seq!['s', 'e', 'l', 'e', 'c', 't'];
    lemma_keyword_select(word);
    lemma_lex_token(word, after_word);
    reveal_strlit("select ");
    assert("select "@ =~= seq!['s', 'e', 'l', 'e', 'c', 't', ' ']);
    assert(render_select(plain_select(selection, from)) =~= word + after_word);
}

/// In the tokens of a list, the expressions stand at the even offsets and
/// commas at the odd ones.
pub proof fn lemma_list_tokens(expressions: Seq<ExpressionView>)
    requires
        expressions.len() >= 1,
    ensures
        list_tokens(expressions).len() == 2 * expressions.len() - 1,
        forall|k: int|
            0 <= k < expressions.len() ==> list_tokens(expressions)[2 * k] == token_of(
                #[trigger] expressions[k],
            ),
        forall|k: int|
            0 <= k < expressions.len() - 1 ==> #[trigger] list_tokens(expressions)[2 * k + 1]
                == comma_token(),
    decreases expressions.len(),
{
    if expressions.len() > 1 {
        let rest = expressions.drop_first();
        lemma_list_tokens(rest);
        let all = list_tokens(expressions);
        assert forall|k: int| 0 <= k < expressions.len() implies all[2 * k] == token_of(
            #[trigger] expressions[k],
        ) by {
            if k > 0 {
                assert(rest[k - 1] == expressions[k]);
                assert(all[2 * k] == list_tokens(rest)[2 * (k - 1)]);
            }
        }
        assert forall|k: int| 0 <= k < expressions.len() - 1 implies #[trigger] all[2 * k + 1]
            == comma_token() by {
            if k > 0 {
                assert(all[2 * k + 1] == list_tokens(rest)[2 * (k - 1) + 1]);
            }
        }
    }
}

/// Rendering and reading back: the text that a statement with plain
/// expressions renders to is tokenized and parsed to that statement alone.
pub proof fn lemma_render_round_trip(
    selection: Seq<ExpressionView>,
    from: Option<ExpressionView>,
)
    requires
        selection.len() >= 1,
        forall|k: int| 0 <= k < selection.len() ==> is_plain_expression(#[trigger] selection[k]),
        from is Some ==> is_plain_expression(from->0),
    ensures
        query_of(render_select(plain_select(selection, from))) == Ok::<
            Seq<StatementView>,
            QueryErrorView,
        >(seq![StatementView::Select(plain_select(selection, from))]),
{
    lemma_lex_select(selection, from);
    lemma_list_tokens(selection);
    let n = selection.len() as int;
    let tokens = select_tokens(selection, from);
    let list = list_tokens(selection);
    let tail = tail_tokens(from);
    assert forall|k: int| 0 <= k < n implies expression_of(#[trigger] tokens[1 + 2 * k]) == Some(
        selection[k],
    ) by {
        assert(tokens[1 + 2 * k] == list[2 * k]);
        lemma_plain_expression(selection[k]);
    }
    assert forall|k: int| 0 <= k < n - 1 implies (#[trigger] tokens[1 + 2 * k + 1]).token_type
        == TokenType::Comma by {
        assert(tokens[1 + 2 * k + 1] == list[2 * k + 1]);
    }
    assert(tokens[2 * n] == tail[0]);
    if from is Some {
        lemma_plain_expression(from->0);
        assert(tokens[2 * n + 1] == tail[1]);
        assert(tokens[2 * n + 2] == tail[2]);
    }
    assert(is_expression_list(tokens, 1, n));
    assert(is_select_query(tokens, n, from is Some));
    lemma_select_query(tokens, n, from is Some);
    assert(listed_expressions(tokens, 1, n) =~= selection);
}

/// A token as the tokenizer yields it: a number is a run of digits, and an
/// identifier is a word and no keyword.
pub open spec fn is_lexed(token: TokenView) -> bool {
    &&& token.token_type == TokenType::Number ==> is_digit_run(token.literal)
    &&& token.token_type == TokenType::Identifier ==> is_word(token.literal) && keyword_kind(
        token.literal,
    ) == TokenType::Identifier
}

/// Every token of the sequence is as the tokenizer yields it.
pub open spec fn all_lexed(tokens: Seq<TokenView>) -> bool {
    forall|k: int| 0 <= k < tokens.len() ==> is_lexed(#[trigger] tokens[k])
}

/// A statement with plain expressions: at least one in its selection, a
/// plain source or none, and nothing more.
pub open spec fn is_plain_select(select: SelectView) -> bool {
    &&& select == plain_select(select.selection, select.from)
    &&& select.selection.len() >= 1
    &&& forall|k: int|
        0 <= k < select.selection.len() ==> is_plain_expression(#[trigger] select.selection[k])
    &&& select.from is Some ==> is_plain_expression(select.from->0)
}

/// The tokens of a text are as the tokenizer yields them.
pub proof fn lemma_lex_yields_lexed(s: Seq<char>, i: int)
    requires
        0 <= i <= s.len(),
    ensures
        match lex_from(s, i) {
            Ok(tokens) => all_lexed(tokens),
            Err(_) => true,
        },
    decreases s.len() - i,
{
    lemma_lex_step(s, i);
    lemma_skip_spaces(s, i);
    let start = skip_spaces(s, i);
    if start < s.len() {
        match token_at(s, start) {
            None => {},
            Some((kind, end)) => {
                lemma_lex_yields_lexed(s, end);
                lemma_number_end(s, start + 1);
                lemma_identifier_end(s, start + 1);
                let token = TokenView { token_type: kind, literal: s.subrange(start, end) };
                assert(is_lexed(token)) by {
                    if kind == TokenType::Number {
                        assert(is_digit_run(token.literal));
                    }
                    if kind == TokenType::Identifier {
                        assert(token.literal[0] == s[start]);
                        assert forall|k: int| 1 <= k < token.literal.len() implies is_identifier_part(
                            #[trigger] token.literal[k],
                        ) by {
                            assert(token.literal[k] == s[start + k]);
                        }
                        assert(is_word(token.literal));
                    }
                }
                match lex_from(s, end) {
                    Ok(rest) => {
                        let all = seq![token] + rest;
                        assert forall|k: int| 0 <= k < all.len() implies is_lexed(
                            #[trigger] all[k],
                        ) by {
                            if k > 0 {
                                assert(all[k] == rest[k - 1]);
                            }
                        }
                    },
                    Err(_) => {},
                }
            },
        }
    }
}

/// The expression that the parser builds from a token of the tokenizer is
/// plain.
pub proof fn lemma_expression_of_lexed(token: TokenView)
    requires
        is_lexed(token),
        expression_of(token) is Some,
    ensures
        is_plain_expression(expression_of(token)->0),
{
    if token.token_type == TokenType::Number {
        lemma_digit_run_is_number(token.literal);
        lemma_canonical_digits(token.literal);
    }
}

/// The selection that the parser reads from tokens of the tokenizer holds
/// plain expressions only.
pub proof fn lemma_selection_is_plain(tokens: Seq<TokenView>, i: int)
    requires
        all_lexed(tokens),
    ensures
        match selection_from(tokens, i) {
            Ok((selection, _)) => forall|k: int|
                0 <= k < selection.len() ==> is_plain_expression(#[trigger] selection[k]),
            Err(_) => true,
        },
    decreases tokens.len() - i,
{
    match expression_at(tokens, i) {
        Err(_) => {},
        Ok(first) => {
            lemma_expression_of_lexed(tokens[i]);
            if i + 1 < tokens.len() && tokens[i + 1].token_type == TokenType::Comma {
                lemma_selection_is_plain(tokens, i + 2);
                match selection_from(tokens, i + 2) {
                    Ok((rest, _)) => {
                        let all = seq![first] + rest;
                        assert forall|k: int| 0 <= k < all.len() implies is_plain_expression(
                            #[trigger] all[k],
                        ) by {
                            if k > 0 {
                                assert(all[k] == rest[k - 1]);
                            }
                        }
                    },
                    Err(_) => {},
                }
            }
        },
    }
}

/// The statements that the parser reads from tokens of the tokenizer are
/// statements with plain expressions.
pub proof fn lemma_statements_are_plain(tokens: Seq<TokenView>, i: int)
    requires
        all_lexed(tokens),
    ensures
        match statements_from(tokens, i) {
            Ok(statements) => forall|k: int|
                0 <= k < statements.len() ==> match #[trigger] statements[k] {
                    StatementView::Select(select) => is_plain_select(select),
                },
            Err(_) => true,
        },
    decreases tokens.len() - i,
{
    if 0 <= i < tokens.len() {
        match statement_at(tokens, i) {
            Err(_) => {},
            Ok((statement, end)) => {
                lemma_statement_at(tokens, i);
                lemma_selection_from(tokens, i + 1);
                lemma_selection_is_plain(tokens, i + 1);
                let stop = selection_from(tokens, i + 1)->Ok_0.1;
                if tokens[stop].token_type == TokenType::From {
                    lemma_expression_of_lexed(tokens[stop + 1]);
                }
                assert(select_at(tokens, i + 1) is Ok);
                match statement {
                    StatementView::Select(select) => {
                        assert(is_plain_select(select));
                    },
                }
                lemma_statements_are_plain(tokens, end);
                match statements_from(tokens, end) {
                    Ok(rest) => {
                        let all = seq![statement] + rest;
                        assert forall|k: int| 0 <= k < all.len() implies match #[trigger] all[k] {
                            StatementView::Select(select) => is_plain_select(select),
                        } by {
                            if k > 0 {
                                assert(all[k] == rest[k - 1]);
                            }
                        }
                    },
                    Err(_) => {},
                }
            },
        }
    }
}

/// Every statement of a query that is tokenized and parsed without error
/// renders to a text that is tokenized and parsed to that statement alone.
pub proof fn lemma_query_round_trip(source: Seq<char>, k: int)
    requires
        query_of(source) is Ok,
        0 <= k < query_of(source)->Ok_0.len(),
    ensures
        query_of(render_statement(query_of(source)->Ok_0[k])) == Ok::<
            Seq<StatementView>,
            QueryErrorView,
        >(seq![query_of(source)->Ok_0[k]]),
{
    lemma_lex_yields_lexed(source, 0);
    let tokens = lex(source)->Ok_0;
    lemma_statements_are_plain(tokens, 0);
    let statement = query_of(source)->Ok_0[k];
    match statement {
        StatementView::Select(select) => {
            lemma_render_round_trip(select.selection, select.from);
        },
    }
}

} // verus!
