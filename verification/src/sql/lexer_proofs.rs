//! What holds of the tokenizer on whole classes of texts.

use vstd::prelude::*;
use crate::sql::chars::{is_alphabetic, is_digit, is_digit_run, is_identifier_part, is_whitespace};
use crate::sql::lexer::{
    identifier_end, lemma_lex_step, lemma_skip_spaces, lex, lex_from, number_end,
    punctuation_kind, skip_spaces, token_at, LexError,
};
use crate::sql::token::{keyword_kind, TokenType, TokenView};

verus! {

/// The text is a word: it begins with an alphabetic character that is no
/// white space, and goes on with identifier characters.
pub open spec fn is_word(text: Seq<char>) -> bool {
    &&& text.len() > 0
    &&& is_alphabetic(text[0])
    &&& !is_whitespace(text[0])
    &&& forall|i: int| 1 <= i < text.len() ==> is_identifier_part(#[trigger] text[i])
}

/// The kind of token that `text` is the literal form of, if it is the
/// literal form of one: a punctuation character, an operator, a word (a
/// keyword or an identifier), or a run of digits.
pub open spec fn literal_kind(text: Seq<char>) -> Option<TokenType> {
    if text.len() == 1 && punctuation_kind(text[0]) is Some {
        punctuation_kind(text[0])
    } else if text.len() == 1 && text[0] == '<' {
        Some(TokenType::Lower)
    } else if text.len() == 1 && text[0] == '>' {
        Some(TokenType::Greater)
    } else if text.len() == 2 && text[0] == '<' && text[1] == '=' {
        Some(TokenType::LowerEqual)
    } else if text.len() == 2 && text[0] == '>' && text[1] == '=' {
        Some(TokenType::GreaterEqual)
    } else if is_word(text) {
        Some(keyword_kind(text))
    } else if is_digit_run(text) {
        Some(TokenType::Number)
    } else {
        None
    }
}

/// An identifier that is made of identifier characters up to `end` goes on
/// to `end` at least.
pub proof fn lemma_identifier_runs(s: Seq<char>, i: int, end: int)
    requires
        0 <= i <= end <= s.len(),
        forall|k: int| i <= k < end ==> is_identifier_part(#[trigger] s[k]),
    ensures
        identifier_end(s, i) == identifier_end(s, end),
    decreases end - i,
{
    if i < end {
        lemma_identifier_runs(s, i + 1, end);
    }
}

/// A number that is made of digits up to `end` goes on to `end` at least.
pub proof fn lemma_number_runs(s: Seq<char>, i: int, end: int)
    requires
        0 <= i <= end <= s.len(),
        forall|k: int| i <= k < end ==> is_digit(#[trigger] s[k]),
    ensures
        number_end(s, i) == number_end(s, end),
    decreases end - i,
{
    if i < end {
        lemma_number_runs(s, i + 1, end);
    }
}

/// A text that is the literal form of one token and nothing more is
/// tokenized to that token alone, of the expected kind and with the text as
/// its literal.
pub proof fn lemma_single_token(text: Seq<char>)
    requires
        literal_kind(text) is Some,
    ensures
        lex(text) == Ok::<Seq<TokenView>, LexError>(
            seq![TokenView { token_type: literal_kind(text)->0, literal: text }],
        ),
{
    let len = text.len() as int;
    let token = TokenView { token_type: literal_kind(text)->0, literal: text };
    assert(text.subrange(0, len) =~= text);
    assert(skip_spaces(text, 0) == 0);
    if is_word(text) {
        lemma_identifier_runs(text, 1, len);
    }
    if is_digit_run(text) {
        lemma_number_runs(text, 1, len);
    }
    assert(token_at(text, 0) == Some((token.token_type, len)));
    lemma_lex_step(text, 0);
    assert(lex_from(text, len) == Ok::<Seq<TokenView>, LexError>(Seq::empty()));
    assert(seq![token] + Seq::<TokenView>::empty() =~= seq![token]);
}

/// A lexical error names a character of the text, by its offset, that is
/// neither white space nor the beginning of a token. The text is one that
/// fits in memory.
pub proof fn lemma_lex_error(s: Seq<char>, i: int)
    requires
        0 <= i <= s.len() <= usize::MAX,
    ensures
        match lex_from(s, i) {
            Ok(_) => true,
            Err(e) => {
                &&& i <= e.position < s.len()
                &&& e.offending_char == s[e.position as int]
                &&& !is_whitespace(e.offending_char)
                &&& token_at(s, e.position as int) is None
            },
        },
    decreases s.len() - i,
{
    lemma_lex_step(s, i);
    lemma_skip_spaces(s, i);
    let start = skip_spaces(s, i);
    if start < s.len() {
        match token_at(s, start) {
            None => {},
            Some((_, end)) => {
                lemma_lex_error(s, end);
            },
        }
    }
}

/// A text whose first character after white space begins no token is a
/// lexical error at that character, whatever follows it.
pub proof fn lemma_unrecognized_character(s: Seq<char>)
    requires
        skip_spaces(s, 0) < s.len(),
        token_at(s, skip_spaces(s, 0)) is None,
    ensures
        lex(s) == Err::<Seq<TokenView>, LexError>(
            LexError {
                offending_char: s[skip_spaces(s, 0)],
                position: skip_spaces(s, 0) as usize,
            },
        ),
{
    lemma_lex_step(s, 0);
}

} // verus!
