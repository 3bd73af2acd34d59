//! The tokenizer: a single forward pass over the characters of a query.

use vstd::prelude::*;
use vstd::string::*;
use crate::sql::chars::{
    char_is_alphabetic, char_is_whitespace, characters, is_alphabetic, is_decimal_digit,
    is_digit, is_digit_run, is_identifier_char, is_identifier_part, is_whitespace,
};
use crate::sql::number::lemma_digit_run_is_number;
use crate::sql::token::{
    all_well_formed, keyword_kind, lookup_identifier, token_views, Token, TokenType, TokenView,
};

verus! {

/// An unrecognized character, and its offset in characters from the start of
/// the source.
#[derive(Debug, PartialEq, Eq, Clone, Copy, Structural)]
pub struct LexError {
    pub offending_char: char,
    pub position: usize,
}

/// The first offset from `i` on that holds no white space.
pub open spec fn skip_spaces(s: Seq<char>, i: int) -> int
    decreases s.len() - i,
{
    if 0 <= i < s.len() && is_whitespace(s[i]) {
        skip_spaces(s, i + 1)
    } else {
        i
    }
}

/// The first offset from `i` on that holds no identifier character.
pub open spec fn identifier_end(s: Seq<char>, i: int) -> int
    decreases s.len() - i,
{
    if 0 <= i < s.len() && is_identifier_part(s[i]) {
        identifier_end(s, i + 1)
    } else {
        i
    }
}

/// The first offset from `i` on that holds no decimal digit.
pub open spec fn number_end(s: Seq<char>, i: int) -> int
    decreases s.len() - i,
{
    if 0 <= i < s.len() && is_digit(s[i]) {
        number_end(s, i + 1)
    } else {
        i
    }
}

/// The kind of the token that the character `c` is by itself, whatever
/// follows it.
pub open spec fn punctuation_kind(c: char) -> Option<TokenType> {
    if c == ';' {
        Some(TokenType::SemiColon)
    } else if c == ',' {
        Some(TokenType::Comma)
    } else if c == '.' {
        Some(TokenType::Dot)
    } else if c == '=' {
        Some(TokenType::Equal)
    } else if c == '*' {
        Some(TokenType::Star)
    } else if c == '(' {
        Some(TokenType::LeftParen)
    } else if c == ')' {
        Some(TokenType::RightParen)
    } else {
        None
    }
}

/// The token that begins at offset `i`, as its kind and the offset at which
/// it ends, or `None` if no token begins with the character there.
pub open spec fn token_at(s: Seq<char>, i: int) -> Option<(TokenType, int)>
    recommends
        0 <= i < s.len(),
{
    let c = s[i];
    let followed_by_equal = i + 1 < s.len() && s[i + 1] == '=';
    if punctuation_kind(c) is Some {
        Some((punctuation_kind(c)->0, i + 1))
    } else if c == '>' {
        if followed_by_equal {
            Some((TokenType::GreaterEqual, i + 2))
        } else {
            Some((TokenType::Greater, i + 1))
        }
    } else if c == '<' {
        if followed_by_equal {
            Some((TokenType::LowerEqual, i + 2))
        } else {
            Some((TokenType::Lower, i + 1))
        }
    } else if is_alphabetic(c) {
        let end = identifier_end(s, i + 1);
        Some((keyword_kind(s.subrange(i, end)), end))
    } else if is_digit(c) {
        Some((TokenType::Number, number_end(s, i + 1)))
    } else {
        None
    }
}

/// The tokens of `s` from offset `i` on, or the first character from there
/// on that begins no token.
pub open spec fn lex_from(s: Seq<char>, i: int) -> Result<Seq<TokenView>, LexError>
    decreases s.len() - i,
{
    let start = skip_spaces(s, i);
    if 0 <= i <= start < s.len() {
        match token_at(s, start) {
            None => Err(LexError { offending_char: s[start], position: start as usize }),
            Some((kind, end)) => {
                proof {
                    lemma_token_at(s, start);
                }
                let token = TokenView { token_type: kind, literal: s.subrange(start, end) };
                match lex_from(s, end) {
                    Ok(rest) => Ok(seq![token] + rest),
                    Err(e) => Err(e),
                }
            },
        }
    } else {
        Ok(Seq::empty())
    }
}

/// The tokens of a whole source text.
pub open spec fn lex(s: Seq<char>) -> Result<Seq<TokenView>, LexError> {
    lex_from(s, 0)
}

/// Skipping white space moves forward, stays inside the text, and stops at
/// its end or at a character that is no white space.
pub proof fn lemma_skip_spaces(s: Seq<char>, i: int)
    requires
        0 <= i <= s.len(),
    ensures
        i <= skip_spaces(s, i) <= s.len(),
        skip_spaces(s, i) < s.len() ==> !is_whitespace(s[skip_spaces(s, i)]),
        forall|k: int| i <= k < skip_spaces(s, i) ==> is_whitespace(#[trigger] s[k]),
    decreases s.len() - i,
{
    if i < s.len() && is_whitespace(s[i]) {
        lemma_skip_spaces(s, i + 1);
    }
}

/// An identifier ends inside the text, at its end or at a character that
/// cannot continue it.
pub proof fn lemma_identifier_end(s: Seq<char>, i: int)
    requires
        0 <= i <= s.len(),
    ensures
        i <= identifier_end(s, i) <= s.len(),
        identifier_end(s, i) < s.len() ==> !is_identifier_part(s[identifier_end(s, i)]),
        forall|k: int| i <= k < identifier_end(s, i) ==> is_identifier_part(#[trigger] s[k]),
    decreases s.len() - i,
{
    if i < s.len() && is_identifier_part(s[i]) {
        lemma_identifier_end(s, i + 1);
    }
}

/// A number ends inside the text, at its end or at a character that is no
/// digit, and holds digits only.
pub proof fn lemma_number_end(s: Seq<char>, i: int)
    requires
        0 <= i <= s.len(),
    ensures
        i <= number_end(s, i) <= s.len(),
        number_end(s, i) < s.len() ==> !is_digit(s[number_end(s, i)]),
        forall|k: int| i <= k < number_end(s, i) ==> is_digit(#[trigger] s[k]),
    decreases s.len() - i,
{
    if i < s.len() && is_digit(s[i]) {
        lemma_number_end(s, i + 1);
    }
}

/// A token is not empty and ends inside the text.
pub proof fn lemma_token_at(s: Seq<char>, i: int)
    requires
        0 <= i < s.len(),
    ensures
        match token_at(s, i) {
            Some((_, end)) => i < end <= s.len(),
            None => true,
        },
{
    lemma_identifier_end(s, i + 1);
    lemma_number_end(s, i + 1);
}

/// One step of the tokenizer: where a token begins after the white space at
/// `i`, the tokens from `i` on are that token and the tokens from its end on.
pub proof fn lemma_lex_step(s: Seq<char>, i: int)
    requires
        0 <= i <= s.len(),
    ensures
        ({
            let start = skip_spaces(s, i);
            if start >= s.len() {
                lex_from(s, i) == Ok::<Seq<TokenView>, LexError>(Seq::empty())
            } else {
                match token_at(s, start) {
                    None => lex_from(s, i) == Err::<Seq<TokenView>, LexError>(
                        LexError { offending_char: s[start], position: start as usize },
                    ),
                    Some((kind, end)) => {
                        let token = TokenView {
                            token_type: kind,
                            literal: s.subrange(start, end),
                        };
                        &&& start < end <= s.len()
                        &&& lex_from(s, i) == match lex_from(s, end) {
                            Ok(rest) => Ok::<Seq<TokenView>, LexError>(seq![token] + rest),
                            Err(e) => Err(e),
                        }
                    },
                }
            }
        }),
{
    lemma_skip_spaces(s, i);
    let start = skip_spaces(s, i);
    if start < s.len() {
        lemma_token_at(s, start);
    }
}

/// The tokenizer yields well-formed tokens only.
pub proof fn lemma_lex_well_formed(s: Seq<char>, i: int)
    requires
        0 <= i <= s.len(),
    ensures
        match lex_from(s, i) {
            Ok(tokens) => all_well_formed(tokens),
            Err(_) => true,
        },
    decreases s.len() - i,
{
    lemma_lex_step(s, i);
    let start = skip_spaces(s, i);
    if start < s.len() {
        match token_at(s, start) {
            None => {},
            Some((kind, end)) => {
                lemma_lex_well_formed(s, end);
                lemma_number_end(s, start + 1);
                let token = TokenView { token_type: kind, literal: s.subrange(start, end) };
                if kind == TokenType::Number {
                    assert(is_digit_run(token.literal));
                    lemma_digit_run_is_number(token.literal);
                }
                match lex_from(s, end) {
                    Ok(rest) => {
                        let all = seq![token] + rest;
                        assert forall|k: int| 0 <= k < all.len() implies (#[trigger] all[k]).well_formed() by {
                            if k > 0 {
                                assert(all[k] == rest[k - 1]);
                            }
                        }
                    },
                    Err(_) => {},
                }
            },
        }
    }
}

/// The tokens read so far, followed by what the rest of the text yields.
pub open spec fn after_tokens(
    done: Seq<TokenView>,
    rest: Result<Seq<TokenView>, LexError>,
) -> Result<Seq<TokenView>, LexError> {
    match rest {
        Ok(more) => Ok(done + more),
        Err(e) => Err(e),
    }
}

/// The kind of the token that `c` is by itself, if it is one.
fn punctuation(c: char) -> (kind: Option<TokenType>)
    ensures
        kind == punctuation_kind(c),
{
    if c == ';' {
        Some(TokenType::SemiColon)
    } else if c == ',' {
        Some(TokenType::Comma)
    } else if c == '.' {
        Some(TokenType::Dot)
    } else if c == '=' {
        Some(TokenType::Equal)
    } else if c == '*' {
        Some(TokenType::Star)
    } else if c == '(' {
        Some(TokenType::LeftParen)
    } else if c == ')' {
        Some(TokenType::RightParen)
    } else {
        None
    }
}

/// A single forward cursor over the characters of a source text.
pub struct Lexer {
    input: String,
    chars: Vec<char>,
    position: usize,
}

impl Lexer {
    /// The source text, as its characters.
    pub closed spec fn source(&self) -> Seq<char> {
        self.input@
    }

    /// The offset of the next character to read.
    pub closed spec fn cursor(&self) -> int {
        self.position as int
    }

    /// The cursor stands inside the text or at its end.
    pub closed spec fn wf(&self) -> bool {
        &&& self.chars@ == self.input@
        &&& self.position <= self.chars@.len()
    }

    /// A cursor at the start of `input`.
    pub fn new(input: String) -> (lexer: Lexer)
        ensures
            lexer.wf(),
            lexer.source() == input@,
            lexer.cursor() == 0,
    {
        let chars = characters(input.as_str());
        Lexer { input, chars, position: 0 }
    }

    /// Whether every character has been read. After `next_token` has
    /// returned `None`, this tells the end of the text from a character that
    /// begins no token.
    pub fn is_at_end(&self) -> (at_end: bool)
        requires
            self.wf(),
        ensures
            at_end == (self.cursor() >= self.source().len()),
    {
        self.position >= self.chars.len()
    }

    /// The character that follows the one under the cursor, if there is one.
    fn peek_char(&self) -> (next: Option<char>)
        requires
            self.wf(),
        ensures
            next == if self.cursor() + 1 < self.source().len() {
                Some(self.source()[self.cursor() + 1])
            } else {
                None::<char>
            },
    {
        if self.position < self.chars.len() && self.position + 1 < self.chars.len() {
            Some(self.chars[self.position + 1])
        } else {
            None
        }
    }

    /// Moves the cursor past one character, unless it stands at the end.
    fn read_char(&mut self)
        requires
            old(self).wf(),
        ensures
            final(self).wf(),
            final(self).source() == old(self).source(),
            final(self).cursor() == if old(self).cursor() < old(self).source().len() {
                old(self).cursor() + 1
            } else {
                old(self).cursor()
            },
    {
        if self.position < self.chars.len() {
            self.position += 1;
        }
    }

    /// Moves the cursor past white space.
    fn skip_whitespace(&mut self)
        requires
            old(self).wf(),
        ensures
            final(self).wf(),
            final(self).source() == old(self).source(),
            final(self).cursor() == skip_spaces(old(self).source(), old(self).cursor()),
    {
        while self.position < self.chars.len() && char_is_whitespace(self.chars[self.position])
            invariant
                self.wf(),
                self.source() == old(self).source(),
                skip_spaces(self.source(), self.cursor()) == skip_spaces(
                    old(self).source(),
                    old(self).cursor(),
                ),
            decreases self.chars@.len() - self.position,
        {
            self.position += 1;
        }
    }

    /// The text from offset `from` up to the cursor.
    fn text_since(&self, from: usize) -> (text: String)
        requires
            self.wf(),
            from <= self.cursor(),
        ensures
            text@ == self.source().subrange(from as int, self.cursor()),
    {
        self.input.as_str().substring_char(from, self.position).to_owned()
    }

    /// Reads the identifier or keyword that begins under the cursor: its
    /// first character, and the identifier characters that follow.
    fn read_identifier(&mut self) -> (literal: String)
        requires
            old(self).wf(),
            old(self).cursor() < old(self).source().len(),
        ensures
            final(self).wf(),
            final(self).source() == old(self).source(),
            final(self).cursor() == identifier_end(old(self).source(), old(self).cursor() + 1),
            literal@ == old(self).source().subrange(old(self).cursor(), final(self).cursor()),
    {
        let beginning: usize = self.position;
        assert(self.position < self.chars.len());
        self.position += 1;
        while self.position < self.chars.len() && is_identifier_char(self.chars[self.position])
            invariant
                self.wf(),
                self.source() == old(self).source(),
                beginning < self.position,
                beginning == old(self).cursor(),
                identifier_end(self.source(), self.cursor()) == identifier_end(
                    old(self).source(),
                    old(self).cursor() + 1,
                ),
            decreases self.chars@.len() - self.position,
        {
            self.position += 1;
        }
        self.text_since(beginning)
    }

    /// Reads the number that begins under the cursor: its first character,
    /// and the decimal digits that follow.
    fn read_number(&mut self) -> (literal: String)
        requires
            old(self).wf(),
            old(self).cursor() < old(self).source().len(),
        ensures
            final(self).wf(),
            final(self).source() == old(self).source(),
            final(self).cursor() == number_end(old(self).source(), old(self).cursor() + 1),
            literal@ == old(self).source().subrange(old(self).cursor(), final(self).cursor()),
    {
        let beginning: usize = self.position;
        assert(self.position < self.chars.len());
        self.position += 1;
        while self.position < self.chars.len() && is_decimal_digit(self.chars[self.position])
            invariant
                self.wf(),
                self.source() == old(self).source(),
                beginning < self.position,
                beginning == old(self).cursor(),
                number_end(self.source(), self.cursor()) == number_end(
                    old(self).source(),
                    old(self).cursor() + 1,
                ),
            decreases self.chars@.len() - self.position,
        {
            self.position += 1;
        }
        self.text_since(beginning)
    }

    /// Reads the next token. Returns `None`, with the cursor at the end,
    /// where only white space is left; returns `None`, with the cursor on the
    /// character, where a character begins no token.
    pub fn next_token(&mut self) -> (token: Option<Token>)
        requires
            old(self).wf(),
        ensures
            final(self).wf(),
            final(self).source() == old(self).source(),
            old(self).cursor() <= final(self).cursor(),
            ({
                let s = old(self).source();
                let start = skip_spaces(s, old(self).cursor());
                if start >= s.len() {
                    token is None && final(self).cursor() == s.len()
                } else {
                    match token_at(s, start) {
                        None => token is None && final(self).cursor() == start,
                        Some((kind, end)) => {
                            &&& token is Some
                            &&& token->0@ == (TokenView {
                                token_type: kind,
                                literal: s.subrange(start, end),
                            })
                            &&& final(self).cursor() == end
                        },
                    }
                }
            }),
    {
        proof {
            lemma_skip_spaces(self.source(), self.cursor());
        }
        self.skip_whitespace();
        if self.is_at_end() {
            return None;
        }
        let beginning: usize = self.position;
        let current_char: char = self.chars[self.position];
        match punctuation(current_char) {
            Some(token_type) => {
                self.read_char();
                Some(Token { token_type, literal: self.text_since(beginning) })
            },
            None => {
                if current_char == '>' || current_char == '<' {
                    let widened = match self.peek_char() {
                        Some(next_char) => next_char == '=',
                        None => false,
                    };
                    self.read_char();
                    if widened {
                        self.read_char();
                    }
                    let token_type = if current_char == '>' {
                        if widened {
                            TokenType::GreaterEqual
                        } else {
                            TokenType::Greater
                        }
                    } else {
                        if widened {
                            TokenType::LowerEqual
                        } else {
                            TokenType::Lower
                        }
                    };
                    Some(Token { token_type, literal: self.text_since(beginning) })
                } else if char_is_alphabetic(current_char) {
                    proof {
                        lemma_identifier_end(self.source(), self.cursor() + 1);
                    }
                    let literal = self.read_identifier();
                    Some(Token { token_type: lookup_identifier(literal.as_str()), literal })
                } else if is_decimal_digit(current_char) {
                    proof {
                        lemma_number_end(self.source(), self.cursor() + 1);
                    }
                    Some(Token { token_type: TokenType::Number, literal: self.read_number() })
                } else {
                    None
                }
            },
        }
    }

    /// Reads every token from the cursor to the end of the text. At the
    /// first character that begins no token it stops, with the cursor on
    /// that character, and returns the error alone.
    pub fn tokenize_str(&mut self) -> (result: Result<Vec<Token>, LexError>)
        requires
            old(self).wf(),
        ensures
            final(self).wf(),
            final(self).source() == old(self).source(),
            old(self).cursor() <= final(self).cursor(),
            match lex_from(old(self).source(), old(self).cursor()) {
                Ok(tokens) => {
                    &&& result is Ok
                    &&& token_views(result->Ok_0@) == tokens
                    &&& all_well_formed(tokens)
                    &&& final(self).cursor() == old(self).source().len()
                },
                Err(e) => result == Err::<Vec<Token>, LexError>(e) && final(self).cursor()
                    == e.position,
            },
    {
        let mut tokens: Vec<Token> = Vec::new();
        proof {
            lemma_lex_well_formed(self.source(), self.cursor());
            assert(token_views(tokens@) + lex_from(self.source(), self.cursor())->Ok_0
                =~= lex_from(self.source(), self.cursor())->Ok_0);
        }
        loop
            invariant
                self.wf(),
                self.source() == old(self).source(),
                old(self).cursor() <= self.cursor(),
                lex_from(old(self).source(), old(self).cursor()) == after_tokens(
                    token_views(tokens@),
                    lex_from(self.source(), self.cursor()),
                ),
                match lex_from(old(self).source(), old(self).cursor()) {
                    Ok(all) => all_well_formed(all),
                    Err(_) => true,
                },
            decreases self.source().len() - self.cursor(),
        {
            proof {
                lemma_lex_step(self.source(), self.cursor());
            }
            let ghost before = token_views(tokens@);
            match self.next_token() {
                Some(token) => {
                    tokens.push(token);
                    proof {
                        let rest = lex_from(self.source(), self.cursor());
                        assert(token_views(tokens@) =~= before.push(token@));
                        match rest {
                            Ok(more) => {
                                assert(before + (seq![token@] + more) =~= before.push(token@)
                                    + more);
                            },
                            Err(_) => {},
                        }
                    }
                },
                None => {
                    if self.is_at_end() {
                        proof {
                            assert(before + Seq::<TokenView>::empty() =~= before);
                        }
                        return Ok(tokens);
                    } else {
                        return Err(
                            LexError {
                                offending_char: self.chars[self.position],
                                position: self.position,
                            },
                        );
                    }
                },
            }
        }
    }
}

/// Reads the tokens of `source`, or reports the first character in it that
/// begins no token.
pub fn tokenize(source: &str) -> (result: Result<Vec<Token>, LexError>)
    ensures
        match lex(source@) {
            Ok(tokens) => {
                &&& result is Ok
                &&& token_views(result->Ok_0@) == tokens
                &&& all_well_formed(tokens)
            },
            Err(e) => result == Err::<Vec<Token>, LexError>(e),
        },
{
    let mut lexer = Lexer::new(source.to_owned());
    lexer.tokenize_str()
}

} // verus!
