//! Tokens and the keyword table.

use vstd::prelude::*;
use vstd::string::*;
use crate::sql::number::is_number_text;

verus! {

/// The kinds of token.
#[derive(Debug, Eq, PartialEq, Hash, Clone, Copy, Structural)]
pub enum TokenType {
    // identifiers and literals
    Identifier,
    Number,
    // operators
    Equal,
    Lower,
    LowerEqual,
    Greater,
    GreaterEqual,
    Star,
    // delimiters
    SemiColon,
    Dot,
    Comma,
    LeftParen,
    RightParen,
    // keywords
    Select,
    From,
    Where,
    Is,
    Not,
    Null,
    OrderBy,
    Insert,
    Update,
    Delete,
}

/// A token: its kind and the exact text it was read from.
#[derive(Debug, Eq, PartialEq, Clone)]
pub struct Token {
    pub token_type: TokenType,
    pub literal: String,
}

/// A token as a mathematical value.
pub struct TokenView {
    pub token_type: TokenType,
    pub literal: Seq<char>,
}

impl View for Token {
    type V = TokenView;

    open spec fn view(&self) -> TokenView {
        TokenView { token_type: self.token_type, literal: self.literal@ }
    }
}

impl TokenView {
    /// What the parser asks of a token: the text of a number is a number
    /// literal. The tokenizer yields such tokens only.
    pub open spec fn well_formed(self) -> bool {
        self.token_type == TokenType::Number ==> is_number_text(self.literal)
    }
}

/// Every token of the sequence is well formed.
pub open spec fn all_well_formed(tokens: Seq<TokenView>) -> bool {
    forall|i: int| 0 <= i < tokens.len() ==> (#[trigger] tokens[i]).well_formed()
}

/// The views of a sequence of tokens, in order.
pub open spec fn token_views(tokens: Seq<Token>) -> Seq<TokenView> {
    tokens.map_values(|t: Token| t@)
}

impl Token {
    /// A token of the same kind and text.
    pub fn duplicate(&self) -> (copy: Token)
        ensures
            copy@ == self@,
    {
        Token { token_type: self.token_type, literal: self.literal.clone() }
    }
}

/// The lower-case form of an ASCII capital; any other character is itself.
pub open spec fn ascii_lower(c: char) -> char {
    if 'A' <= c && c <= 'Z' {
        ((c as u32) + 32) as char
    } else {
        c
    }
}

/// `text` is `word`, but for the case of its ASCII letters.
pub open spec fn same_word(text: Seq<char>, word: Seq<char>) -> bool {
    &&& text.len() == word.len()
    &&& forall|i: int| 0 <= i < text.len() ==> ascii_lower(#[trigger] text[i]) == word[i]
}

/// The keyword table: the kind of the keyword that `text` spells, whatever
/// its case, or `Identifier` if it spells none.
pub open spec fn keyword_kind(text: Seq<char>) -> TokenType {
    if same_word(text, "select"@) {
        TokenType::Select
    } else if same_word(text, "from"@) {
        TokenType::From
    } else if same_word(text, "where"@) {
        TokenType::Where
    } else if same_word(text, "insert"@) {
        TokenType::Insert
    } else if same_word(text, "update"@) {
        TokenType::Update
    } else if same_word(text, "delete"@) {
        TokenType::Delete
    } else if same_word(text, "is"@) {
        TokenType::Is
    } else if same_word(text, "not"@) {
        TokenType::Not
    } else if same_word(text, "null"@) {
        TokenType::Null
    } else {
        TokenType::Identifier
    }
}

/// Whether the lower-case form of `c` is `w`.
fn lower_is(c: char, w: char) -> (yes: bool)
    ensures
        yes == (ascii_lower(c) == w),
{
    if 'A' <= c && c <= 'Z' {
        (c as u32) + 32 == (w as u32)
    } else {
        c == w
    }
}

/// Whether `text` spells `word`, whatever its case.
fn spells(text: &str, word: &str) -> (yes: bool)
    ensures
        yes == same_word(text@, word@),
{
    let n: usize = word.unicode_len();
    if text.unicode_len() != n {
        return false;
    }
    let mut i: usize = 0;
    while i < n
        invariant
            n == word@.len(),
            n == text@.len(),
            i <= n,
            forall|j: int| 0 <= j < i ==> ascii_lower(#[trigger] text@[j]) == word@[j],
        decreases n - i,
    {
        if !lower_is(text.get_char(i), word.get_char(i)) {
            return false;
        }
        i += 1;
    }
    true
}

/// Looks `identifier` up in the keyword table.
pub fn lookup_identifier(identifier: &str) -> (kind: TokenType)
    ensures
        kind == keyword_kind(identifier@),
{
    if spells(identifier, "select") {
        TokenType::Select
    } else if spells(identifier, "from") {
        TokenType::From
    } else if spells(identifier, "where") {
        TokenType::Where
    } else if spells(identifier, "insert") {
        TokenType::Insert
    } else if spells(identifier, "update") {
        TokenType::Update
    } else if spells(identifier, "delete") {
        TokenType::Delete
    } else if spells(identifier, "is") {
        TokenType::Is
    } else if spells(identifier, "not") {
        TokenType::Not
    } else if spells(identifier, "null") {
        TokenType::Null
    } else {
        TokenType::Identifier
    }
}

} // verus!
