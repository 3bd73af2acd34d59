use minisql::sql::lexer::{tokenize, LexError, Lexer};
use minisql::sql::token::{lookup_identifier, Token, TokenType};

fn token(token_type: TokenType, literal: &str) -> Token {
    Token { token_type, literal: literal.to_string() }
}

fn single(source: &str, token_type: TokenType) {
    assert_eq!(tokenize(source), Ok(vec![token(token_type, source)]));
}

#[test]
fn it_works() {
    let input = "select 1;";
    let mut lexer = Lexer::new(input.to_string());

    let token = lexer.next_token();
    assert!(token.is_some());
    assert_eq!(TokenType::Select, token.unwrap().token_type);

    let token = lexer.next_token();
    assert!(token.is_some());
    assert_eq!(TokenType::Number, token.unwrap().token_type);

    let token = lexer.next_token();
    assert!(token.is_some());
    assert_eq!(TokenType::SemiColon, token.unwrap().token_type);
}

#[test]
fn lexer_simple_select_of_number() {
    let input = "select 1;";
    let mut lexer = Lexer::new(input.to_string());

    let token = lexer.next_token();
    assert!(token.is_some());
    assert_eq!(TokenType::Select, token.unwrap().token_type);

    let token = lexer.next_token();
    assert!(token.is_some());
    assert_eq!(TokenType::Number, token.unwrap().token_type);

    let token = lexer.next_token();
    assert!(token.is_some());
    assert_eq!(TokenType::SemiColon, token.unwrap().token_type);
}

#[test]
fn simple_select_of_column_from_table() {
    let input = "select foo from my_table;";
    let mut lexer = Lexer::new(input.to_string());

    let token = lexer.next_token();
    assert!(token.is_some());
    assert_eq!(TokenType::Select, token.unwrap().token_type);

    let token = lexer.next_token();
    assert!(token.is_some());
    let token = token.unwrap();
    assert_eq!(TokenType::Identifier, token.token_type);
    assert_eq!("foo", token.literal.as_str());

    let token = lexer.next_token();
    assert!(token.is_some());
    assert_eq!(TokenType::From, token.unwrap().token_type);

    let token = lexer.next_token();
    assert!(token.is_some());
    let token = token.unwrap();
    assert_eq!(TokenType::Identifier, token.token_type);
    assert_eq!("my_table", token.literal.as_str());
}

#[test]
fn simple_select_of_column_from_table_to_token_list() {
    let input = "select foo from my_table;";
    let mut lexer = Lexer::new(input.to_string());

    match lexer.tokenize_str() {
        Ok(r) => assert_eq!(5, r.len(), "{:?}", r),
        Err(err) => assert!(false, "{:?}", err),
    }
}

#[test]
fn simple_select_all_from_table_to_token_list() {
    let input = "select * from my_table;";
    let mut lexer = Lexer::new(input.to_string());

    match lexer.tokenize_str() {
        Ok(r) => assert_eq!(5, r.len()),
        Err(err) => assert!(false, "{:?}", err),
    }
}

#[test]
fn next_token_ends_with_none() {
    let mut lexer = Lexer::new("select 1;  ".to_string());
    assert!(lexer.next_token().is_some());
    assert!(lexer.next_token().is_some());
    assert!(lexer.next_token().is_some());
    assert_eq!(lexer.next_token(), None);
    assert_eq!(lexer.next_token(), None);
    assert!(lexer.is_at_end());
}

#[test]
fn next_token_stops_at_an_unrecognized_character() {
    let mut lexer = Lexer::new("a $ b".to_string());
    assert!(!lexer.is_at_end());
    assert_eq!(lexer.next_token(), Some(token(TokenType::Identifier, "a")));
    assert_eq!(lexer.next_token(), None);
    assert_eq!(lexer.next_token(), None);
    assert!(!lexer.is_at_end());
    assert_eq!(lexer.tokenize_str(), Err(LexError { offending_char: '$', position: 2 }));
}

#[test]
fn tokenize_str_reads_from_the_cursor_on() {
    let mut lexer = Lexer::new("select a, b".to_string());
    assert_eq!(lexer.next_token(), Some(token(TokenType::Select, "select")));
    assert_eq!(
        lexer.tokenize_str(),
        Ok(vec![
            token(TokenType::Identifier, "a"),
            token(TokenType::Comma, ","),
            token(TokenType::Identifier, "b"),
        ])
    );
    assert_eq!(lexer.tokenize_str(), Ok(vec![]));
}

#[test]
fn tokenize_select_of_number() {
    assert_eq!(
        tokenize("select 1;"),
        Ok(vec![
            token(TokenType::Select, "select"),
            token(TokenType::Number, "1"),
            token(TokenType::SemiColon, ";"),
        ])
    );
}

#[test]
fn tokenize_select_of_column_from_table() {
    assert_eq!(
        tokenize("select foo from my_table;"),
        Ok(vec![
            token(TokenType::Select, "select"),
            token(TokenType::Identifier, "foo"),
            token(TokenType::From, "from"),
            token(TokenType::Identifier, "my_table"),
            token(TokenType::SemiColon, ";"),
        ])
    );
}

#[test]
fn tokenize_select_all_from_table() {
    assert_eq!(
        tokenize("select * from my_table;"),
        Ok(vec![
            token(TokenType::Select, "select"),
            token(TokenType::Star, "*"),
            token(TokenType::From, "from"),
            token(TokenType::Identifier, "my_table"),
            token(TokenType::SemiColon, ";"),
        ])
    );
}

#[test]
fn each_literal_form_is_a_single_token() {
    single(";", TokenType::SemiColon);
    single(",", TokenType::Comma);
    single(".", TokenType::Dot);
    single("=", TokenType::Equal);
    single("*", TokenType::Star);
    single("(", TokenType::LeftParen);
    single(")", TokenType::RightParen);
    single("<", TokenType::Lower);
    single("<=", TokenType::LowerEqual);
    single(">", TokenType::Greater);
    single(">=", TokenType::GreaterEqual);
    single("select", TokenType::Select);
    single("from", TokenType::From);
    single("where", TokenType::Where);
    single("insert", TokenType::Insert);
    single("update", TokenType::Update);
    single("delete", TokenType::Delete);
    single("is", TokenType::Is);
    single("not", TokenType::Not);
    single("null", TokenType::Null);
    single("my_table", TokenType::Identifier);
    single("x1", TokenType::Identifier);
    single("0", TokenType::Number);
    single("0042", TokenType::Number);
}

#[test]
fn keywords_are_found_whatever_their_case() {
    single("SELECT", TokenType::Select);
    single("SeLeCt", TokenType::Select);
    single("From", TokenType::From);
    single("NULL", TokenType::Null);
    assert_eq!(lookup_identifier("WHERE"), TokenType::Where);
    assert_eq!(lookup_identifier("selects"), TokenType::Identifier);
    assert_eq!(lookup_identifier("selec"), TokenType::Identifier);
    assert_eq!(lookup_identifier("s\u{212a}"), TokenType::Identifier);
    assert_eq!(lookup_identifier(""), TokenType::Identifier);
}

#[test]
fn order_by_is_two_identifiers() {
    assert_eq!(
        tokenize("order by"),
        Ok(vec![token(TokenType::Identifier, "order"), token(TokenType::Identifier, "by")])
    );
}

#[test]
fn two_character_operators_need_the_equal_sign_next() {
    assert_eq!(
        tokenize("a<=b"),
        Ok(vec![
            token(TokenType::Identifier, "a"),
            token(TokenType::LowerEqual, "<="),
            token(TokenType::Identifier, "b"),
        ])
    );
    assert_eq!(
        tokenize("a >= 1"),
        Ok(vec![
            token(TokenType::Identifier, "a"),
            token(TokenType::GreaterEqual, ">="),
            token(TokenType::Number, "1"),
        ])
    );
    assert_eq!(
        tokenize("< ="),
        Ok(vec![token(TokenType::Lower, "<"), token(TokenType::Equal, "=")])
    );
    assert_eq!(
        tokenize("><"),
        Ok(vec![token(TokenType::Greater, ">"), token(TokenType::Lower, "<")])
    );
    assert_eq!(
        tokenize("=="),
        Ok(vec![token(TokenType::Equal, "="), token(TokenType::Equal, "=")])
    );
}

#[test]
fn numbers_are_runs_of_digits() {
    assert_eq!(
        tokenize("1.5"),
        Ok(vec![
            token(TokenType::Number, "1"),
            token(TokenType::Dot, "."),
            token(TokenType::Number, "5"),
        ])
    );
    assert_eq!(
        tokenize("12ab"),
        Ok(vec![token(TokenType::Number, "12"), token(TokenType::Identifier, "ab")])
    );
    assert_eq!(tokenize("a12"), Ok(vec![token(TokenType::Identifier, "a12")]));
}

#[test]
fn white_space_is_skipped() {
    assert_eq!(tokenize(""), Ok(vec![]));
    assert_eq!(tokenize(" \t\r\n\u{b}\u{c}"), Ok(vec![]));
    assert_eq!(tokenize("\u{a0}\u{2003}\u{3000}"), Ok(vec![]));
    assert_eq!(
        tokenize("select\u{a0}1;\n\n\n\n"),
        Ok(vec![
            token(TokenType::Select, "select"),
            token(TokenType::Number, "1"),
            token(TokenType::SemiColon, ";"),
        ])
    );
}

#[test]
fn characters_beyond_ascii_follow_unicode() {
    single("caf\u{e9}", TokenType::Identifier);
    single("\u{4eac}\u{90fd}", TokenType::Identifier);
    single("a\u{bd}", TokenType::Identifier);
    single("a\u{663}", TokenType::Identifier);
    assert_eq!(tokenize("\u{bd}"), Err(LexError { offending_char: '\u{bd}', position: 0 }));
    assert_eq!(tokenize("\u{663}"), Err(LexError { offending_char: '\u{663}', position: 0 }));
    assert_eq!(
        tokenize("\u{e9}t\u{e9} \u{1f49d}"),
        Err(LexError { offending_char: '\u{1f49d}', position: 4 })
    );
}

#[test]
fn an_unrecognized_character_is_a_lexical_error() {
    assert_eq!(tokenize("select $;"), Err(LexError { offending_char: '$', position: 7 }));
    assert_eq!(tokenize("$"), Err(LexError { offending_char: '$', position: 0 }));
    assert_eq!(tokenize("_a"), Err(LexError { offending_char: '_', position: 0 }));
    assert_eq!(tokenize("a - b"), Err(LexError { offending_char: '-', position: 2 }));
    assert_eq!(tokenize("'x'"), Err(LexError { offending_char: '\'', position: 0 }));
    assert_eq!(tokenize("a ! $"), Err(LexError { offending_char: '!', position: 2 }));
}

#[test]
fn token_duplicate_is_equal() {
    let first = token(TokenType::Identifier, "foo");
    assert_eq!(first.duplicate(), first);
}
