use minisql::database::{parse_query, QueryError};
use minisql::sql::ast::{
    Ast, Expression, Node, NumberExpr, NumberType, SelectStatement, Statement,
};
use minisql::sql::lexer::{tokenize, LexError, Lexer};
use minisql::sql::number::{canonical_text, contains_dot};
use minisql::sql::parser::{parse, ParseError, Parser};
use minisql::sql::token::{Token, TokenType};

fn token(token_type: TokenType, literal: &str) -> Token {
    Token { token_type, literal: literal.to_string() }
}

fn whole_number(text: &str) -> Expression {
    Expression::Number(NumberExpr { number_type: NumberType::Int, text: text.to_string() })
}

fn column(name: &str) -> Expression {
    Expression::Column(name.to_string())
}

fn select(selection: Vec<Expression>, from: Option<Expression>) -> Statement {
    Statement::Select(SelectStatement {
        selection,
        from,
        joins: vec![],
        group_by: vec![],
        order_by: vec![],
    })
}

fn parse_text(source: &str) -> Result<Ast, ParseError> {
    parse(tokenize(source).unwrap())
}

#[test]
fn parser_simple_select_of_number() {
    let input = "select 1;";
    let mut lexer = Lexer::new(input.to_string());
    let tokens = match lexer.tokenize_str() {
        Ok(result) => result,
        Err(err) => {
            assert!(false, "Lexing failed: {:?}", err);
            return;
        }
    };

    let mut parser = Parser::new(tokens);

    match parser.create_ast() {
        Ok(ast) => {
            assert_eq!(1, ast.statements.len());

            let select_statement = ast.statements.first().unwrap();
            assert_eq!(input, select_statement.to_string());
        }
        Err(err) => {
            assert!(false, "Parsing failed: {:?}", err)
        }
    }
}

#[test]
fn simple_select_all_from_table() {
    let input = "select * from table_name;";
    let mut lexer = Lexer::new(input.to_string());
    let tokens = match lexer.tokenize_str() {
        Ok(result) => result,
        Err(err) => {
            assert!(false, "Lexing failed: {:?}", err);
            return;
        }
    };

    let mut parser = Parser::new(tokens);

    match parser.create_ast() {
        Ok(ast) => {
            assert_eq!(1, ast.statements.len());

            let select_statement = ast.statements.first().unwrap();
            assert_eq!(input, select_statement.to_string());
        }
        Err(err) => {
            assert!(false, "Parsing failed: {:?}", err)
        }
    }
}

#[test]
fn select_of_number_round_trips() {
    let ast = parse_query("select 1;").unwrap();
    assert_eq!(ast.statements.len(), 1);
    assert_eq!(ast.statements[0].to_string(), "select 1;");
    assert_eq!(ast, Ast { statements: vec![select(vec![whole_number("1")], None)] });
}

#[test]
fn selection_holds_each_expression_between_commas() {
    let ast = parse_text("select a, 2 ,*,b from t;").unwrap();
    assert_eq!(
        ast,
        Ast {
            statements: vec![select(
                vec![column("a"), whole_number("2"), Expression::Wildcard, column("b")],
                Some(column("t")),
            )],
        }
    );
    match &ast.statements[0] {
        Statement::Select(statement) => {
            assert_eq!(statement.selection.len(), 4);
            assert_eq!(statement.to_string(), "select a, 2, *, b from t;");
        }
    }
}

#[test]
fn rendering_is_found_again_by_parsing() {
    let first = parse_query("SELECT  007 ,x\n FROM  T ;").unwrap();
    let text = first.statements[0].to_string();
    assert_eq!(text, "select 7, x from T;");
    let second = parse_query(text.as_str()).unwrap();
    assert_eq!(first, second);
    assert_eq!(second.statements[0].to_string(), text);
}

#[test]
fn statements_follow_each_other() {
    let ast = parse_text("select 1; select x from t select 3;").unwrap();
    assert_eq!(
        ast,
        Ast {
            statements: vec![
                select(vec![whole_number("1")], None),
                select(vec![column("x")], Some(column("t"))),
                select(vec![whole_number("3")], None),
            ],
        }
    );
}

#[test]
fn semicolon_is_optional_behind_the_source() {
    let ast = parse_text("select 1 from t").unwrap();
    assert_eq!(ast, Ast { statements: vec![select(vec![whole_number("1")], Some(column("t")))] });
    assert_eq!(ast.statements[0].to_string(), "select 1 from t;");
}

#[test]
fn no_tokens_are_an_empty_program() {
    assert_eq!(parse(vec![]), Ok(Ast { statements: vec![] }));
    assert_eq!(parse_query(""), Ok(Ast { statements: vec![] }));
    assert_eq!(parse_query("\n\n\n\n"), Ok(Ast { statements: vec![] }));
    assert_eq!(
        parse_query("select 1;\n\n\n\n"),
        Ok(Ast { statements: vec![select(vec![whole_number("1")], None)] })
    );
}

#[test]
fn unterminated_selection_is_an_error() {
    assert_eq!(parse_text("select 1"), Err(ParseError::UnterminatedStatement));
    assert_eq!(parse_text("select a, b"), Err(ParseError::UnterminatedStatement));
    assert_eq!(parse_text("select 1; select *"), Err(ParseError::UnterminatedStatement));
}

#[test]
fn unsupported_statement_is_an_error() {
    assert_eq!(
        parse_text("delete 1;"),
        Err(ParseError::UnsupportedStatement(token(TokenType::Delete, "delete")))
    );
    assert_eq!(
        parse_text("select 1; 2;"),
        Err(ParseError::UnsupportedStatement(token(TokenType::Number, "2")))
    );
    assert_eq!(
        parse_text(";"),
        Err(ParseError::UnsupportedStatement(token(TokenType::SemiColon, ";")))
    );
}

#[test]
fn unexpected_token_is_an_error() {
    assert_eq!(
        parse_text("select 1 2;"),
        Err(ParseError::UnexpectedToken(token(TokenType::Number, "2")))
    );
    assert_eq!(
        parse_text("select a.b;"),
        Err(ParseError::UnexpectedToken(token(TokenType::Dot, ".")))
    );
    assert_eq!(
        parse_text("select a where b;"),
        Err(ParseError::UnexpectedToken(token(TokenType::Where, "where")))
    );
}

#[test]
fn unsupported_expression_is_an_error() {
    assert_eq!(parse_text("select"), Err(ParseError::UnsupportedExpression(None)));
    assert_eq!(parse_text("select 1,"), Err(ParseError::UnsupportedExpression(None)));
    assert_eq!(parse_text("select 1 from"), Err(ParseError::UnsupportedExpression(None)));
    assert_eq!(
        parse_text("select ;"),
        Err(ParseError::UnsupportedExpression(Some(token(TokenType::SemiColon, ";"))))
    );
    assert_eq!(
        parse_text("select 1, from t;"),
        Err(ParseError::UnsupportedExpression(Some(token(TokenType::From, "from"))))
    );
    assert_eq!(
        parse_text("select 1 from (t);"),
        Err(ParseError::UnsupportedExpression(Some(token(TokenType::LeftParen, "("))))
    );
}

#[test]
fn parse_statement_reads_one_statement() {
    let mut parser = Parser::new(tokenize("select 1; select 2;").unwrap());
    assert_eq!(parser.parse_statement(), Ok(select(vec![whole_number("1")], None)));
    assert_eq!(parser.parse_statement(), Ok(select(vec![whole_number("2")], None)));
    assert_eq!(parser.parse_statement(), Err(ParseError::UnexpectedEnd));
    let mut empty = Parser::new(vec![]);
    assert_eq!(empty.parse_statement(), Err(ParseError::UnexpectedEnd));
    assert_eq!(empty.create_ast(), Ok(Ast { statements: vec![] }));
}

#[test]
fn parse_query_tells_lexical_and_parse_errors_apart() {
    assert_eq!(
        parse_query("select $;"),
        Err(QueryError::Lex(LexError { offending_char: '$', position: 7 }))
    );
    assert_eq!(
        parse_query("delete 1;"),
        Err(QueryError::Parse(ParseError::UnsupportedStatement(token(
            TokenType::Delete,
            "delete"
        ))))
    );
    assert_eq!(
        parse_query("delete $"),
        Err(QueryError::Lex(LexError { offending_char: '$', position: 7 }))
    );
    assert_eq!(parse_query("select 1"), Err(QueryError::Parse(ParseError::UnterminatedStatement)));
}

#[test]
fn number_text_is_canonical() {
    assert_eq!(canonical_text("1"), "1");
    assert_eq!(canonical_text("0"), "0");
    assert_eq!(canonical_text("000"), "0");
    assert_eq!(canonical_text("007"), "7");
    assert_eq!(canonical_text("100"), "100");
    assert_eq!(canonical_text("1.5"), "1.5");
    assert_eq!(canonical_text("01.50"), "1.5");
    assert_eq!(canonical_text("1.0"), "1");
    assert_eq!(canonical_text("0.0"), "0");
    assert_eq!(canonical_text("00.0100"), "0.01");
    assert_eq!(canonical_text("12345678901234567890123"), "12345678901234567890123");
    assert!(contains_dot("1.5"));
    assert!(!contains_dot("15"));
}

#[test]
fn number_kind_follows_the_text() {
    let whole = NumberExpr::new("042".to_string());
    assert_eq!(whole, NumberExpr { number_type: NumberType::Int, text: "42".to_string() });
    assert_eq!(whole.to_string(), "42");
    let fraction = NumberExpr::new("2.50".to_string());
    assert_eq!(fraction, NumberExpr { number_type: NumberType::Double, text: "2.5".to_string() });
    assert_eq!(fraction.to_string(), "2.5");
}

#[test]
fn whole_number_is_held_as_its_decimal_text() {
    assert_eq!(NumberExpr::new_int(0), NumberExpr { number_type: NumberType::Int, text: "0".to_string() });
    assert_eq!(NumberExpr::new_int(7).to_string(), "7");
    assert_eq!(NumberExpr::new_int(42).to_string(), "42");
    assert_eq!(NumberExpr::new_int(1000).to_string(), "1000");
    assert_eq!(NumberExpr::new_int(-5).to_string(), "-5");
    assert_eq!(NumberExpr::new_int(i32::MAX).to_string(), "2147483647");
    assert_eq!(NumberExpr::new_int(i32::MIN).to_string(), "-2147483648");
    assert_eq!(NumberExpr::new_int(120), NumberExpr::new("0120".to_string()));
}

#[test]
fn number_token_with_fraction_is_a_double() {
    let tokens = vec![
        token(TokenType::Select, "select"),
        token(TokenType::Number, "1.50"),
        token(TokenType::SemiColon, ";"),
    ];
    let ast = parse(tokens).unwrap();
    assert_eq!(ast.statements[0].to_string(), "select 1.5;");
}

#[test]
fn new_select_statement_is_empty() {
    let statement = SelectStatement::new();
    assert!(statement.selection.is_empty());
    assert!(statement.from.is_none());
    assert!(statement.joins.is_empty());
    assert!(statement.group_by.is_empty());
    assert!(statement.order_by.is_empty());
    assert_eq!(statement.to_string(), "select ;");
}

#[test]
fn expressions_render_to_their_text() {
    assert_eq!(Expression::Wildcard.to_string(), "*");
    assert_eq!(column("my_table").to_string(), "my_table");
    assert_eq!(whole_number("12").to_string(), "12");
}
