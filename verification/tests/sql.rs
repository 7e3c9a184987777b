use eocene::sql::Expr;
use eocene::sql::Parser;
use eocene::sql::Query;
use eocene::sql::Token;
use eocene::sql::Tokenizer;

#[test]
fn can_parse_comparison_expressions() {
    let tokens = vec![
        Token::Identifier("age".to_string()),
        Token::GreaterThan,
        Token::Number(30),
        Token::EOF,
    ];
    let mut parser = Parser::new(tokens);

    let expr = parser.expr().unwrap();
    assert_eq!(
        expr,
        Expr::Comparison(
            Box::new(Expr::Column("age".to_string())),
            ">".to_string(),
            Box::new(Expr::Value(30))
        )
    );
}

#[test]
fn can_parse_parenthesized_expression() {
    let tokens = vec![
        Token::OpenParen,
        Token::Identifier("age".to_string()),
        Token::GreaterThan,
        Token::Number(30),
        Token::CloseParen,
        Token::And,
        Token::OpenParen,
        Token::Identifier("salary".to_string()),
        Token::GreaterThan,
        Token::Number(50000),
        Token::CloseParen,
        Token::EOF,
    ];
    let mut parser = Parser::new(tokens);

    let expr = parser.expr().unwrap();
    assert_eq!(
        expr,
        Expr::And(
            Box::new(Expr::Comparison(
                Box::new(Expr::Column("age".to_string())),
                ">".to_string(),
                Box::new(Expr::Value(30))
            )),
            Box::new(Expr::Comparison(
                Box::new(Expr::Column("salary".to_string())),
                ">".to_string(),
                Box::new(Expr::Value(50000))
            ))
        )
    );
}

#[test]
fn can_parse_basic_query() {
    let tokens = vec![
        Token::Select,
        Token::Identifier("id".to_string()),
        Token::Comma,
        Token::Identifier("name".to_string()),
        Token::From,
        Token::Identifier("employees".to_string()),
        Token::EOF,
    ];
    let mut parser = Parser::new(tokens);
    let query = parser.parse().unwrap();

    assert_eq!(
        query,
        Query::Select {
            columns: vec!["id".to_string(), "name".to_string()],
            table: "employees".to_string(),
            filter: None,
            order_by: None,
            limit: None
        }
    );
}

#[test]
fn can_parse_query_with_filter() {
    let tokens = vec![
        Token::Select,
        Token::Identifier("id".to_string()),
        Token::Comma,
        Token::Identifier("name".to_string()),
        Token::From,
        Token::Identifier("employees".to_string()),
        Token::Where,
        Token::Identifier("role".to_string()),
        Token::Equal,
        Token::Number(1),
        Token::EOF,
    ];
    let mut parser = Parser::new(tokens);
    let query = parser.parse().unwrap();

    assert_eq!(
        query,
        Query::Select {
            columns: vec!["id".to_string(), "name".to_string()],
            table: "employees".to_string(),
            filter: Some(Expr::Comparison(
                Box::new(Expr::Column("role".to_string())),
                "=".to_string(),
                Box::new(Expr::Value(1))
            )),
            order_by: None,
            limit: None
        }
    );
}

#[test]
fn can_parse_query_with_order_by() {
    let tokens = vec![
        Token::Select,
        Token::Identifier("id".to_string()),
        Token::Comma,
        Token::Identifier("name".to_string()),
        Token::From,
        Token::Identifier("employees".to_string()),
        Token::OrderBy,
        Token::Identifier("id".to_string()),
        Token::EOF,
    ];
    let mut parser = Parser::new(tokens);
    let query = parser.parse().unwrap();

    assert_eq!(
        query,
        Query::Select {
            columns: vec!["id".to_string(), "name".to_string()],
            table: "employees".to_string(),
            filter: None,
            order_by: Some("id".to_string()),
            limit: None
        }
    );
}

#[test]
fn can_parse_query_with_limit() {
    let tokens = vec![
        Token::Select,
        Token::Identifier("id".to_string()),
        Token::Comma,
        Token::Identifier("name".to_string()),
        Token::From,
        Token::Identifier("employees".to_string()),
        Token::Limit,
        Token::Number(10),
        Token::EOF,
    ];
    let mut parser = Parser::new(tokens);
    let query = parser.parse().unwrap();

    assert_eq!(
        query,
        Query::Select {
            columns: vec!["id".to_string(), "name".to_string()],
            table: "employees".to_string(),
            filter: None,
            order_by: None,
            limit: Some(10)
        }
    );
}

#[test]
fn tokenizer_scans_keywords_literals_and_punctuation() {
    let mut tokenizer = Tokenizer::new("SELECT id FROM t WHERE name = 'Ivy' LIMIT 3;");
    let tokens = tokenizer.tokenize().unwrap();
    assert_eq!(
        tokens,
        vec![
            Token::Select,
            Token::Identifier("id".to_string()),
            Token::From,
            Token::Identifier("t".to_string()),
            Token::Where,
            Token::Identifier("name".to_string()),
            Token::Equal,
            Token::Varchar("Ivy".to_string()),
            Token::Limit,
            Token::Number(3),
            Token::Semicolon,
            Token::EOF,
        ]
    );
}

#[test]
fn tokenizer_rejects_bad_input() {
    // an unexpected character
    assert!(Tokenizer::new("SELECT !").tokenize().is_err());
    // an unterminated text literal
    assert!(Tokenizer::new("SELECT 'abc").tokenize().is_err());
    // a number out of the 64-bit range
    assert!(Tokenizer::new("SELECT 99999999999999999999").tokenize().is_err());
}

#[test]
fn parser_rejects_malformed_queries() {
    let tokenize = |text: &str| Tokenizer::new(text).tokenize().unwrap();
    // missing FROM
    assert!(Parser::new(tokenize("SELECT id employees")).parse().is_err());
    // missing table name
    assert!(Parser::new(tokenize("SELECT id FROM")).parse().is_err());
    // trailing garbage after the statement
    assert!(Parser::new(tokenize("SELECT id FROM t; extra")).parse().is_err());
    // LIMIT without a number
    assert!(Parser::new(tokenize("SELECT id FROM t LIMIT x")).parse().is_err());
}

#[test]
fn tokenize_and_parse_round_trip() {
    // Tokenizing and parsing a SELECT yields the logical query: columns
    // id and name, table employees, no filter, ordering or limit.
    let mut tokenizer = Tokenizer::new("SELECT id,name FROM employees");
    let tokens = tokenizer.tokenize().unwrap();
    let query = Parser::new(tokens).parse().unwrap();
    assert_eq!(
        query,
        Query::Select {
            columns: vec!["id".to_string(), "name".to_string()],
            table: "employees".to_string(),
            filter: None,
            order_by: None,
            limit: None
        }
    );
}
