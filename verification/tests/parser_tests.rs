use minilang::lexer::Lexer;
use minilang::lexer_error::LexError;
use minilang::parser::{Expression, Parser, ParserError, Statement};
use minilang::token::TokenType;

fn parse(input: &str) -> Result<Vec<Statement>, ParserError> {
    let lexer = Lexer::new(input);
    let mut parser = Parser::new(lexer)?;
    parser.parse_program()
}

#[test]
fn parses_a_let_statement() {
    let prog = parse("let x = 5 + 3;").unwrap();
    assert_eq!(
        prog,
        vec![Statement::Let(
            "x".to_string(),
            Expression::Binary(
                Box::new(Expression::Int(5)),
                TokenType::Plus,
                Box::new(Expression::Int(3)),
            ),
        )]
    );
}

#[test]
fn expressions_fold_flat_and_left_associative() {
    // no operator precedence: 2 + 3 * 4 parses as (2 + 3) * 4
    let prog = parse("2 + 3 * 4").unwrap();
    assert_eq!(
        prog,
        vec![Statement::Expression(Expression::Binary(
            Box::new(Expression::Binary(
                Box::new(Expression::Int(2)),
                TokenType::Plus,
                Box::new(Expression::Int(3)),
            )),
            TokenType::Star,
            Box::new(Expression::Int(4)),
        ))]
    );
}

#[test]
fn parses_the_three_statement_program() {
    let prog = parse("let x = 5 + 3; let y = x * 2; print(y + 5);").unwrap();
    assert_eq!(prog.len(), 3);
    assert!(matches!(&prog[0], Statement::Let(n, _) if n == "x"));
    assert!(matches!(&prog[1], Statement::Let(n, _) if n == "y"));
    assert!(matches!(&prog[2], Statement::Print(_)));
}

#[test]
fn print_parentheses_and_semicolons_are_optional() {
    let with = parse("print(7);").unwrap();
    let without = parse("print 7").unwrap();
    assert_eq!(with, vec![Statement::Print(Expression::Int(7))]);
    assert_eq!(without, vec![Statement::Print(Expression::Int(7))]);
}

#[test]
fn parses_a_return_statement() {
    let prog = parse("return 42;").unwrap();
    assert_eq!(prog, vec![Statement::Return(Expression::Int(42))]);
}

#[test]
fn parses_float_and_identifier_primaries() {
    let prog = parse("let z = 3.14 + w").unwrap();
    assert_eq!(
        prog,
        vec![Statement::Let(
            "z".to_string(),
            Expression::Binary(
                Box::new(Expression::Float(3, "14".to_string())),
                TokenType::Plus,
                Box::new(Expression::Identifier("w".to_string())),
            ),
        )]
    );
}

#[test]
fn missing_identifier_after_let() {
    assert_eq!(parse("let = 5"), Err(ParserError::ExpectIdentifier));
}

#[test]
fn missing_assign_after_let_name() {
    assert_eq!(parse("let x 5"), Err(ParserError::ExpectOperator("=".to_string())));
}

#[test]
fn unexpected_token_where_a_primary_is_expected() {
    assert_eq!(parse(";"), Err(ParserError::UnexpectedToken(Some(TokenType::Semicolon))));
}

#[test]
fn end_of_input_mid_construct_is_its_own_error() {
    assert_eq!(parse("let x ="), Err(ParserError::EndOfInput));
    assert_eq!(parse("let"), Err(ParserError::EndOfInput));
    assert_eq!(parse("return"), Err(ParserError::EndOfInput));
    assert_eq!(parse("1 +"), Err(ParserError::EndOfInput));
}

#[test]
fn lexical_errors_propagate_through_the_parser() {
    assert_eq!(
        parse("let @ = 1"),
        Err(ParserError::Lex(LexError::UnexpectedChar { ch: '@', line: 1, column: 5 }))
    );
}

#[test]
fn empty_source_parses_to_no_statements() {
    assert_eq!(parse("  // nothing here").unwrap(), Vec::<Statement>::new());
}

#[test]
fn parse_statement_consumes_one_statement() {
    let lexer = Lexer::new("let a = 1; print a");
    let mut parser = Parser::new(lexer).unwrap();
    let first = parser.parse_statement().unwrap();
    assert!(matches!(first, Statement::Let(_, _)));
    let second = parser.parse_statement().unwrap();
    assert_eq!(second, Statement::Print(Expression::Identifier("a".to_string())));
}
