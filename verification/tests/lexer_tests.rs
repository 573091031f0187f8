use minilang::lexer::{tokenize, Lexer};
use minilang::lexer_error::LexError;
use minilang::token::TokenType;

fn token_types(input: &str) -> Vec<TokenType> {
    tokenize(input).unwrap().into_iter().map(|t| t.token).collect()
}

#[test]
fn tokenizes_arithmetic_example() {
    // identifier(x), plus, int(5), mul, lparen, int(3), minus, identifier(y),
    // rparen, slash, int(2), EOF
    let toks = token_types("x + 5 * (3 - y) / 2");
    assert_eq!(
        toks,
        vec![
            TokenType::Identifier("x".to_string()),
            TokenType::Plus,
            TokenType::Int(5),
            TokenType::Star,
            TokenType::LParen,
            TokenType::Int(3),
            TokenType::Minus,
            TokenType::Identifier("y".to_string()),
            TokenType::RParen,
            TokenType::Slash,
            TokenType::Int(2),
            TokenType::EOF,
        ]
    );
}

#[test]
fn lexing_twice_is_idempotent() {
    let input = "let x = 5 + 3; // bind\n/* block */ print(x);";
    let first = tokenize(input).unwrap();
    let second = tokenize(input).unwrap();
    assert_eq!(first, second);
}

#[test]
fn whitespace_and_comments_lex_to_eof_only() {
    for input in ["", "   \t\r\n  ", "// only a comment", "/* block */", "  // a\n/* b */ \t"] {
        let toks = token_types(input);
        assert_eq!(toks, vec![TokenType::EOF], "input: {:?}", input);
    }
}

#[test]
fn integer_round_trip() {
    assert_eq!(token_types("42")[0], TokenType::Int(42));
    assert_eq!(token_types("0")[0], TokenType::Int(0));
    assert_eq!(token_types("9223372036854775807")[0], TokenType::Int(i64::MAX));
}

#[test]
fn float_round_trip() {
    assert_eq!(token_types("3.14")[0], TokenType::Float(3, "14".to_string()));
    assert_eq!(token_types("0.5")[0], TokenType::Float(0, "5".to_string()));
    assert_eq!(token_types("7.")[0], TokenType::Float(7, String::new()));
    assert_eq!(token_types("2.50")[0], TokenType::Float(2, "50".to_string()));
}

#[test]
fn second_dot_ends_the_number_early() {
    let mut lexer = Lexer::new("1.2.3");
    let tok = lexer.next_token().unwrap();
    assert_eq!(tok.token, TokenType::Float(1, "2".to_string()));
    // the remaining '.' is reprocessed on its own and is no known token
    let err = lexer.next_token().unwrap_err();
    assert_eq!(err, LexError::UnexpectedChar { ch: '.', line: 1, column: 4 });
}

#[test]
fn out_of_range_integer_literal_is_an_error() {
    let mut lexer = Lexer::new("9223372036854775808");
    let err = lexer.next_token().unwrap_err();
    assert_eq!(
        err,
        LexError::InvalidIntLiteral {
            text: "9223372036854775808".to_string(),
            line: 1,
            column: 1,
        }
    );
    assert_eq!(err.message(), "invalid integer literal");
    assert!(err.hint().is_none());
}

#[test]
fn out_of_range_float_literal_is_an_error() {
    let mut lexer = Lexer::new("99999999999999999999.5");
    let err = lexer.next_token().unwrap_err();
    assert_eq!(
        err,
        LexError::InvalidFloatLiteral {
            text: "99999999999999999999.5".to_string(),
            line: 1,
            column: 1,
        }
    );
    assert_eq!(err.message(), "invalid float literal");
}

#[test]
fn keywords_are_classified() {
    let toks = token_types("let print if else return fn true false");
    assert_eq!(
        toks,
        vec![
            TokenType::Let,
            TokenType::Print,
            TokenType::If,
            TokenType::Else,
            TokenType::Return,
            TokenType::Function,
            TokenType::True,
            TokenType::False,
            TokenType::EOF,
        ]
    );
}

#[test]
fn identifiers_are_letters_and_underscores() {
    assert_eq!(token_types("foo_bar")[0], TokenType::Identifier("foo_bar".to_string()));
    // a digit ends the identifier run
    let toks = token_types("x1");
    assert_eq!(toks[0], TokenType::Identifier("x".to_string()));
    assert_eq!(toks[1], TokenType::Int(1));
}

#[test]
fn operators_and_delimiters() {
    let toks = token_types("= == ! != > >= < <= & && | || + - * / ( ) { } , ;");
    assert_eq!(
        toks,
        vec![
            TokenType::Assign,
            TokenType::Equal,
            TokenType::Bang,
            TokenType::NotEqual,
            TokenType::Gt,
            TokenType::GtEq,
            TokenType::Lt,
            TokenType::LtEq,
            TokenType::Amp,
            TokenType::And,
            TokenType::Pipe,
            TokenType::Or,
            TokenType::Plus,
            TokenType::Minus,
            TokenType::Star,
            TokenType::Slash,
            TokenType::LParen,
            TokenType::RParen,
            TokenType::LBrace,
            TokenType::RBrace,
            TokenType::Comma,
            TokenType::Semicolon,
            TokenType::EOF,
        ]
    );
}

#[test]
fn string_literal_escapes_are_processed() {
    let toks = token_types("\"a\\nb\\t\\\\\\\"z\\qd\"");
    assert_eq!(toks[0], TokenType::StringLiteral("a\nb\t\\\"zqd".to_string()));
}

#[test]
fn unterminated_string_silently_terminates_at_end_of_input() {
    let toks = token_types("\"abc");
    assert_eq!(toks, vec![TokenType::StringLiteral("abc".to_string()), TokenType::EOF]);
}

#[test]
fn unterminated_block_comment_silently_consumes_to_end_of_input() {
    let toks = token_types("1 /* never closed");
    assert_eq!(toks, vec![TokenType::Int(1), TokenType::EOF]);
}

#[test]
fn unexpected_character_carries_its_position() {
    let mut lexer = Lexer::new("\n  @");
    let err = lexer.next_token().unwrap_err();
    assert_eq!(err, LexError::UnexpectedChar { ch: '@', line: 2, column: 3 });
    assert_eq!(err.line(), 2);
    assert_eq!(err.column(), 3);
    assert_eq!(err.message(), "Unexpected character '@'");
    assert_eq!(err.hint().unwrap(), "Check for typos or invalid character");
}

#[test]
fn end_of_input_repeats_the_end_marker() {
    let mut lexer = Lexer::new("1");
    assert_eq!(lexer.next_token().unwrap().token, TokenType::Int(1));
    for _ in 0..3 {
        assert_eq!(lexer.next_token().unwrap().token, TokenType::EOF);
    }
}

#[test]
fn peek_char_does_not_consume() {
    let mut lexer = Lexer::new("ab");
    assert_eq!(lexer.peek_char(), Some('a'));
    assert_eq!(lexer.peek_char(), Some('a'));
    lexer.advance();
    assert_eq!(lexer.peek_char(), Some('b'));
    lexer.advance();
    assert_eq!(lexer.peek_char(), None);
}

#[test]
fn get_current_line_follows_the_cursor() {
    let mut lexer = Lexer::new("ab\ncd");
    assert_eq!(lexer.get_current_line(), "ab");
    lexer.next_token().unwrap(); // ab
    lexer.next_token().unwrap(); // cd, cursor now on line 2
    assert_eq!(lexer.get_current_line(), "cd");
}
