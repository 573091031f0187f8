use minilang::error::LexerError;
use minilang::lexer::Lexer;

#[test]
fn report_renders_the_stable_format() {
    let diag = LexerError::new(
        1,
        5,
        "Unexpected character '@'".to_string(),
        Some("Check for typos or invalid character".to_string()),
        "let @ = 5".to_string(),
    );
    let expected = "Error at line 1 column 5: Unexpected character '@'\n\
                    \n\
                    1 | let @ = 5\n\
                    \x20 |      ^\n\
                    \n\
                    Check for typos or invalid character\n\n";
    assert_eq!(diag.report(), expected);
}

#[test]
fn report_without_hint_says_so() {
    let diag = LexerError::new(2, 1, "invalid integer literal".to_string(), None, "99".to_string());
    let expected = "Error at line 2 column 1: invalid integer literal\n\
                    \n\
                    2 | 99\n\
                    \x20 |  ^\n\
                    \n\
                    No hints available\n\n";
    assert_eq!(diag.report(), expected);
}

#[test]
fn fields_are_kept_as_given() {
    let diag = LexerError::new(3, 7, "m".to_string(), None, "line".to_string());
    assert_eq!(diag.line, 3);
    assert_eq!(diag.column, 7);
    assert_eq!(diag.msg, "m");
    assert_eq!(diag.hint, None);
    assert_eq!(diag.line_content, "line");
}

#[test]
fn a_lexical_error_becomes_a_full_report() {
    let mut lexer = Lexer::new("let x = 4 $ 2");
    lexer.next_token().unwrap(); // let
    lexer.next_token().unwrap(); // x
    lexer.next_token().unwrap(); // =
    lexer.next_token().unwrap(); // 4
    let err = lexer.next_token().unwrap_err();
    let diag = LexerError::new(
        err.line(),
        err.column(),
        err.message(),
        err.hint(),
        lexer.get_current_line(),
    );
    let report = diag.report();
    assert!(report.starts_with("Error at line 1 column 11: Unexpected character '$'\n"));
    assert!(report.contains("1 | let x = 4 $ 2\n"));
    assert!(report.contains("\n  |            ^\n"));
    assert!(report.ends_with("Check for typos or invalid character\n\n"));
}
