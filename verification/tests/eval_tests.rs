use minilang::environment::{Environment, EvalError, StmtEffect};
use minilang::lexer::Lexer;
use minilang::parser::{Expression, Parser, Statement};
use minilang::token::TokenType;

fn run(input: &str) -> (Environment, Vec<i64>, Vec<EvalError>, Option<i64>) {
    let lexer = Lexer::new(input);
    let mut parser = Parser::new(lexer).unwrap();
    let program = parser.parse_program().unwrap();
    let mut env = Environment::new();
    let outcome = env.run_program(&program);
    (env, outcome.outputs, outcome.errors, outcome.returned)
}

#[test]
fn binds_computes_and_prints_the_example_program() {
    // x = 8, then y = 16, then print 21
    let (env, outputs, errors, returned) = run("let x = 5 + 3; let y = x * 2; print(y + 5);");
    assert_eq!(env.get("x"), Some(8));
    assert_eq!(env.get("y"), Some(16));
    assert_eq!(outputs, vec![21]);
    assert!(errors.is_empty());
    assert_eq!(returned, None);
}

#[test]
fn division_by_zero_fails_without_corrupting_the_environment() {
    let (env, outputs, errors, _) = run("let a = 2; print(1 / 0); print(a + 1);");
    // the failing statement is recorded, the next one still executes
    assert_eq!(errors, vec![EvalError::DivisionByZero]);
    assert_eq!(outputs, vec![3]);
    assert_eq!(env.get("a"), Some(2));
}

#[test]
fn division_by_zero_leaves_bindings_untouched() {
    let mut env = Environment::new();
    env.set("a".to_string(), 7);
    let stmt = Statement::Let(
        "a".to_string(),
        Expression::Binary(
            Box::new(Expression::Int(1)),
            TokenType::Slash,
            Box::new(Expression::Int(0)),
        ),
    );
    assert_eq!(env.execute(&stmt), Err(EvalError::DivisionByZero));
    assert_eq!(env.get("a"), Some(7));
}

#[test]
fn undefined_variable_is_an_error() {
    let mut env = Environment::new();
    let e = Expression::Identifier("zz".to_string());
    let err = env.eval_expression(&e).unwrap_err();
    assert_eq!(err, EvalError::UndefinedVariable("zz".to_string()));
    assert_eq!(err.message(), "Variable 'zz' not found");
}

#[test]
fn unsupported_operator_is_an_error() {
    let env = Environment::new();
    let e = Expression::Binary(
        Box::new(Expression::Int(1)),
        TokenType::Lt,
        Box::new(Expression::Int(2)),
    );
    let err = env.eval_expression(&e).unwrap_err();
    assert_eq!(err, EvalError::UnsupportedOperator(TokenType::Lt));
    assert_eq!(err.message(), "Unsupported operator");
}

#[test]
fn division_by_zero_message() {
    assert_eq!(EvalError::DivisionByZero.message(), "Division by zero");
}

#[test]
fn negation_negates() {
    let env = Environment::new();
    let e = Expression::Negation(Box::new(Expression::Int(5)));
    assert_eq!(env.eval_expression(&e), Ok(-5));
}

#[test]
fn float_literals_truncate_to_their_integer_part() {
    let env = Environment::new();
    let e = Expression::Float(3, "99".to_string());
    assert_eq!(env.eval_expression(&e), Ok(3));
}

#[test]
fn arithmetic_is_left_to_right_in_the_integer_domain() {
    let env = Environment::new();
    // (10 - 4) / 2 under the flat fold
    let e = Expression::Binary(
        Box::new(Expression::Binary(
            Box::new(Expression::Int(10)),
            TokenType::Minus,
            Box::new(Expression::Int(4)),
        )),
        TokenType::Slash,
        Box::new(Expression::Int(2)),
    );
    assert_eq!(env.eval_expression(&e), Ok(3));
}

#[test]
fn overflow_wraps_in_twos_complement() {
    let env = Environment::new();
    let e = Expression::Binary(
        Box::new(Expression::Int(i64::MAX)),
        TokenType::Plus,
        Box::new(Expression::Int(1)),
    );
    assert_eq!(env.eval_expression(&e), Ok(i64::MIN));
    let d = Expression::Binary(
        Box::new(Expression::Int(i64::MIN)),
        TokenType::Slash,
        Box::new(Expression::Int(-1)),
    );
    assert_eq!(env.eval_expression(&d), Ok(i64::MIN));
}

#[test]
fn division_truncates_toward_zero() {
    let env = Environment::new();
    let e = Expression::Binary(
        Box::new(Expression::Negation(Box::new(Expression::Int(7)))),
        TokenType::Slash,
        Box::new(Expression::Int(2)),
    );
    assert_eq!(env.eval_expression(&e), Ok(-3));
}

#[test]
fn set_overwrites_and_get_reads_back() {
    let mut env = Environment::new();
    assert_eq!(env.get("x"), None);
    env.set("x".to_string(), 1);
    assert_eq!(env.get("x"), Some(1));
    env.set("x".to_string(), 2);
    assert_eq!(env.get("x"), Some(2));
    env.set("y".to_string(), 9);
    assert_eq!(env.get("x"), Some(2));
    assert_eq!(env.get("y"), Some(9));
}

#[test]
fn execute_reports_each_statement_effect() {
    let mut env = Environment::new();
    let bind = Statement::Let("v".to_string(), Expression::Int(4));
    assert_eq!(env.execute(&bind), Ok(StmtEffect::Silent));
    let show = Statement::Print(Expression::Identifier("v".to_string()));
    assert_eq!(env.execute(&show), Ok(StmtEffect::Printed(4)));
    let give = Statement::Return(Expression::Int(1));
    assert_eq!(env.execute(&give), Ok(StmtEffect::Returned(1)));
    let bare = Statement::Expression(Expression::Int(0));
    assert_eq!(env.execute(&bare), Ok(StmtEffect::Silent));
}

#[test]
fn return_ends_the_run_early() {
    let (_, outputs, errors, returned) = run("let a = 1; return a + 1; print(99);");
    assert_eq!(outputs, Vec::<i64>::new());
    assert!(errors.is_empty());
    assert_eq!(returned, Some(2));
}
