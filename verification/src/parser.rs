//! The abstract syntax tree and the recursive-descent parser.
//!
//! The parser exclusively owns its lexer and keeps a single token of
//! lookahead.  It enforces the grammar
//!
//! ```text
//! statement   := let_stmt | print_stmt | return_stmt | expr_stmt
//! let_stmt    := "let" identifier "=" expression [";"]
//! print_stmt  := "print" ["("] expression [")"] [";"]
//! return_stmt := "return" expression [";"]
//! expr_stmt   := expression [";"]
//! expression  := primary ( binary_op primary )*
//! primary     := int_literal | float_literal | identifier
//! binary_op   := "+" | "-" | "*" | "/"
//! ```
//!
//! Expression parsing is deliberately flat and left-associative: there is
//! no operator precedence, so `2 + 3 * 4` folds as `(2 + 3) * 4`.
//! Semicolons are optional terminators, consumed where present.  The first
//! error halts the whole parse; there is no resynchronization.

use vstd::prelude::*;
use vstd::string::StringExecFns;
use crate::lexer::{
    spec_next_token, lemma_next_token_bounds, lemma_skip_trivia, Lexer,
};
use crate::lexer_error::{LexError, LexErrorModel};
use crate::token::{Token, TokenModel, TokenType};

verus! {

// ---------------------------------------------------------------------------
// The abstract syntax tree
// ---------------------------------------------------------------------------
/// An expression: an immutable tree, never mutated once built.
#[derive(Debug, PartialEq)]
pub enum Expression {
    Int(i64),
    Float(i64, String),
    Identifier(String),
    Negation(Box<Expression>),
    Binary(Box<Expression>, TokenType, Box<Expression>),
}

/// The mathematical image of an expression.
pub enum ExpressionModel {
    Int(i64),
    Float(i64, Seq<char>),
    Identifier(Seq<char>),
    Negation(Box<ExpressionModel>),
    Binary(Box<ExpressionModel>, TokenModel, Box<ExpressionModel>),
}

/// The model of an expression tree.
pub open spec fn expr_model(e: Expression) -> ExpressionModel
    decreases e,
{
    match e {
        Expression::Int(v) => ExpressionModel::Int(v),
        Expression::Float(ip, fr) => ExpressionModel::Float(ip, fr@),
        Expression::Identifier(n) => ExpressionModel::Identifier(n@),
        Expression::Negation(inner) => ExpressionModel::Negation(Box::new(expr_model(*inner))),
        Expression::Binary(l, op, r) => ExpressionModel::Binary(
            Box::new(expr_model(*l)),
            op@,
            Box::new(expr_model(*r)),
        ),
    }
}

impl View for Expression {
    type V = ExpressionModel;

    open spec fn view(&self) -> ExpressionModel {
        expr_model(*self)
    }
}

/// A statement; a parsed program is an ordered sequence of these.
#[derive(Debug, PartialEq)]
pub enum Statement {
    Let(String, Expression),
    Print(Expression),
    Return(Expression),
    Expression(Expression),
}

/// The mathematical image of a statement.
pub enum StatementModel {
    Let(Seq<char>, ExpressionModel),
    Print(ExpressionModel),
    Return(ExpressionModel),
    Expression(ExpressionModel),
}

impl View for Statement {
    type V = StatementModel;

    open spec fn view(&self) -> StatementModel {
        match self {
            Statement::Let(n, e) => StatementModel::Let(n@, e@),
            Statement::Print(e) => StatementModel::Print(e@),
            Statement::Return(e) => StatementModel::Return(e@),
            Statement::Expression(e) => StatementModel::Expression(e@),
        }
    }
}

// ---------------------------------------------------------------------------
// Parse errors
// ---------------------------------------------------------------------------
/// The closed set of parse failures.  The first failure halts the whole
/// parse.  A lexical failure met while pulling a token is propagated
/// explicitly, never swallowed.
#[derive(Debug, PartialEq)]
pub enum ParserError {
    ExpectIdentifier,
    ExpectOperator(String),
    UnexpectedToken(Option<TokenType>),
    EndOfInput,
    Lex(LexError),
}

/// The mathematical image of a parse failure.
pub enum ParserErrorModel {
    ExpectIdentifier,
    ExpectOperator(Seq<char>),
    UnexpectedToken(Option<TokenModel>),
    EndOfInput,
    Lex(LexErrorModel),
}

impl View for ParserError {
    type V = ParserErrorModel;

    open spec fn view(&self) -> ParserErrorModel {
        match self {
            ParserError::ExpectIdentifier => ParserErrorModel::ExpectIdentifier,
            ParserError::ExpectOperator(w) => ParserErrorModel::ExpectOperator(w@),
            ParserError::UnexpectedToken(t) => ParserErrorModel::UnexpectedToken(
                match t {
                    Some(tt) => Some(tt@),
                    None => None,
                },
            ),
            ParserError::EndOfInput => ParserErrorModel::EndOfInput,
            ParserError::Lex(e) => ParserErrorModel::Lex(e@),
        }
    }
}

// ---------------------------------------------------------------------------
// The grammar, as spec functions over the character sequence
// ---------------------------------------------------------------------------
// Each function takes the position `p` where the current token starts and
// yields the parsed node together with the position where the new current
// token starts.  The parser always holds one token of lookahead, so after
// consuming a token the following token is lexed at once; a lexical failure
// there surfaces as a `Lex` parse error at that point.
/// A primary expression: an integer literal, a float literal or an
/// identifier.  End of input and any other token are distinct errors.
pub open spec fn spec_parse_primary(s: Seq<char>, p: int) -> Result<
    (ExpressionModel, int),
    ParserErrorModel,
> {
    match spec_next_token(s, p) {
        Err((m, _)) => Err(ParserErrorModel::Lex(m)),
        Ok((t, p2)) => match t {
            TokenModel::Int(v) => match spec_next_token(s, p2) {
                Err((m, _)) => Err(ParserErrorModel::Lex(m)),
                Ok(_) => Ok((ExpressionModel::Int(v), p2)),
            },
            TokenModel::Float(ip, fr) => match spec_next_token(s, p2) {
                Err((m, _)) => Err(ParserErrorModel::Lex(m)),
                Ok(_) => Ok((ExpressionModel::Float(ip, fr), p2)),
            },
            TokenModel::Identifier(n) => match spec_next_token(s, p2) {
                Err((m, _)) => Err(ParserErrorModel::Lex(m)),
                Ok(_) => Ok((ExpressionModel::Identifier(n), p2)),
            },
            TokenModel::EOF => Err(ParserErrorModel::EndOfInput),
            _ => Err(ParserErrorModel::UnexpectedToken(Some(t))),
        },
    }
}

/// A binary-operator token (`+ - * /`), consumed where present.
pub open spec fn spec_parse_operator(s: Seq<char>, p: int) -> Result<
    (Option<TokenModel>, int),
    ParserErrorModel,
> {
    match spec_next_token(s, p) {
        Err((m, _)) => Err(ParserErrorModel::Lex(m)),
        Ok((t, p2)) => match t {
            TokenModel::Plus | TokenModel::Minus | TokenModel::Star | TokenModel::Slash => {
                match spec_next_token(s, p2) {
                    Err((m, _)) => Err(ParserErrorModel::Lex(m)),
                    Ok(_) => Ok((Some(t), p2)),
                }
            },
            _ => Ok((None, p)),
        },
    }
}

/// The left-associative fold of `( binary_op primary )*` onto `left`.
pub open spec fn spec_parse_expr_rest(s: Seq<char>, p: int, left: ExpressionModel) -> Result<
    (ExpressionModel, int),
    ParserErrorModel,
>
    decreases s.len() - p when 0 <= p <= s.len()
{
    match spec_parse_operator(s, p) {
        Err(m) => Err(m),
        Ok((opt, p2)) => match opt {
            None => Ok((left, p)),
            Some(op) => match spec_parse_primary(s, p2) {
                Err(m) => Err(m),
                Ok((right, p3)) => if p < p3 <= s.len() {
                    spec_parse_expr_rest(
                        s,
                        p3,
                        ExpressionModel::Binary(Box::new(left), op, Box::new(right)),
                    )
                } else {
                    Ok((left, p))
                },
            },
        },
    }
}

/// An expression: a primary followed by a flat left-associative chain of
/// binary operators and primaries; no operator precedence.
pub open spec fn spec_parse_expression(s: Seq<char>, p: int) -> Result<
    (ExpressionModel, int),
    ParserErrorModel,
> {
    match spec_parse_primary(s, p) {
        Err(m) => Err(m),
        Ok((left, p1)) => spec_parse_expr_rest(s, p1, left),
    }
}

/// An optional semicolon terminator after a statement, consumed if
/// present: the position of the new current token.
pub open spec fn spec_skip_semicolon(s: Seq<char>, p: int) -> Result<int, ParserErrorModel> {
    match spec_next_token(s, p) {
        Err((m, _)) => Err(ParserErrorModel::Lex(m)),
        Ok((t, p2)) => if t is Semicolon {
            match spec_next_token(s, p2) {
                Err((m, _)) => Err(ParserErrorModel::Lex(m)),
                Ok(_) => Ok(p2),
            }
        } else {
            Ok(p)
        },
    }
}

/// A `let` statement: `let identifier = expression [";"]`.  A missing
/// identifier and a missing `=` are distinct errors, and end of input
/// mid-construct is reported as such.
pub open spec fn spec_parse_let(s: Seq<char>, p: int) -> Result<
    (StatementModel, int),
    ParserErrorModel,
> {
    match spec_next_token(s, p) {
        Err((m, _)) => Err(ParserErrorModel::Lex(m)),
        Ok((_let_tok, p1)) => match spec_next_token(s, p1) {
            Err((m, _)) => Err(ParserErrorModel::Lex(m)),
            Ok((t1, p2)) => match t1 {
                TokenModel::Identifier(name) => match spec_next_token(s, p2) {
                    Err((m, _)) => Err(ParserErrorModel::Lex(m)),
                    Ok((t2, p3)) => match t2 {
                        TokenModel::Assign => match spec_parse_expression(s, p3) {
                            Err(m) => Err(m),
                            Ok((e, p4)) => match spec_skip_semicolon(s, p4) {
                                Err(m) => Err(m),
                                Ok(p5) => Ok((StatementModel::Let(name, e), p5)),
                            },
                        },
                        TokenModel::EOF => Err(ParserErrorModel::EndOfInput),
                        _ => Err(ParserErrorModel::ExpectOperator("="@)),
                    },
                },
                TokenModel::EOF => Err(ParserErrorModel::EndOfInput),
                _ => Err(ParserErrorModel::ExpectIdentifier),
            },
        },
    }
}

/// A `print` statement: `print ["("] expression [")"] [";"]`.
pub open spec fn spec_parse_print(s: Seq<char>, p: int) -> Result<
    (StatementModel, int),
    ParserErrorModel,
> {
    match spec_next_token(s, p) {
        Err((m, _)) => Err(ParserErrorModel::Lex(m)),
        Ok((_print_tok, p1)) => match spec_next_token(s, p1) {
            Err((m, _)) => Err(ParserErrorModel::Lex(m)),
            Ok((t1, p2)) => {
                let estart = if t1 is LParen {
                    p2
                } else {
                    p1
                };
                match spec_parse_expression(s, estart) {
                    Err(m) => Err(m),
                    Ok((e, p4)) => match spec_next_token(s, p4) {
                        Err((m, _)) => Err(ParserErrorModel::Lex(m)),
                        Ok((t4, p5)) => if t4 is RParen {
                            match spec_next_token(s, p5) {
                                Err((m, _)) => Err(ParserErrorModel::Lex(m)),
                                Ok(_) => match spec_skip_semicolon(s, p5) {
                                    Err(m) => Err(m),
                                    Ok(p6) => Ok((StatementModel::Print(e), p6)),
                                },
                            }
                        } else {
                            match spec_skip_semicolon(s, p4) {
                                Err(m) => Err(m),
                                Ok(p6) => Ok((StatementModel::Print(e), p6)),
                            }
                        },
                    },
                }
            },
        },
    }
}

/// A `return` statement: `return expression [";"]`.
pub open spec fn spec_parse_return(s: Seq<char>, p: int) -> Result<
    (StatementModel, int),
    ParserErrorModel,
> {
    match spec_next_token(s, p) {
        Err((m, _)) => Err(ParserErrorModel::Lex(m)),
        Ok((_return_tok, p1)) => match spec_parse_expression(s, p1) {
            Err(m) => Err(m),
            Ok((e, p4)) => match spec_skip_semicolon(s, p4) {
                Err(m) => Err(m),
                Ok(p5) => Ok((StatementModel::Return(e), p5)),
            },
        },
    }
}

/// A bare expression statement: `expression [";"]`.
pub open spec fn spec_parse_expression_statement(s: Seq<char>, p: int) -> Result<
    (StatementModel, int),
    ParserErrorModel,
> {
    match spec_parse_expression(s, p) {
        Err(m) => Err(m),
        Ok((e, p4)) => match spec_skip_semicolon(s, p4) {
            Err(m) => Err(m),
            Ok(p5) => Ok((StatementModel::Expression(e), p5)),
        },
    }
}

/// One statement, dispatched on the current token.
pub open spec fn spec_parse_statement(s: Seq<char>, p: int) -> Result<
    (StatementModel, int),
    ParserErrorModel,
> {
    match spec_next_token(s, p) {
        Err((m, _)) => Err(ParserErrorModel::Lex(m)),
        Ok((t, _)) => match t {
            TokenModel::Let => spec_parse_let(s, p),
            TokenModel::Print => spec_parse_print(s, p),
            TokenModel::Return => spec_parse_return(s, p),
            _ => spec_parse_expression_statement(s, p),
        },
    }
}

/// A whole program: statements until the end marker; the first error is
/// surfaced and parsing stops.
pub open spec fn spec_parse_program(s: Seq<char>, p: int) -> Result<
    Seq<StatementModel>,
    ParserErrorModel,
>
    decreases s.len() - p when 0 <= p <= s.len()
{
    match spec_next_token(s, p) {
        Err((m, _)) => Err(ParserErrorModel::Lex(m)),
        Ok((t, _)) => if t is EOF {
            Ok(Seq::empty())
        } else {
            match spec_parse_statement(s, p) {
                Err(m) => Err(m),
                Ok((st, p1)) => if p < p1 <= s.len() {
                    match spec_parse_program(s, p1) {
                        Err(m) => Err(m),
                        Ok(rest) => Ok(seq![st] + rest),
                    }
                } else {
                    Err(ParserErrorModel::EndOfInput)
                },
            }
        },
    }
}

// ---------------------------------------------------------------------------
// Progress: every parsed construct moves the cursor forward in bounds
// ---------------------------------------------------------------------------
pub proof fn lemma_parse_primary_bounds(s: Seq<char>, p: int)
    requires
        0 <= p <= s.len(),
    ensures
        spec_parse_primary(s, p) matches Ok((e, p2)) ==> p < p2 <= s.len(),
{
    lemma_next_token_bounds(s, p);
}

pub proof fn lemma_parse_operator_bounds(s: Seq<char>, p: int)
    requires
        0 <= p <= s.len(),
    ensures
        spec_parse_operator(s, p) matches Ok((opt, p2)) ==> {
            &&& opt is Some ==> p < p2 <= s.len()
            &&& opt is None ==> p2 == p
        },
{
    lemma_next_token_bounds(s, p);
}

pub proof fn lemma_parse_expr_rest_bounds(s: Seq<char>, p: int, left: ExpressionModel)
    requires
        0 <= p <= s.len(),
    ensures
        spec_parse_expr_rest(s, p, left) matches Ok((e, p2)) ==> p <= p2 <= s.len(),
    decreases s.len() - p,
{
    lemma_parse_operator_bounds(s, p);
    match spec_parse_operator(s, p) {
        Err(_) => {},
        Ok((opt, p2)) => match opt {
            None => {},
            Some(op) => {
                lemma_parse_primary_bounds(s, p2);
                match spec_parse_primary(s, p2) {
                    Err(_) => {},
                    Ok((right, p3)) => {
                        if p < p3 <= s.len() {
                            lemma_parse_expr_rest_bounds(
                                s,
                                p3,
                                ExpressionModel::Binary(Box::new(left), op, Box::new(right)),
                            );
                        }
                    },
                }
            },
        },
    }
}

pub proof fn lemma_parse_expression_bounds(s: Seq<char>, p: int)
    requires
        0 <= p <= s.len(),
    ensures
        spec_parse_expression(s, p) matches Ok((e, p2)) ==> p < p2 <= s.len(),
{
    lemma_parse_primary_bounds(s, p);
    match spec_parse_primary(s, p) {
        Err(_) => {},
        Ok((left, p1)) => {
            lemma_parse_expr_rest_bounds(s, p1, left);
        },
    }
}

pub proof fn lemma_skip_semicolon_bounds(s: Seq<char>, p: int)
    requires
        0 <= p <= s.len(),
    ensures
        spec_skip_semicolon(s, p) matches Ok(p2) ==> p <= p2 <= s.len(),
{
    lemma_next_token_bounds(s, p);
}

pub proof fn lemma_parse_statement_bounds(s: Seq<char>, p: int)
    requires
        0 <= p <= s.len(),
    ensures
        spec_parse_statement(s, p) matches Ok((st, p2)) ==> p < p2 <= s.len(),
{
    lemma_next_token_bounds(s, p);
    match spec_next_token(s, p) {
        Err(_) => {},
        Ok((t, pe)) => {
            match t {
                TokenModel::Let => {
                    match spec_next_token(s, p) {
                        Err(_) => {},
                        Ok((_lt, p1)) => {
                            lemma_next_token_bounds(s, p1);
                            match spec_next_token(s, p1) {
                                Err(_) => {},
                                Ok((t1, p2)) => {
                                    lemma_next_token_bounds(s, p2);
                                    match spec_next_token(s, p2) {
                                        Err(_) => {},
                                        Ok((t2, p3)) => {
                                            lemma_parse_expression_bounds(s, p3);
                                            match spec_parse_expression(s, p3) {
                                                Err(_) => {},
                                                Ok((e, p4)) => {
                                                    lemma_skip_semicolon_bounds(s, p4);
                                                },
                                            }
                                        },
                                    }
                                },
                            }
                        },
                    }
                },
                TokenModel::Print => {
                    match spec_next_token(s, p) {
                        Err(_) => {},
                        Ok((_pt, p1)) => {
                            lemma_next_token_bounds(s, p1);
                            match spec_next_token(s, p1) {
                                Err(_) => {},
                                Ok((t1, p2)) => {
                                    let estart = if t1 is LParen {
                                        p2
                                    } else {
                                        p1
                                    };
                                    lemma_parse_expression_bounds(s, estart);
                                    match spec_parse_expression(s, estart) {
                                        Err(_) => {},
                                        Ok((e, p4)) => {
                                            lemma_next_token_bounds(s, p4);
                                            match spec_next_token(s, p4) {
                                                Err(_) => {},
                                                Ok((t4, p5)) => {
                                                    lemma_skip_semicolon_bounds(s, p5);
                                                    lemma_skip_semicolon_bounds(s, p4);
                                                },
                                            }
                                        },
                                    }
                                },
                            }
                        },
                    }
                },
                TokenModel::Return => {
                    match spec_next_token(s, p) {
                        Err(_) => {},
                        Ok((_rt, p1)) => {
                            lemma_parse_expression_bounds(s, p1);
                            match spec_parse_expression(s, p1) {
                                Err(_) => {},
                                Ok((e, p4)) => {
                                    lemma_skip_semicolon_bounds(s, p4);
                                },
                            }
                        },
                    }
                },
                _ => {
                    lemma_parse_expression_bounds(s, p);
                    match spec_parse_expression(s, p) {
                        Err(_) => {},
                        Ok((e, p4)) => {
                            lemma_skip_semicolon_bounds(s, p4);
                        },
                    }
                },
            }
        },
    }
}


// ---------------------------------------------------------------------------
// The executable parser
// ---------------------------------------------------------------------------
/// The parser: it exclusively owns its lexer and holds the current token
/// of lookahead, together with the (ghost) position where that token
/// starts.
pub struct Parser {
    lexer: Lexer,
    current_token: Token,
    cursor: Ghost<int>,
}

impl Parser {
    /// The source buffer under the parser's lexer.
    pub closed spec fn src(self) -> Seq<char> {
        self.lexer.src()
    }

    /// Where the current token starts.
    pub closed spec fn cur(self) -> int {
        self.cursor@
    }

    /// Where the current token ends: the lexer's cursor.
    pub closed spec fn cur_end(self) -> int {
        self.lexer.position()
    }

    /// Well-formedness: the held token is exactly what lexing at the held
    /// position yields, and the lexer stands just past it.
    pub closed spec fn wf(self) -> bool {
        &&& self.lexer.wf()
        &&& 0 <= self.cur() <= self.src().len()
        &&& spec_next_token(self.src(), self.cur()) matches Ok((t, e)) && t
            == self.current_token@ && e == self.cur_end()
    }

    /// Builds a parser on top of a lexer, pulling the first token; a
    /// lexical failure there is propagated, never swallowed.
    pub fn new(lexer: Lexer) -> (r: Result<Parser, ParserError>)
        requires
            lexer.wf(),
        ensures
            match r {
                Ok(pr) => pr.wf() && pr.src() == lexer.src() && pr.cur() == lexer.position(),
                Err(e) => {
                    &&& spec_next_token(lexer.src(), lexer.position()) matches Err((m, _))
                        && e@ == ParserErrorModel::Lex(m)
                },
            },
    {
        let ghost p0 = lexer.position();
        let mut lx = lexer;
        match lx.next_token() {
            Ok(tok) => Ok(Parser { lexer: lx, current_token: tok, cursor: Ghost(p0) }),
            Err(e) => Err(ParserError::Lex(e)),
        }
    }

    /// Moves to the next token, pulling it from the lexer on demand.
    pub fn advance_token(&mut self) -> (r: Result<(), ParserError>)
        requires
            old(self).wf(),
        ensures
            final(self).src() == old(self).src(),
            match r {
                Ok(_) => final(self).wf() && final(self).cur() == old(self).cur_end(),
                Err(e) => {
                    &&& spec_next_token(old(self).src(), old(self).cur_end()) matches Err((m, _))
                        && e@ == ParserErrorModel::Lex(m)
                },
            },
    {
        proof {
            lemma_next_token_bounds(self.src(), self.cur());
        }
        let ghost p1 = self.lexer.position();
        match self.lexer.next_token() {
            Ok(tok) => {
                self.current_token = tok;
                self.cursor = Ghost(p1);
                Ok(())
            },
            Err(e) => Err(ParserError::Lex(e)),
        }
    }

    /// Consumes the optional semicolon terminator if it is the current
    /// token.
    fn consume_semicolon(&mut self) -> (r: Result<(), ParserError>)
        requires
            old(self).wf(),
        ensures
            final(self).src() == old(self).src(),
            match spec_skip_semicolon(old(self).src(), old(self).cur()) {
                Ok(p2) => r is Ok && final(self).wf() && final(self).cur() == p2,
                Err(m) => r matches Err(e) && e@ == m,
            },
    {
        match &self.current_token.token {
            TokenType::Semicolon => {
                self.advance_token()?;
                Ok(())
            },
            _ => Ok(()),
        }
    }

    /// Parses a primary expression: an integer literal, a float literal or
    /// an identifier.
    fn parse_primary(&mut self) -> (r: Result<Expression, ParserError>)
        requires
            old(self).wf(),
        ensures
            final(self).src() == old(self).src(),
            match spec_parse_primary(old(self).src(), old(self).cur()) {
                Ok((e, p2)) => {
                    &&& r matches Ok(expr) && expr@ == e
                    &&& final(self).wf()
                    &&& final(self).cur() == p2
                },
                Err(m) => r matches Err(er) && er@ == m,
            },
    {
        let e_opt: Option<Expression> = match &self.current_token.token {
            TokenType::Int(v) => Some(Expression::Int(*v)),
            TokenType::Float(ip, fr) => Some(Expression::Float(*ip, fr.clone())),
            TokenType::Identifier(n) => Some(Expression::Identifier(n.clone())),
            _ => None,
        };
        match e_opt {
            Some(expr) => {
                self.advance_token()?;
                Ok(expr)
            },
            None => {
                match &self.current_token.token {
                    TokenType::EOF => Err(ParserError::EndOfInput),
                    _ => Err(
                        ParserError::UnexpectedToken(Some(self.current_token.token.clone())),
                    ),
                }
            },
        }
    }

    /// Parses a binary-operator token where one is present, consuming it.
    fn parse_operator(&mut self) -> (r: Result<Option<TokenType>, ParserError>)
        requires
            old(self).wf(),
        ensures
            final(self).src() == old(self).src(),
            match spec_parse_operator(old(self).src(), old(self).cur()) {
                Ok((opt, p2)) => {
                    &&& r is Ok
                    &&& match (r, opt) {
                        (Ok(Some(a)), Some(b)) => a@ == b,
                        (Ok(None), None) => true,
                        _ => false,
                    }
                    &&& final(self).wf()
                    &&& final(self).cur() == p2
                },
                Err(m) => r matches Err(er) && er@ == m,
            },
    {
        match &self.current_token.token {
            TokenType::Plus | TokenType::Minus | TokenType::Star | TokenType::Slash => {
                let op = self.current_token.token.clone();
                self.advance_token()?;
                Ok(Some(op))
            },
            _ => Ok(None),
        }
    }

    /// Parses an expression: a flat left-associative chain of primaries
    /// joined by `+ - * /`, with no operator precedence.
    fn parse_expression(&mut self) -> (r: Result<Expression, ParserError>)
        requires
            old(self).wf(),
        ensures
            final(self).src() == old(self).src(),
            match spec_parse_expression(old(self).src(), old(self).cur()) {
                Ok((e, p2)) => {
                    &&& r matches Ok(expr) && expr@ == e
                    &&& final(self).wf()
                    &&& final(self).cur() == p2
                },
                Err(m) => r matches Err(er) && er@ == m,
            },
    {
        let ghost s = self.src();
        let ghost p0 = self.cur();
        let mut left = match self.parse_primary() {
            Ok(e) => e,
            Err(er) => {
                return Err(er);
            },
        };
        loop
            invariant_except_break
                self.wf(),
                self.src() == s,
                s == old(self).src(),
                p0 == old(self).cur(),
                0 <= self.cur() <= s.len(),
                spec_parse_expression(s, p0) == spec_parse_expr_rest(s, self.cur(), left@),
            ensures
                self.wf(),
                self.src() == s,
                spec_parse_expression(s, p0) == Ok::<(ExpressionModel, int), ParserErrorModel>(
                    (left@, self.cur()),
                ),
            decreases s.len() - self.cur(),
        {
            let ghost c0 = self.cur();
            proof {
                lemma_parse_operator_bounds(s, c0);
            }
            let opt = match self.parse_operator() {
                Ok(o) => o,
                Err(er) => {
                    return Err(er);
                },
            };
            match opt {
                None => {
                    break;
                },
                Some(op) => {
                    proof {
                        lemma_parse_primary_bounds(s, self.cur());
                    }
                    let right = match self.parse_primary() {
                        Ok(e) => e,
                        Err(er) => {
                            return Err(er);
                        },
                    };
                    left = Expression::Binary(Box::new(left), op, Box::new(right));
                },
            }
        }
        Ok(left)
    }

    /// Parses a `let` statement; the current token is the `let` keyword.
    fn parse_let(&mut self) -> (r: Result<Statement, ParserError>)
        requires
            old(self).wf(),
            old(self).current_token@ is Let,
        ensures
            final(self).src() == old(self).src(),
            match spec_parse_let(old(self).src(), old(self).cur()) {
                Ok((st, p2)) => {
                    &&& r matches Ok(stmt) && stmt@ == st
                    &&& final(self).wf()
                    &&& final(self).cur() == p2
                },
                Err(m) => r matches Err(er) && er@ == m,
            },
    {
        self.advance_token()?;
        let name = match &self.current_token.token {
            TokenType::Identifier(n) => n.clone(),
            TokenType::EOF => {
                return Err(ParserError::EndOfInput);
            },
            _ => {
                return Err(ParserError::ExpectIdentifier);
            },
        };
        self.advance_token()?;
        match &self.current_token.token {
            TokenType::Assign => {},
            TokenType::EOF => {
                return Err(ParserError::EndOfInput);
            },
            _ => {
                return Err(ParserError::ExpectOperator(String::from_str("=")));
            },
        };
        self.advance_token()?;
        let expr = match self.parse_expression() {
            Ok(e) => e,
            Err(er) => {
                return Err(er);
            },
        };
        self.consume_semicolon()?;
        Ok(Statement::Let(name, expr))
    }

    /// Parses a `print` statement; the current token is the `print`
    /// keyword.  The parentheses are optional.
    fn parse_print(&mut self) -> (r: Result<Statement, ParserError>)
        requires
            old(self).wf(),
            old(self).current_token@ is Print,
        ensures
            final(self).src() == old(self).src(),
            match spec_parse_print(old(self).src(), old(self).cur()) {
                Ok((st, p2)) => {
                    &&& r matches Ok(stmt) && stmt@ == st
                    &&& final(self).wf()
                    &&& final(self).cur() == p2
                },
                Err(m) => r matches Err(er) && er@ == m,
            },
    {
        self.advance_token()?;
        match &self.current_token.token {
            TokenType::LParen => {
                self.advance_token()?;
            },
            _ => {},
        };
        let expr = match self.parse_expression() {
            Ok(e) => e,
            Err(er) => {
                return Err(er);
            },
        };
        match &self.current_token.token {
            TokenType::RParen => {
                self.advance_token()?;
            },
            _ => {},
        };
        self.consume_semicolon()?;
        Ok(Statement::Print(expr))
    }

    /// Parses a `return` statement; the current token is the `return`
    /// keyword.
    fn parse_return(&mut self) -> (r: Result<Statement, ParserError>)
        requires
            old(self).wf(),
            old(self).current_token@ is Return,
        ensures
            final(self).src() == old(self).src(),
            match spec_parse_return(old(self).src(), old(self).cur()) {
                Ok((st, p2)) => {
                    &&& r matches Ok(stmt) && stmt@ == st
                    &&& final(self).wf()
                    &&& final(self).cur() == p2
                },
                Err(m) => r matches Err(er) && er@ == m,
            },
    {
        self.advance_token()?;
        let expr = match self.parse_expression() {
            Ok(e) => e,
            Err(er) => {
                return Err(er);
            },
        };
        self.consume_semicolon()?;
        Ok(Statement::Return(expr))
    }

    /// Parses a bare expression statement.
    fn parse_expression_statement(&mut self) -> (r: Result<Statement, ParserError>)
        requires
            old(self).wf(),
        ensures
            final(self).src() == old(self).src(),
            match spec_parse_expression_statement(old(self).src(), old(self).cur()) {
                Ok((st, p2)) => {
                    &&& r matches Ok(stmt) && stmt@ == st
                    &&& final(self).wf()
                    &&& final(self).cur() == p2
                },
                Err(m) => r matches Err(er) && er@ == m,
            },
    {
        let expr = match self.parse_expression() {
            Ok(e) => e,
            Err(er) => {
                return Err(er);
            },
        };
        self.consume_semicolon()?;
        Ok(Statement::Expression(expr))
    }

    /// Parses one statement, dispatching on the current token.
    pub fn parse_statement(&mut self) -> (r: Result<Statement, ParserError>)
        requires
            old(self).wf(),
        ensures
            final(self).src() == old(self).src(),
            match spec_parse_statement(old(self).src(), old(self).cur()) {
                Ok((st, p2)) => {
                    &&& r matches Ok(stmt) && stmt@ == st
                    &&& final(self).wf()
                    &&& final(self).cur() == p2
                },
                Err(m) => r matches Err(er) && er@ == m,
            },
    {
        match &self.current_token.token {
            TokenType::Let => self.parse_let(),
            TokenType::Print => self.parse_print(),
            TokenType::Return => self.parse_return(),
            _ => self.parse_expression_statement(),
        }
    }

    /// Parses one statement at a time until the end marker; the first
    /// error stops the parse and is surfaced.
    #[verifier::rlimit(30)]
    pub fn parse_program(&mut self) -> (r: Result<Vec<Statement>, ParserError>)
        requires
            old(self).wf(),
        ensures
            final(self).src() == old(self).src(),
            match spec_parse_program(old(self).src(), old(self).cur()) {
                Ok(models) => {
                    &&& r matches Ok(v) && v@.map_values(|st: Statement| st@) == models
                    &&& final(self).wf()
                },
                Err(m) => r matches Err(er) && er@ == m,
            },
    {
        let ghost s = self.src();
        let ghost p0 = self.cur();
        let mut prog: Vec<Statement> = Vec::new();
        proof {
            assert(prog@.map_values(|st: Statement| st@) =~= Seq::<StatementModel>::empty());
        }
        loop
            invariant_except_break
                self.wf(),
                self.src() == s,
                s == old(self).src(),
                p0 == old(self).cur(),
                0 <= self.cur() <= s.len(),
                ({
                    match spec_parse_program(s, self.cur()) {
                        Ok(rest) => spec_parse_program(s, p0) == Ok::<
                            Seq<StatementModel>,
                            ParserErrorModel,
                        >(prog@.map_values(|st: Statement| st@) + rest),
                        Err(m) => spec_parse_program(s, p0) == Err::<
                            Seq<StatementModel>,
                            ParserErrorModel,
                        >(m),
                    }
                }),
            ensures
                self.wf(),
                self.src() == s,
                spec_parse_program(s, p0) == Ok::<Seq<StatementModel>, ParserErrorModel>(
                    prog@.map_values(|st: Statement| st@),
                ),
            decreases s.len() - self.cur(),
        {
            let at_end = match &self.current_token.token {
                TokenType::EOF => true,
                _ => false,
            };
            if at_end {
                proof {
                    assert(prog@.map_values(|st: Statement| st@) + Seq::<
                        StatementModel,
                    >::empty() =~= prog@.map_values(|st: Statement| st@));
                }
                break;
            }
            proof {
                lemma_parse_statement_bounds(s, self.cur());
            }
            let ghost done = prog@.map_values(|st: Statement| st@);
            let st = match self.parse_statement() {
                Ok(st) => st,
                Err(er) => {
                    return Err(er);
                },
            };
            proof {
                match spec_parse_program(s, self.cur()) {
                    Ok(rest) => {
                        assert(prog@.push(st).map_values(|x: Statement| x@) =~= done.push(st@));
                        assert(done + (seq![st@] + rest) =~= done.push(st@) + rest);
                    },
                    Err(_) => {
                        assert(prog@.push(st).map_values(|x: Statement| x@) =~= done.push(st@));
                    },
                }
            }
            prog.push(st);
        }
        Ok(prog)
    }
}


} // verus!
