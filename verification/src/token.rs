//! The token model: the closed set of lexical categories and their payloads.

use vstd::prelude::*;

verus! {

/// One lexical category per variant.  A token is immutable once produced.
///
/// A floating literal is kept exactly as written: the digits before the
/// decimal point as their integer value, and the digits after it as text,
/// so no precision is lost between the source and the token.
#[derive(Debug, PartialEq)]
pub enum TokenType {
    Int(i64),
    Float(i64, String),
    StringLiteral(String),
    Identifier(String),
    // Operators
    Assign,
    Bang,
    Amp,
    Pipe,
    Plus,
    Minus,
    Star,
    Slash,
    Lt,
    Gt,
    LtEq,
    GtEq,
    Equal,
    NotEqual,
    And,
    Or,
    // Delimiters
    Semicolon,
    RParen,
    LParen,
    RBrace,
    LBrace,
    Comma,
    // Keywords
    Let,
    Print,
    If,
    Else,
    Return,
    Function,
    True,
    False,
    EOF,
}

/// The mathematical image of a token: string payloads become `Seq<char>`.
pub enum TokenModel {
    Int(i64),
    Float(i64, Seq<char>),
    StringLiteral(Seq<char>),
    Identifier(Seq<char>),
    Assign,
    Bang,
    Amp,
    Pipe,
    Plus,
    Minus,
    Star,
    Slash,
    Lt,
    Gt,
    LtEq,
    GtEq,
    Equal,
    NotEqual,
    And,
    Or,
    Semicolon,
    RParen,
    LParen,
    RBrace,
    LBrace,
    Comma,
    Let,
    Print,
    If,
    Else,
    Return,
    Function,
    True,
    False,
    EOF,
}

impl View for TokenType {
    type V = TokenModel;

    open spec fn view(&self) -> TokenModel {
        match self {
            TokenType::Int(v) => TokenModel::Int(*v),
            TokenType::Float(ip, fr) => TokenModel::Float(*ip, fr@),
            TokenType::StringLiteral(s) => TokenModel::StringLiteral(s@),
            TokenType::Identifier(s) => TokenModel::Identifier(s@),
            TokenType::Assign => TokenModel::Assign,
            TokenType::Bang => TokenModel::Bang,
            TokenType::Amp => TokenModel::Amp,
            TokenType::Pipe => TokenModel::Pipe,
            TokenType::Plus => TokenModel::Plus,
            TokenType::Minus => TokenModel::Minus,
            TokenType::Star => TokenModel::Star,
            TokenType::Slash => TokenModel::Slash,
            TokenType::Lt => TokenModel::Lt,
            TokenType::Gt => TokenModel::Gt,
            TokenType::LtEq => TokenModel::LtEq,
            TokenType::GtEq => TokenModel::GtEq,
            TokenType::Equal => TokenModel::Equal,
            TokenType::NotEqual => TokenModel::NotEqual,
            TokenType::And => TokenModel::And,
            TokenType::Or => TokenModel::Or,
            TokenType::Semicolon => TokenModel::Semicolon,
            TokenType::RParen => TokenModel::RParen,
            TokenType::LParen => TokenModel::LParen,
            TokenType::RBrace => TokenModel::RBrace,
            TokenType::LBrace => TokenModel::LBrace,
            TokenType::Comma => TokenModel::Comma,
            TokenType::Let => TokenModel::Let,
            TokenType::Print => TokenModel::Print,
            TokenType::If => TokenModel::If,
            TokenType::Else => TokenModel::Else,
            TokenType::Return => TokenModel::Return,
            TokenType::Function => TokenModel::Function,
            TokenType::True => TokenModel::True,
            TokenType::False => TokenModel::False,
            TokenType::EOF => TokenModel::EOF,
        }
    }
}

impl Clone for TokenType {
    /// A clone is equal to the original, variant by variant.
    fn clone(&self) -> (r: TokenType)
        ensures
            r == *self,
    {
        match self {
            TokenType::Int(v) => TokenType::Int(*v),
            TokenType::Float(ip, fr) => TokenType::Float(*ip, fr.clone()),
            TokenType::StringLiteral(s) => TokenType::StringLiteral(s.clone()),
            TokenType::Identifier(s) => TokenType::Identifier(s.clone()),
            TokenType::Assign => TokenType::Assign,
            TokenType::Bang => TokenType::Bang,
            TokenType::Amp => TokenType::Amp,
            TokenType::Pipe => TokenType::Pipe,
            TokenType::Plus => TokenType::Plus,
            TokenType::Minus => TokenType::Minus,
            TokenType::Star => TokenType::Star,
            TokenType::Slash => TokenType::Slash,
            TokenType::Lt => TokenType::Lt,
            TokenType::Gt => TokenType::Gt,
            TokenType::LtEq => TokenType::LtEq,
            TokenType::GtEq => TokenType::GtEq,
            TokenType::Equal => TokenType::Equal,
            TokenType::NotEqual => TokenType::NotEqual,
            TokenType::And => TokenType::And,
            TokenType::Or => TokenType::Or,
            TokenType::Semicolon => TokenType::Semicolon,
            TokenType::RParen => TokenType::RParen,
            TokenType::LParen => TokenType::LParen,
            TokenType::RBrace => TokenType::RBrace,
            TokenType::LBrace => TokenType::LBrace,
            TokenType::Comma => TokenType::Comma,
            TokenType::Let => TokenType::Let,
            TokenType::Print => TokenType::Print,
            TokenType::If => TokenType::If,
            TokenType::Else => TokenType::Else,
            TokenType::Return => TokenType::Return,
            TokenType::Function => TokenType::Function,
            TokenType::True => TokenType::True,
            TokenType::False => TokenType::False,
            TokenType::EOF => TokenType::EOF,
        }
    }
}

/// A token as handed from the lexer to the parser.
#[derive(Debug, PartialEq, Clone)]
pub struct Token {
    pub token: TokenType,
}

impl View for Token {
    type V = TokenModel;

    open spec fn view(&self) -> TokenModel {
        self.token@
    }
}

} // verus!
