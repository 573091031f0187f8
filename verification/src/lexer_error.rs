//! Lexical errors.  Each carries the 1-based line and column of the first
//! character of the offending lexeme, and the offending text itself.

use vstd::prelude::*;
use vstd::string::StringExecFns;
use crate::text::push_char;

verus! {

/// The closed set of lexical failures.
#[derive(Debug, PartialEq)]
pub enum LexError {
    UnexpectedChar { ch: char, line: usize, column: usize },
    InvalidIntLiteral { text: String, line: usize, column: usize },
    InvalidFloatLiteral { text: String, line: usize, column: usize },
}

/// The mathematical image of a lexical error.
pub enum LexErrorModel {
    UnexpectedChar { ch: char, line: int, column: int },
    InvalidIntLiteral { text: Seq<char>, line: int, column: int },
    InvalidFloatLiteral { text: Seq<char>, line: int, column: int },
}

impl View for LexError {
    type V = LexErrorModel;

    open spec fn view(&self) -> LexErrorModel {
        match self {
            LexError::UnexpectedChar { ch, line, column } => LexErrorModel::UnexpectedChar {
                ch: *ch,
                line: *line as int,
                column: *column as int,
            },
            LexError::InvalidIntLiteral { text, line, column } => LexErrorModel::InvalidIntLiteral {
                text: text@,
                line: *line as int,
                column: *column as int,
            },
            LexError::InvalidFloatLiteral { text, line, column } => {
                LexErrorModel::InvalidFloatLiteral {
                    text: text@,
                    line: *line as int,
                    column: *column as int,
                }
            },
        }
    }
}

/// The line of a lexical error's model.
pub open spec fn spec_lex_error_line(m: LexErrorModel) -> int {
    match m {
        LexErrorModel::UnexpectedChar { line, .. } => line,
        LexErrorModel::InvalidIntLiteral { line, .. } => line,
        LexErrorModel::InvalidFloatLiteral { line, .. } => line,
    }
}

/// The column of a lexical error's model.
pub open spec fn spec_lex_error_column(m: LexErrorModel) -> int {
    match m {
        LexErrorModel::UnexpectedChar { column, .. } => column,
        LexErrorModel::InvalidIntLiteral { column, .. } => column,
        LexErrorModel::InvalidFloatLiteral { column, .. } => column,
    }
}

/// The one-line message of a lexical error's model.
pub open spec fn spec_lex_error_message(m: LexErrorModel) -> Seq<char> {
    match m {
        LexErrorModel::UnexpectedChar { ch, .. } => "Unexpected character '"@ + seq![ch] + "'"@,
        LexErrorModel::InvalidIntLiteral { .. } => "invalid integer literal"@,
        LexErrorModel::InvalidFloatLiteral { .. } => "invalid float literal"@,
    }
}

impl LexError {
    /// The 1-based source line of the failure.
    pub fn line(&self) -> (r: usize)
        ensures
            r as int == spec_lex_error_line(self@),
    {
        match self {
            LexError::UnexpectedChar { line, .. } => *line,
            LexError::InvalidIntLiteral { line, .. } => *line,
            LexError::InvalidFloatLiteral { line, .. } => *line,
        }
    }

    /// The 1-based source column of the failure.
    pub fn column(&self) -> (r: usize)
        ensures
            r as int == spec_lex_error_column(self@),
    {
        match self {
            LexError::UnexpectedChar { column, .. } => *column,
            LexError::InvalidIntLiteral { column, .. } => *column,
            LexError::InvalidFloatLiteral { column, .. } => *column,
        }
    }

    /// The one-line message naming the failure.
    pub fn message(&self) -> (r: String)
        ensures
            r@ == spec_lex_error_message(self@),
    {
        match self {
            LexError::UnexpectedChar { ch, .. } => {
                let mut r = String::new();
                r.append("Unexpected character '");
                push_char(&mut r, *ch);
                r.append("'");
                assert(r@ =~= "Unexpected character '"@ + seq![*ch] + "'"@);
                r
            },
            LexError::InvalidIntLiteral { .. } => {
                let mut r = String::new();
                r.append("invalid integer literal");
                assert(r@ =~= "invalid integer literal"@);
                r
            },
            LexError::InvalidFloatLiteral { .. } => {
                let mut r = String::new();
                r.append("invalid float literal");
                assert(r@ =~= "invalid float literal"@);
                r
            },
        }
    }

    /// The remediation hint, where one exists: only the unexpected-character
    /// failure carries one; invalid literals have no hint beyond the generic
    /// message.
    pub fn hint(&self) -> (r: Option<String>)
        ensures
            match r {
                Some(h) => self@ is UnexpectedChar && h@ == "Check for typos or invalid character"@,
                None => !(self@ is UnexpectedChar),
            },
    {
        match self {
            LexError::UnexpectedChar { .. } => {
                let mut r = String::new();
                r.append("Check for typos or invalid character");
                assert(r@ =~= "Check for typos or invalid character"@);
                Some(r)
            },
            _ => None,
        }
    }
}

} // verus!
