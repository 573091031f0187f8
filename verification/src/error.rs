//! Positioned diagnostic reports: line, column, message, optional
//! remediation hint, the offending source line, and a caret marker.
//!
//! The rendered format is a stable contract for tooling: a header line
//! `Error at line L column C: <message>`, a blank line, the offending
//! source line prefixed with its line number, a caret line aligned to the
//! column, a blank line, and a hint line (`No hints available` when none
//! was supplied).

use vstd::prelude::*;
use vstd::string::StringExecFns;
use crate::text::{push_char, spec_udec, udec_string};

verus! {

/// A renderable diagnostic for one lexical failure.
#[derive(Debug)]
pub struct LexerError {
    pub line: usize,
    pub column: usize,
    pub msg: String,
    pub hint: Option<String>,
    pub line_content: String,
}

/// The caret marker: as many spaces as the column, then a caret.
pub open spec fn spec_marker(column: int) -> Seq<char> {
    Seq::new(column as nat, |i: int| ' ') + seq!['^']
}

/// The rendered report for the given position, message, hint and source
/// line.
pub open spec fn spec_report(
    line: int,
    column: int,
    msg: Seq<char>,
    hint: Option<Seq<char>>,
    line_content: Seq<char>,
) -> Seq<char> {
    "Error at line "@ + spec_udec(line) + " column "@ + spec_udec(column) + ": "@ + msg + "\n\n"@
        + spec_udec(line) + " | "@ + line_content + "\n  | "@ + spec_marker(column) + "\n\n"@ + (
    match hint {
        Some(h) => h,
        None => "No hints available"@,
    }) + "\n\n"@
}

impl LexerError {
    /// Builds a diagnostic from its parts.
    pub fn new(
        line: usize,
        column: usize,
        msg: String,
        hint: Option<String>,
        line_content: String,
    ) -> (r: LexerError)
        ensures
            r.line == line,
            r.column == column,
            r.msg == msg,
            r.hint == hint,
            r.line_content == line_content,
    {
        LexerError { line, column, msg, hint, line_content }
    }

    /// Renders the report in the stable diagnostic format.
    pub fn report(&self) -> (r: String)
        ensures
            r@ == spec_report(
                self.line as int,
                self.column as int,
                self.msg@,
                match self.hint {
                    Some(h) => Some(h@),
                    None => None::<Seq<char>>,
                },
                self.line_content@,
            ),
    {
        let mut r = String::new();
        r.append("Error at line ");
        let ln = udec_string(self.line);
        r.append(ln.as_str());
        r.append(" column ");
        let co = udec_string(self.column);
        r.append(co.as_str());
        r.append(": ");
        r.append(self.msg.as_str());
        r.append("\n\n");
        r.append(ln.as_str());
        r.append(" | ");
        r.append(self.line_content.as_str());
        r.append("\n  | ");
        let mut i: usize = 0;
        while i < self.column
            invariant
                i <= self.column,
                r@ == "Error at line "@ + spec_udec(self.line as int) + " column "@ + spec_udec(
                    self.column as int,
                ) + ": "@ + self.msg@ + "\n\n"@ + spec_udec(self.line as int) + " | "@
                    + self.line_content@ + "\n  | "@ + Seq::new(i as nat, |k: int| ' '),
            decreases self.column - i,
        {
            proof {
                assert(("Error at line "@ + spec_udec(self.line as int) + " column "@ + spec_udec(
                    self.column as int,
                ) + ": "@ + self.msg@ + "\n\n"@ + spec_udec(self.line as int) + " | "@
                    + self.line_content@ + "\n  | "@ + Seq::new((i + 1) as nat, |k: int| ' ')) =~= (
                "Error at line "@ + spec_udec(self.line as int) + " column "@ + spec_udec(
                    self.column as int,
                ) + ": "@ + self.msg@ + "\n\n"@ + spec_udec(self.line as int) + " | "@
                    + self.line_content@ + "\n  | "@ + Seq::new(i as nat, |k: int| ' ')).push(' '));
            }
            push_char(&mut r, ' ');
            i = i + 1;
        }
        push_char(&mut r, '^');
        r.append("\n\n");
        match &self.hint {
            Some(h) => {
                r.append(h.as_str());
            },
            None => {
                r.append("No hints available");
            },
        }
        r.append("\n\n");
        assert(r@ =~= spec_report(
            self.line as int,
            self.column as int,
            self.msg@,
            match self.hint {
                Some(h) => Some(h@),
                None => None::<Seq<char>>,
            },
            self.line_content@,
        ));
        r
    }
}

} // verus!
