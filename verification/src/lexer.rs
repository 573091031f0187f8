//! The lexer: consumes source text character by character and produces one
//! token per call, tracking the 1-based line/column position, skipping
//! whitespace and comments, and classifying numbers, identifiers, strings
//! and operators.
//!
//! The whole rule table is written down as spec functions over the character
//! sequence; `next_token` is proved to follow it exactly.
//!
//! Chosen policies for the cases the rule table leaves open:
//! - a bare `!`, `&` or `|` without its pair character is a dedicated
//!   single-character token (`Bang`, `Amp`, `Pipe`), not an error;
//! - an unterminated string literal silently terminates at end of input,
//!   keeping the characters read so far;
//! - an unterminated block comment silently consumes to end of input.

use vstd::prelude::*;
use crate::lexer_error::{LexError, LexErrorModel};
use crate::text::{chars_of, push_char, str_eq};
use crate::token::{Token, TokenModel, TokenType};

verus! {

// ---------------------------------------------------------------------------
// Character classes
// ---------------------------------------------------------------------------
/// Whitespace: space, tab, carriage return, newline.
pub open spec fn is_space_char(c: char) -> bool {
    c == ' ' || c == '\t' || c == '\r' || c == '\n'
}

/// A decimal digit.
pub open spec fn is_digit_char(c: char) -> bool {
    '0' <= c && c <= '9'
}

/// A letter, as identifiers may start with one.
pub open spec fn is_letter_char(c: char) -> bool {
    ('a' <= c && c <= 'z') || ('A' <= c && c <= 'Z')
}

/// A character that may continue an identifier: a letter or an underscore.
pub open spec fn is_ident_char(c: char) -> bool {
    is_letter_char(c) || c == '_'
}

/// The numeric value of a digit character.
pub open spec fn digit_val(c: char) -> int {
    c as int - '0' as int
}

// ---------------------------------------------------------------------------
// Line and column bookkeeping
// ---------------------------------------------------------------------------
/// The 1-based line number of position `p`: one more than the newlines
/// before it.
pub open spec fn spec_line_at(s: Seq<char>, p: int) -> int
    decreases p,
{
    if p <= 0 {
        1
    } else {
        spec_line_at(s, p - 1) + if s[p - 1] == '\n' {
            1int
        } else {
            0int
        }
    }
}

/// The 1-based column of position `p`: it resets at each newline.
pub open spec fn spec_col_at(s: Seq<char>, p: int) -> int
    decreases p,
{
    if p <= 0 {
        1
    } else if s[p - 1] == '\n' {
        1
    } else {
        spec_col_at(s, p - 1) + 1
    }
}

/// Lines and columns stay within one position of the prefix length.
pub proof fn lemma_position_bounds(s: Seq<char>, p: int)
    requires
        0 <= p,
    ensures
        1 <= spec_line_at(s, p) <= p + 1,
        1 <= spec_col_at(s, p) <= p + 1,
    decreases p,
{
    if p > 0 {
        lemma_position_bounds(s, p - 1);
    }
}

// ---------------------------------------------------------------------------
// Trivia: whitespace and comments
// ---------------------------------------------------------------------------
/// The first position at or after `i` holding a newline, or the end of the
/// buffer: the end of the line containing `i`, and where a line comment
/// stops.
pub open spec fn spec_line_end(s: Seq<char>, i: int) -> int
    decreases s.len() - i when 0 <= i <= s.len()
{
    if i == s.len() {
        i
    } else if s[i] == '\n' {
        i
    } else {
        spec_line_end(s, i + 1)
    }
}

pub proof fn lemma_line_end(s: Seq<char>, i: int)
    requires
        0 <= i <= s.len(),
    ensures
        i <= spec_line_end(s, i) <= s.len(),
    decreases s.len() - i,
{
    if i < s.len() && s[i] != '\n' {
        lemma_line_end(s, i + 1);
    }
}

/// The position just past the closing `*/` scanned from `i`, or the end of
/// the buffer when the block comment is unterminated.
pub open spec fn spec_block_comment_end(s: Seq<char>, i: int) -> int
    decreases s.len() - i when 0 <= i <= s.len()
{
    if i + 2 > s.len() {
        s.len() as int
    } else if s[i] == '*' && s[i + 1] == '/' {
        i + 2
    } else {
        spec_block_comment_end(s, i + 1)
    }
}

pub proof fn lemma_block_comment_end(s: Seq<char>, i: int)
    requires
        0 <= i <= s.len(),
    ensures
        i <= spec_block_comment_end(s, i) <= s.len(),
    decreases s.len() - i,
{
    if i + 2 <= s.len() && !(s[i] == '*' && s[i + 1] == '/') {
        lemma_block_comment_end(s, i + 1);
    }
}

/// Skips the maximal run of whitespace, line comments and block comments
/// starting at `p`.
pub open spec fn spec_skip_trivia(s: Seq<char>, p: int) -> int
    decreases s.len() - p when 0 <= p <= s.len()
{
    if p == s.len() {
        p
    } else if is_space_char(s[p]) {
        spec_skip_trivia(s, p + 1)
    } else if s[p] == '/' && p + 1 < s.len() && s[p + 1] == '/' {
        proof {
            lemma_line_end(s, p + 2);
        }
        spec_skip_trivia(s, spec_line_end(s, p + 2))
    } else if s[p] == '/' && p + 1 < s.len() && s[p + 1] == '*' {
        proof {
            lemma_block_comment_end(s, p + 2);
        }
        spec_skip_trivia(s, spec_block_comment_end(s, p + 2))
    } else {
        p
    }
}

pub proof fn lemma_skip_trivia(s: Seq<char>, p: int)
    requires
        0 <= p <= s.len(),
    ensures
        p <= spec_skip_trivia(s, p) <= s.len(),
    decreases s.len() - p,
{
    if p == s.len() {
    } else if is_space_char(s[p]) {
        lemma_skip_trivia(s, p + 1);
    } else if s[p] == '/' && p + 1 < s.len() && s[p + 1] == '/' {
        lemma_line_end(s, p + 2);
        lemma_skip_trivia(s, spec_line_end(s, p + 2));
    } else if s[p] == '/' && p + 1 < s.len() && s[p + 1] == '*' {
        lemma_block_comment_end(s, p + 2);
        lemma_skip_trivia(s, spec_block_comment_end(s, p + 2));
    }
}

// ---------------------------------------------------------------------------
// Scanning of literals and identifiers
// ---------------------------------------------------------------------------
/// The end of the maximal digit run starting at `i`.
pub open spec fn spec_scan_digits(s: Seq<char>, i: int) -> int
    decreases s.len() - i when 0 <= i <= s.len()
{
    if i < s.len() && is_digit_char(s[i]) {
        spec_scan_digits(s, i + 1)
    } else {
        i
    }
}

pub proof fn lemma_scan_digits(s: Seq<char>, i: int)
    requires
        0 <= i <= s.len(),
    ensures
        i <= spec_scan_digits(s, i) <= s.len(),
        i < s.len() && is_digit_char(s[i]) ==> spec_scan_digits(s, i) > i,
        forall|k: int| i <= k < spec_scan_digits(s, i) ==> is_digit_char(#[trigger] s[k]),
        spec_scan_digits(s, i) < s.len() ==> !is_digit_char(s[spec_scan_digits(s, i)]),
    decreases s.len() - i,
{
    if i < s.len() && is_digit_char(s[i]) {
        lemma_scan_digits(s, i + 1);
    }
}

/// The value of a sequence of decimal digits, most significant first.
pub open spec fn spec_digits_val(ds: Seq<char>) -> int
    decreases ds.len(),
{
    if ds.len() == 0 {
        0
    } else {
        spec_digits_val(ds.drop_last()) * 10 + digit_val(ds.last())
    }
}

/// The end of the maximal identifier run (letters and underscores)
/// starting at `i`.
pub open spec fn spec_scan_ident(s: Seq<char>, i: int) -> int
    decreases s.len() - i when 0 <= i <= s.len()
{
    if i < s.len() && is_ident_char(s[i]) {
        spec_scan_ident(s, i + 1)
    } else {
        i
    }
}

pub proof fn lemma_scan_ident(s: Seq<char>, i: int)
    requires
        0 <= i <= s.len(),
    ensures
        i <= spec_scan_ident(s, i) <= s.len(),
        i < s.len() && is_ident_char(s[i]) ==> spec_scan_ident(s, i) > i,
        forall|k: int| i <= k < spec_scan_ident(s, i) ==> is_ident_char(#[trigger] s[k]),
        spec_scan_ident(s, i) < s.len() ==> !is_ident_char(s[spec_scan_ident(s, i)]),
    decreases s.len() - i,
{
    if i < s.len() && is_ident_char(s[i]) {
        lemma_scan_ident(s, i + 1);
    }
}

/// What a backslash escape stands for; any character without a special
/// meaning passes through literally.
pub open spec fn spec_escape_char(c: char) -> char {
    if c == 'n' {
        '\n'
    } else if c == 't' {
        '\t'
    } else {
        c
    }
}

/// Scans a string literal body from `i` (just past the opening quote):
/// yields the escape-processed contents and the position after the closing
/// quote.  Reaching end of input first silently terminates the literal.
pub open spec fn spec_scan_string(s: Seq<char>, i: int) -> (Seq<char>, int)
    decreases s.len() - i when 0 <= i <= s.len()
{
    if i == s.len() {
        (Seq::empty(), i)
    } else if s[i] == '"' {
        (Seq::empty(), i + 1)
    } else if s[i] == '\\' {
        if i + 1 == s.len() {
            (seq!['\\'], s.len() as int)
        } else {
            let rest = spec_scan_string(s, i + 2);
            (seq![spec_escape_char(s[i + 1])] + rest.0, rest.1)
        }
    } else {
        let rest = spec_scan_string(s, i + 1);
        (seq![s[i]] + rest.0, rest.1)
    }
}

pub proof fn lemma_scan_string(s: Seq<char>, i: int)
    requires
        0 <= i <= s.len(),
    ensures
        i <= spec_scan_string(s, i).1 <= s.len(),
    decreases s.len() - i,
{
    if i == s.len() {
    } else if s[i] == '"' {
    } else if s[i] == '\\' {
        if i + 1 < s.len() {
            lemma_scan_string(s, i + 2);
        }
    } else {
        lemma_scan_string(s, i + 1);
    }
}

// ---------------------------------------------------------------------------
// Classification of one token
// ---------------------------------------------------------------------------
/// The token an identifier run stands for: a keyword where the text matches
/// one, an identifier otherwise.
pub open spec fn spec_keyword_token(w: Seq<char>) -> TokenModel {
    if w == "let"@ {
        TokenModel::Let
    } else if w == "if"@ {
        TokenModel::If
    } else if w == "print"@ {
        TokenModel::Print
    } else if w == "else"@ {
        TokenModel::Else
    } else if w == "true"@ {
        TokenModel::True
    } else if w == "false"@ {
        TokenModel::False
    } else if w == "fn"@ {
        TokenModel::Function
    } else if w == "return"@ {
        TokenModel::Return
    } else {
        TokenModel::Identifier(w)
    }
}

/// A numeric literal at `q` (`s[q]` is a digit): a maximal digit run,
/// optionally followed by `.` and a second digit run.  A second `.` ends the
/// number early.  An integer part beyond the 64-bit signed range is an
/// invalid-literal error.
pub open spec fn spec_number_token(s: Seq<char>, q: int) -> Result<
    (TokenModel, int),
    (LexErrorModel, int),
> {
    let j = spec_scan_digits(s, q);
    if j < s.len() && s[j] == '.' {
        let k = spec_scan_digits(s, j + 1);
        let ip = spec_digits_val(s.subrange(q, j));
        if ip <= i64::MAX {
            Ok((TokenModel::Float(ip as i64, s.subrange(j + 1, k)), k))
        } else {
            Err(
                (
                    LexErrorModel::InvalidFloatLiteral {
                        text: s.subrange(q, k),
                        line: spec_line_at(s, q),
                        column: spec_col_at(s, q),
                    },
                    k,
                ),
            )
        }
    } else {
        let v = spec_digits_val(s.subrange(q, j));
        if v <= i64::MAX {
            Ok((TokenModel::Int(v as i64), j))
        } else {
            Err(
                (
                    LexErrorModel::InvalidIntLiteral {
                        text: s.subrange(q, j),
                        line: spec_line_at(s, q),
                        column: spec_col_at(s, q),
                    },
                    j,
                ),
            )
        }
    }
}

/// The token starting exactly at `q`, with the position the lexer stands at
/// afterwards.  `q` is assumed to be past all trivia; in particular a `/`
/// here is a plain slash, never a comment.
pub open spec fn spec_token_from(s: Seq<char>, q: int) -> Result<
    (TokenModel, int),
    (LexErrorModel, int),
> {
    if q >= s.len() {
        Ok((TokenModel::EOF, s.len() as int))
    } else {
        let c = s[q];
        if is_digit_char(c) {
            spec_number_token(s, q)
        } else if is_letter_char(c) {
            let j = spec_scan_ident(s, q);
            Ok((spec_keyword_token(s.subrange(q, j)), j))
        } else if c == '"' {
            let r = spec_scan_string(s, q + 1);
            Ok((TokenModel::StringLiteral(r.0), r.1))
        } else if c == '=' {
            if q + 1 < s.len() && s[q + 1] == '=' {
                Ok((TokenModel::Equal, q + 2))
            } else {
                Ok((TokenModel::Assign, q + 1))
            }
        } else if c == '!' {
            if q + 1 < s.len() && s[q + 1] == '=' {
                Ok((TokenModel::NotEqual, q + 2))
            } else {
                Ok((TokenModel::Bang, q + 1))
            }
        } else if c == '>' {
            if q + 1 < s.len() && s[q + 1] == '=' {
                Ok((TokenModel::GtEq, q + 2))
            } else {
                Ok((TokenModel::Gt, q + 1))
            }
        } else if c == '<' {
            if q + 1 < s.len() && s[q + 1] == '=' {
                Ok((TokenModel::LtEq, q + 2))
            } else {
                Ok((TokenModel::Lt, q + 1))
            }
        } else if c == '&' {
            if q + 1 < s.len() && s[q + 1] == '&' {
                Ok((TokenModel::And, q + 2))
            } else {
                Ok((TokenModel::Amp, q + 1))
            }
        } else if c == '|' {
            if q + 1 < s.len() && s[q + 1] == '|' {
                Ok((TokenModel::Or, q + 2))
            } else {
                Ok((TokenModel::Pipe, q + 1))
            }
        } else if c == '+' {
            Ok((TokenModel::Plus, q + 1))
        } else if c == '-' {
            Ok((TokenModel::Minus, q + 1))
        } else if c == '*' {
            Ok((TokenModel::Star, q + 1))
        } else if c == '/' {
            Ok((TokenModel::Slash, q + 1))
        } else if c == '(' {
            Ok((TokenModel::LParen, q + 1))
        } else if c == ')' {
            Ok((TokenModel::RParen, q + 1))
        } else if c == '{' {
            Ok((TokenModel::LBrace, q + 1))
        } else if c == '}' {
            Ok((TokenModel::RBrace, q + 1))
        } else if c == ',' {
            Ok((TokenModel::Comma, q + 1))
        } else if c == ';' {
            Ok((TokenModel::Semicolon, q + 1))
        } else {
            Err(
                (
                    LexErrorModel::UnexpectedChar {
                        ch: c,
                        line: spec_line_at(s, q),
                        column: spec_col_at(s, q),
                    },
                    q + 1,
                ),
            )
        }
    }
}

/// The outcome of one `next_token` call from position `p`: skip trivia,
/// then classify.
pub open spec fn spec_next_token(s: Seq<char>, p: int) -> Result<
    (TokenModel, int),
    (LexErrorModel, int),
> {
    spec_token_from(s, spec_skip_trivia(s, p))
}

/// Where the lexer stands after producing a token or an error: never before
/// where it stood, never past the end; a non-end token strictly advances,
/// and the end marker stands at the end of the buffer.
pub proof fn lemma_next_token_bounds(s: Seq<char>, p: int)
    requires
        0 <= p <= s.len(),
    ensures
        match spec_next_token(s, p) {
            Ok((t, e)) => {
                &&& p <= e <= s.len()
                &&& (t is EOF ==> e == s.len())
                &&& (!(t is EOF) ==> p < e)
            },
            Err((m, e)) => p < e <= s.len(),
        },
{
    lemma_skip_trivia(s, p);
    let q = spec_skip_trivia(s, p);
    if q < s.len() {
        let c = s[q];
        if is_digit_char(c) {
            lemma_scan_digits(s, q);
            let j = spec_scan_digits(s, q);
            assert(j > q);
            if j < s.len() && s[j] == '.' {
                lemma_scan_digits(s, j + 1);
            }
        } else if is_letter_char(c) {
            lemma_scan_ident(s, q);
            assert(spec_scan_ident(s, q) > q);
        } else if c == '"' {
            lemma_scan_string(s, q + 1);
        }
    }
}

// ---------------------------------------------------------------------------
// The executable lexer
// ---------------------------------------------------------------------------

// ---------------------------------------------------------------------------
// Source lines, for diagnostics
// ---------------------------------------------------------------------------
/// The position where the 1-based line `n` starts: just past the newline
/// ending the previous line, or the end of the buffer when there is no
/// such line.
pub open spec fn spec_line_start(s: Seq<char>, n: int) -> int
    decreases n,
{
    if n <= 1 {
        0
    } else {
        let e = spec_line_end(s, spec_line_start(s, n - 1));
        if e >= s.len() {
            s.len() as int
        } else {
            e + 1
        }
    }
}


/// The text of the 1-based line `n`: from its start up to its newline or
/// the end of the buffer.
pub open spec fn spec_line_text(s: Seq<char>, n: int) -> Seq<char> {
    s.subrange(spec_line_start(s, n), spec_line_end(s, spec_line_start(s, n)))
}

/// Digit sequences have a non-negative value.
pub proof fn lemma_digits_val_nonneg(ds: Seq<char>)
    requires
        forall|k: int| 0 <= k < ds.len() ==> is_digit_char(#[trigger] ds[k]),
    ensures
        spec_digits_val(ds) >= 0,
    decreases ds.len(),
{
    if ds.len() > 0 {
        lemma_digits_val_nonneg(ds.drop_last());
    }
}

/// The lexer: an immutable view over one source buffer, a cursor, and the
/// 1-based line/column of the cursor.
pub struct Lexer {
    input: Vec<char>,
    pos: usize,
    line: usize,
    col: usize,
}

impl Lexer {
    /// The source buffer.
    pub closed spec fn src(self) -> Seq<char> {
        self.input@
    }

    /// The cursor: how many characters have been consumed.
    pub closed spec fn position(self) -> int {
        self.pos as int
    }

    /// The line field agrees with the line of the cursor.
    pub closed spec fn line_no(self) -> int {
        self.line as int
    }

    /// The column field agrees with the column of the cursor.
    pub closed spec fn col_no(self) -> int {
        self.col as int
    }

    /// Well-formedness: the cursor is inside the buffer and the tracked
    /// line/column are those of the cursor position.
    pub open spec fn wf(self) -> bool {
        &&& 0 <= self.position() <= self.src().len()
        &&& self.src().len() < usize::MAX
        &&& self.line_no() == spec_line_at(self.src(), self.position())
        &&& self.col_no() == spec_col_at(self.src(), self.position())
    }

    /// Creates a lexer over the given source text, standing at its start.
    pub fn new(input: &str) -> (l: Lexer)
        requires
            input@.len() < usize::MAX,
        ensures
            l.wf(),
            l.src() == input@,
            l.position() == 0,
    {
        let v = chars_of(input);
        Lexer { input: v, pos: 0, line: 1, col: 1 }
    }

    /// Consumes one character, keeping line and column in step: a newline
    /// increments the line and resets the column.
    pub fn advance(&mut self)
        requires
            old(self).wf(),
            old(self).position() < old(self).src().len(),
        ensures
            final(self).wf(),
            final(self).src() == old(self).src(),
            final(self).position() == old(self).position() + 1,
    {
        proof {
            lemma_position_bounds(self.src(), self.position());
        }
        let c = self.input[self.pos];
        if c == '\n' {
            self.line = self.line + 1;
            self.col = 1;
        } else {
            self.col = self.col + 1;
        }
        self.pos = self.pos + 1;
    }

    /// The next unconsumed character, if any, without consuming it.
    pub fn peek_char(&self) -> (r: Option<char>)
        requires
            self.wf(),
        ensures
            r == if self.position() < self.src().len() {
                Some(self.src()[self.position()])
            } else {
                None::<char>
            },
    {
        if self.pos < self.input.len() {
            Some(self.input[self.pos])
        } else {
            None
        }
    }

    /// Skips a `//` comment: stops at the newline (or the end of input),
    /// leaving the newline itself to the whitespace rule.
    fn skip_single_comment(&mut self)
        requires
            old(self).wf(),
            old(self).position() + 1 < old(self).src().len(),
            old(self).src()[old(self).position()] == '/',
            old(self).src()[old(self).position() + 1] == '/',
        ensures
            final(self).wf(),
            final(self).src() == old(self).src(),
            final(self).position() == spec_line_end(
                old(self).src(),
                old(self).position() + 2,
            ),
    {
        let ghost s = self.input@;
        self.advance();
        self.advance();
        loop
            invariant
                self.wf(),
                self.src() == s,
                old(self).position() + 2 <= self.position() <= s.len(),
                spec_line_end(s, self.position()) == spec_line_end(
                    s,
                    old(self).position() + 2,
                ),
            ensures
                self.wf(),
                self.src() == s,
                self.position() == spec_line_end(s, old(self).position() + 2),
            decreases s.len() - self.position(),
        {
            if self.pos >= self.input.len() {
                break;
            }
            if self.input[self.pos] == '\n' {
                break;
            }
            self.advance();
        }
    }

    /// Skips a `/* ... */` comment, consuming both closing characters; an
    /// unterminated comment silently consumes to end of input.
    fn skip_multiline_comment(&mut self)
        requires
            old(self).wf(),
            old(self).position() + 1 < old(self).src().len(),
            old(self).src()[old(self).position()] == '/',
            old(self).src()[old(self).position() + 1] == '*',
        ensures
            final(self).wf(),
            final(self).src() == old(self).src(),
            final(self).position() == spec_block_comment_end(
                old(self).src(),
                old(self).position() + 2,
            ),
    {
        let ghost s = self.input@;
        self.advance();
        self.advance();
        loop
            invariant_except_break
                spec_block_comment_end(s, self.position()) == spec_block_comment_end(
                    s,
                    old(self).position() + 2,
                ),
            invariant
                self.wf(),
                self.src() == s,
                old(self).position() + 2 <= self.position() <= s.len(),
            ensures
                self.wf(),
                self.src() == s,
                self.position() == spec_block_comment_end(s, old(self).position() + 2),
            decreases s.len() - self.position(),
        {
            if self.pos + 1 >= self.input.len() {
                if self.pos < self.input.len() {
                    self.advance();
                }
                break;
            }
            if self.input[self.pos] == '*' && self.input[self.pos + 1] == '/' {
                self.advance();
                self.advance();
                break;
            }
            self.advance();
        }
    }

    /// Skips the maximal run of whitespace and comments before the cursor.
    fn skip_trivia(&mut self)
        requires
            old(self).wf(),
        ensures
            final(self).wf(),
            final(self).src() == old(self).src(),
            final(self).position() == spec_skip_trivia(old(self).src(), old(self).position()),
    {
        let ghost s = self.input@;
        loop
            invariant
                self.wf(),
                self.src() == s,
                0 <= self.position() <= s.len(),
                spec_skip_trivia(s, self.position()) == spec_skip_trivia(
                    s,
                    old(self).position(),
                ),
            ensures
                self.wf(),
                self.src() == s,
                self.position() == spec_skip_trivia(s, old(self).position()),
            decreases s.len() - self.position(),
        {
            if self.pos >= self.input.len() {
                break;
            }
            let c = self.input[self.pos];
            if c == ' ' || c == '\t' || c == '\r' || c == '\n' {
                self.advance();
            } else if c == '/' && self.pos + 1 < self.input.len() && self.input[self.pos + 1]
                == '/' {
                proof {
                    lemma_line_end(s, self.position() + 2);
                }
                self.skip_single_comment();
            } else if c == '/' && self.pos + 1 < self.input.len() && self.input[self.pos + 1]
                == '*' {
                proof {
                    lemma_block_comment_end(s, self.position() + 2);
                }
                self.skip_multiline_comment();
            } else {
                break;
            }
        }
    }

    /// Lexes a numeric literal: a maximal digit run, optionally one `.` and
    /// a second digit run.  An integer part out of the 64-bit signed range
    /// is an invalid-literal error carrying the offending text.
    fn lex_number(&mut self) -> (r: Result<Token, LexError>)
        requires
            old(self).wf(),
            old(self).position() < old(self).src().len(),
            is_digit_char(old(self).src()[old(self).position()]),
        ensures
            final(self).wf(),
            final(self).src() == old(self).src(),
            match spec_number_token(old(self).src(), old(self).position()) {
                Ok((t, e)) => r matches Ok(tok) && tok@ == t && final(self).position() == e,
                Err((m, e)) => r matches Err(err) && err@ == m && final(self).position() == e,
            },
    {
        let ghost s = self.input@;
        let ghost q = self.pos as int;
        let start_line = self.line;
        let start_col = self.col;
        let mut text = String::new();
        let mut val: i64 = 0;
        let mut overflow = false;
        loop
            invariant
                self.wf(),
                self.src() == s,
                q == old(self).position(),
                0 <= q <= self.position() <= s.len(),
                spec_scan_digits(s, self.position()) == spec_scan_digits(s, q),
                forall|k: int| q <= k < self.position() ==> is_digit_char(#[trigger] s[k]),
                text@ == s.subrange(q, self.position()),
                !overflow ==> 0 <= val == spec_digits_val(s.subrange(q, self.position())),
                overflow ==> spec_digits_val(s.subrange(q, self.position())) > i64::MAX,
            ensures
                self.wf(),
                self.src() == s,
                self.position() == spec_scan_digits(s, q),
                forall|k: int| q <= k < self.position() ==> is_digit_char(#[trigger] s[k]),
                text@ == s.subrange(q, self.position()),
                !overflow ==> 0 <= val == spec_digits_val(s.subrange(q, self.position())),
                overflow ==> spec_digits_val(s.subrange(q, self.position())) > i64::MAX,
            decreases s.len() - self.position(),
        {
            if self.pos >= self.input.len() {
                break;
            }
            let c = self.input[self.pos];
            if !('0' <= c && c <= '9') {
                break;
            }
            let ghost before = s.subrange(q, self.position());
            let d: i64 = ((c as u32) as i64) - 48;
            proof {
                lemma_digits_val_nonneg(before);
                assert(s.subrange(q, self.position() + 1).drop_last() =~= before);
                assert(s.subrange(q, self.position() + 1).last() == s[self.position()]);
            }
            if !overflow {
                match val.checked_mul(10) {
                    Some(v10) => {
                        match v10.checked_add(d) {
                            Some(v) => {
                                val = v;
                            },
                            None => {
                                overflow = true;
                            },
                        }
                    },
                    None => {
                        overflow = true;
                    },
                }
            }
            push_char(&mut text, c);
            self.advance();
        }
        let ghost j = spec_scan_digits(s, q);
        if self.pos < self.input.len() && self.input[self.pos] == '.' {
            push_char(&mut text, '.');
            self.advance();
            let mut frac = String::new();
            loop
                invariant
                    self.wf(),
                    self.src() == s,
                    0 <= j + 1 <= self.position() <= s.len(),
                    spec_scan_digits(s, self.position()) == spec_scan_digits(s, j + 1),
                    frac@ == s.subrange(j + 1, self.position()),
                    text@ == s.subrange(q, self.position()),
                    0 <= q <= j,
                ensures
                    self.wf(),
                    self.src() == s,
                    self.position() == spec_scan_digits(s, j + 1),
                    frac@ == s.subrange(j + 1, self.position()),
                    text@ == s.subrange(q, self.position()),
                decreases s.len() - self.position(),
            {
                if self.pos >= self.input.len() {
                    break;
                }
                let c = self.input[self.pos];
                if !('0' <= c && c <= '9') {
                    break;
                }
                proof {
                    assert(s.subrange(j + 1, self.position() + 1) =~= s.subrange(
                        j + 1,
                        self.position(),
                    ).push(s[self.position()]));
                    assert(s.subrange(q, self.position() + 1) =~= s.subrange(
                        q,
                        self.position(),
                    ).push(s[self.position()]));
                }
                push_char(&mut frac, c);
                push_char(&mut text, c);
                self.advance();
            }
            if overflow {
                return Err(
                    LexError::InvalidFloatLiteral {
                        text,
                        line: start_line,
                        column: start_col,
                    },
                );
            }
            return Ok(Token { token: TokenType::Float(val, frac) });
        }
        if overflow {
            return Err(LexError::InvalidIntLiteral { text, line: start_line, column: start_col });
        }
        Ok(Token { token: TokenType::Int(val) })
    }

    /// Lexes an identifier run and classifies it against the keyword set.
    fn lex_identifier(&mut self) -> (r: Token)
        requires
            old(self).wf(),
            old(self).position() < old(self).src().len(),
            is_letter_char(old(self).src()[old(self).position()]),
        ensures
            final(self).wf(),
            final(self).src() == old(self).src(),
            final(self).position() == spec_scan_ident(old(self).src(), old(self).position()),
            r@ == spec_keyword_token(
                old(self).src().subrange(
                    old(self).position(),
                    spec_scan_ident(old(self).src(), old(self).position()),
                ),
            ),
    {
        let ghost s = self.input@;
        let ghost q = self.pos as int;
        let mut w = String::new();
        loop
            invariant
                self.wf(),
                self.src() == s,
                q == old(self).position(),
                0 <= q <= self.position() <= s.len(),
                spec_scan_ident(s, self.position()) == spec_scan_ident(s, q),
                w@ == s.subrange(q, self.position()),
            ensures
                self.wf(),
                self.src() == s,
                self.position() == spec_scan_ident(s, q),
                w@ == s.subrange(q, self.position()),
            decreases s.len() - self.position(),
        {
            if self.pos >= self.input.len() {
                break;
            }
            let c = self.input[self.pos];
            if !(('a' <= c && c <= 'z') || ('A' <= c && c <= 'Z') || c == '_') {
                break;
            }
            proof {
                assert(s.subrange(q, self.position() + 1) =~= s.subrange(q, self.position()).push(
                    s[self.position()],
                ));
            }
            push_char(&mut w, c);
            self.advance();
        }
        let token_type = if str_eq(w.as_str(), "let") {
            TokenType::Let
        } else if str_eq(w.as_str(), "if") {
            TokenType::If
        } else if str_eq(w.as_str(), "print") {
            TokenType::Print
        } else if str_eq(w.as_str(), "else") {
            TokenType::Else
        } else if str_eq(w.as_str(), "true") {
            TokenType::True
        } else if str_eq(w.as_str(), "false") {
            TokenType::False
        } else if str_eq(w.as_str(), "fn") {
            TokenType::Function
        } else if str_eq(w.as_str(), "return") {
            TokenType::Return
        } else {
            TokenType::Identifier(w)
        };
        Token { token: token_type }
    }

    /// Lexes a string literal body past its opening quote, processing the
    /// backslash escapes; an unterminated literal silently terminates at
    /// end of input.
    fn parse_string_literal(&mut self) -> (r: String)
        requires
            old(self).wf(),
            old(self).position() < old(self).src().len(),
            old(self).src()[old(self).position()] == '"',
        ensures
            final(self).wf(),
            final(self).src() == old(self).src(),
            r@ == spec_scan_string(old(self).src(), old(self).position() + 1).0,
            final(self).position() == spec_scan_string(
                old(self).src(),
                old(self).position() + 1,
            ).1,
    {
        let ghost s = self.input@;
        self.advance();
        let mut content = String::new();
        loop
            invariant_except_break
                spec_scan_string(s, old(self).position() + 1).0 == content@ + spec_scan_string(
                    s,
                    self.position(),
                ).0,
                spec_scan_string(s, old(self).position() + 1).1 == spec_scan_string(
                    s,
                    self.position(),
                ).1,
            invariant
                self.wf(),
                self.src() == s,
                0 <= self.position() <= s.len(),
            ensures
                self.wf(),
                self.src() == s,
                content@ == spec_scan_string(s, old(self).position() + 1).0,
                self.position() == spec_scan_string(s, old(self).position() + 1).1,
            decreases s.len() - self.position(),
        {
            if self.pos >= self.input.len() {
                break;
            }
            let c = self.input[self.pos];
            if c == '"' {
                self.advance();
                break;
            }
            if c == '\\' {
                let ghost bsl = self.position();
                self.advance();
                if self.pos < self.input.len() {
                    let e = self.input[self.pos];
                    let e2 = if e == 'n' {
                        '\n'
                    } else if e == 't' {
                        '\t'
                    } else {
                        e
                    };
                    proof {
                        assert(content@ + (seq![spec_escape_char(s[bsl + 1])] + spec_scan_string(
                            s,
                            bsl + 2,
                        ).0) =~= (content@ + seq![spec_escape_char(s[bsl + 1])])
                            + spec_scan_string(s, bsl + 2).0);
                        assert(content@.push(e2) =~= content@ + seq![spec_escape_char(s[bsl + 1])]);
                    }
                    push_char(&mut content, e2);
                    self.advance();
                } else {
                    proof {
                        assert(content@ + seq!['\\'] =~= content@.push('\\'));
                        assert(content@ + (seq!['\\'] + Seq::<char>::empty()) =~= content@.push(
                            '\\',
                        ) + Seq::<char>::empty());
                    }
                    push_char(&mut content, '\\');
                }
            } else {
                proof {
                    assert(content@ + (seq![s[self.position()]] + spec_scan_string(
                        s,
                        self.position() + 1,
                    ).0) =~= content@.push(s[self.position()]) + spec_scan_string(
                        s,
                        self.position() + 1,
                    ).0);
                }
                push_char(&mut content, c);
                self.advance();
            }
        }
        content
    }

    /// Produces a one-character token, consuming that character.
    fn single_char_token(&mut self, token: TokenType) -> (r: Result<Token, LexError>)
        requires
            old(self).wf(),
            old(self).position() < old(self).src().len(),
        ensures
            final(self).wf(),
            final(self).src() == old(self).src(),
            final(self).position() == old(self).position() + 1,
            r matches Ok(t) && t.token == token,
    {
        self.advance();
        Ok(Token { token })
    }

    /// Produces a two-character token when the character after the current
    /// one is `next_char`, and the one-character fallback otherwise.  The
    /// longer match wins.
    fn double_char_token(
        &mut self,
        next_char: char,
        double_token: TokenType,
        single_token: TokenType,
    ) -> (r: Result<Token, LexError>)
        requires
            old(self).wf(),
            old(self).position() < old(self).src().len(),
        ensures
            final(self).wf(),
            final(self).src() == old(self).src(),
            ({
                let s = old(self).src();
                let p = old(self).position();
                if p + 1 < s.len() && s[p + 1] == next_char {
                    &&& final(self).position() == p + 2
                    &&& r matches Ok(t) && t.token == double_token
                } else {
                    &&& final(self).position() == p + 1
                    &&& r matches Ok(t) && t.token == single_token
                }
            }),
    {
        self.advance();
        if self.pos < self.input.len() && self.input[self.pos] == next_char {
            self.advance();
            Ok(Token { token: double_token })
        } else {
            Ok(Token { token: single_token })
        }
    }


    /// The text of the source line the lexer currently stands on, for
    /// diagnostics.
    pub fn get_current_line(&self) -> (r: String)
        requires
            self.wf(),
        ensures
            r@ == spec_line_text(self.src(), self.line_no()),
    {
        let ghost s = self.input@;
        let n = self.line;
        proof {
            lemma_position_bounds(s, self.position());
        }
        let mut start: usize = 0;
        let mut ln: usize = 1;
        while ln < n
            invariant
                1 <= ln <= n,
                s == self.input@,
                start as int == spec_line_start(s, ln as int),
                0 <= start <= s.len(),
            decreases n - ln,
        {
            let mut j = start;
            while j < self.input.len() && self.input[j] != '\n'
                invariant
                    s == self.input@,
                    start <= j <= s.len(),
                    spec_line_end(s, j as int) == spec_line_end(s, start as int),
                decreases s.len() - j,
            {
                j = j + 1;
            }
            if j == self.input.len() {
                start = self.input.len();
            } else {
                start = j + 1;
            }
            ln = ln + 1;
        }
        let mut r = String::new();
        let mut j = start;
        while j < self.input.len() && self.input[j] != '\n'
            invariant
                s == self.input@,
                start <= j <= s.len(),
                spec_line_end(s, j as int) == spec_line_end(s, start as int),
                r@ == s.subrange(start as int, j as int),
            decreases s.len() - j,
        {
            proof {
                assert(s.subrange(start as int, j + 1 as int) =~= s.subrange(
                    start as int,
                    j as int,
                ).push(s[j as int]));
            }
            push_char(&mut r, self.input[j]);
            j = j + 1;
        }
        proof {
            assert(spec_line_end(s, j as int) == j as int);
        }
        r
    }

    /// Produces the next meaningful token, or a lexical error.  Exactly the
    /// consumed characters are advanced past, and calling at end of input
    /// repeatedly yields the end marker without erroring.
    pub fn next_token(&mut self) -> (r: Result<Token, LexError>)
        requires
            old(self).wf(),
        ensures
            final(self).wf(),
            final(self).src() == old(self).src(),
            match spec_next_token(old(self).src(), old(self).position()) {
                Ok((t, e)) => r matches Ok(tok) && tok@ == t && final(self).position() == e,
                Err((m, e)) => r matches Err(err) && err@ == m && final(self).position() == e,
            },
    {
        let ghost s = self.input@;
        let ghost p0 = self.pos as int;
        self.skip_trivia();
        proof {
            lemma_skip_trivia(s, p0);
        }
        if self.pos >= self.input.len() {
            return Ok(Token { token: TokenType::EOF });
        }
        let c = self.input[self.pos];
        if '0' <= c && c <= '9' {
            return self.lex_number();
        }
        if ('a' <= c && c <= 'z') || ('A' <= c && c <= 'Z') {
            return Ok(self.lex_identifier());
        }
        if c == '"' {
            let content = self.parse_string_literal();
            return Ok(Token { token: TokenType::StringLiteral(content) });
        }
        let line0 = self.line;
        let col0 = self.col;
        if c == '=' {
            self.double_char_token('=', TokenType::Equal, TokenType::Assign)
        } else if c == '!' {
            self.double_char_token('=', TokenType::NotEqual, TokenType::Bang)
        } else if c == '>' {
            self.double_char_token('=', TokenType::GtEq, TokenType::Gt)
        } else if c == '<' {
            self.double_char_token('=', TokenType::LtEq, TokenType::Lt)
        } else if c == '&' {
            self.double_char_token('&', TokenType::And, TokenType::Amp)
        } else if c == '|' {
            self.double_char_token('|', TokenType::Or, TokenType::Pipe)
        } else if c == '+' {
            self.single_char_token(TokenType::Plus)
        } else if c == '-' {
            self.single_char_token(TokenType::Minus)
        } else if c == '*' {
            self.single_char_token(TokenType::Star)
        } else if c == '/' {
            self.single_char_token(TokenType::Slash)
        } else if c == '(' {
            self.single_char_token(TokenType::LParen)
        } else if c == ')' {
            self.single_char_token(TokenType::RParen)
        } else if c == '{' {
            self.single_char_token(TokenType::LBrace)
        } else if c == '}' {
            self.single_char_token(TokenType::RBrace)
        } else if c == ',' {
            self.single_char_token(TokenType::Comma)
        } else if c == ';' {
            self.single_char_token(TokenType::Semicolon)
        } else {
            self.advance();
            Err(LexError::UnexpectedChar { ch: c, line: line0, column: col0 })
        }
    }
}


// ---------------------------------------------------------------------------
// The token stream as a whole
// ---------------------------------------------------------------------------
/// The whole token stream from `p`: every token in order, ending with the
/// end marker, or the first lexical error.
pub open spec fn spec_token_stream(s: Seq<char>, p: int) -> Result<Seq<TokenModel>, LexErrorModel>
    decreases s.len() - p when 0 <= p <= s.len()
{
    match spec_next_token(s, p) {
        Err((m, _)) => Err(m),
        Ok((t, e)) => if t is EOF {
            Ok(seq![t])
        } else if p < e <= s.len() {
            match spec_token_stream(s, e) {
                Ok(rest) => Ok(seq![t] + rest),
                Err(m) => Err(m),
            }
        } else {
            Err(arbitrary())
        },
    }
}

/// Tokenizes a whole buffer: the token sequence of the rule table, ending
/// with the end marker, or its first lexical error.
pub fn tokenize(input: &str) -> (r: Result<Vec<Token>, LexError>)
    requires
        input@.len() < usize::MAX,
    ensures
        match spec_token_stream(input@, 0) {
            Ok(models) => r matches Ok(v) && v@.map_values(|t: Token| t@) == models,
            Err(m) => r matches Err(e) && e@ == m,
        },
{
    let ghost s = input@;
    let mut lx = Lexer::new(input);
    let mut out: Vec<Token> = Vec::new();
    proof {
        assert(out@.map_values(|t: Token| t@) =~= Seq::<TokenModel>::empty());
    }
    loop
        invariant_except_break
            lx.wf(),
            lx.src() == s,
            s == input@,
            0 <= lx.position() <= s.len(),
            ({
                match spec_token_stream(s, lx.position()) {
                    Ok(rest) => spec_token_stream(s, 0) == Ok::<Seq<TokenModel>, LexErrorModel>(
                        out@.map_values(|t: Token| t@) + rest,
                    ),
                    Err(m) => spec_token_stream(s, 0) == Err::<Seq<TokenModel>, LexErrorModel>(m),
                }
            }),
        ensures
            spec_token_stream(s, 0) == Ok::<Seq<TokenModel>, LexErrorModel>(
                out@.map_values(|t: Token| t@),
            ),
        decreases s.len() - lx.position(),
    {
        proof {
            lemma_next_token_bounds(s, lx.position());
        }
        let ghost done = out@.map_values(|t: Token| t@);
        match lx.next_token() {
            Err(e) => {
                return Err(e);
            },
            Ok(tok) => {
                let is_eof = match &tok.token {
                    TokenType::EOF => true,
                    _ => false,
                };
                proof {
                    assert(out@.push(tok).map_values(|t: Token| t@) =~= done.push(tok@));
                    if is_eof {
                        assert(done.push(tok@) =~= done + seq![tok@]);
                    } else {
                        match spec_token_stream(s, lx.position()) {
                            Ok(rest) => {
                                assert(done + (seq![tok@] + rest) =~= done.push(tok@) + rest);
                            },
                            Err(_) => {},
                        }
                    }
                }
                out.push(tok);
                if is_eof {
                    break;
                }
            },
        }
    }
    Ok(out)
}

// ---------------------------------------------------------------------------
// Laws of the lexer
// ---------------------------------------------------------------------------
/// Re-running the lexer over a buffer is idempotent: any two lexers over
/// equal buffers, standing at equal positions, are bound by `next_token`'s
/// contract to produce the same token and move to the same place, so
/// tokenizing the same buffer twice yields identical token sequences
/// (`tokenize` pins its result to `spec_token_stream` of the buffer).
pub proof fn lemma_lexing_deterministic(l1: Lexer, l2: Lexer)
    requires
        l1.wf(),
        l2.wf(),
        l1.src() == l2.src(),
        l1.position() == l2.position(),
    ensures
        spec_next_token(l1.src(), l1.position()) == spec_next_token(l2.src(), l2.position()),
        spec_token_stream(l1.src(), l1.position()) == spec_token_stream(l2.src(), l2.position()),
{
}

/// A source holding only whitespace and comments (its trivia covers the
/// whole buffer) lexes to the end marker alone, and no error.
pub proof fn lemma_trivia_only_yields_eof(s: Seq<char>)
    requires
        spec_skip_trivia(s, 0) == s.len(),
    ensures
        spec_next_token(s, 0) == Ok::<(TokenModel, int), (LexErrorModel, int)>(
            (TokenModel::EOF, s.len() as int),
        ),
        spec_token_stream(s, 0) == Ok::<Seq<TokenModel>, LexErrorModel>(seq![TokenModel::EOF]),
{
}

/// A maximal digit run covering `[i, j)` is exactly what the digit scan
/// finds.
proof fn lemma_scan_digits_range(s: Seq<char>, i: int, j: int)
    requires
        0 <= i <= j <= s.len(),
        forall|k: int| i <= k < j ==> is_digit_char(#[trigger] s[k]),
        j < s.len() ==> !is_digit_char(s[j]),
    ensures
        spec_scan_digits(s, i) == j,
    decreases j - i,
{
    if i < j {
        lemma_scan_digits_range(s, i + 1, j);
    }
}

/// Numeric round trip for integers: lexing the decimal text of any
/// integer value in range reproduces exactly that value.
pub proof fn lemma_int_round_trip(s: Seq<char>)
    requires
        s.len() > 0,
        forall|k: int| 0 <= k < s.len() ==> is_digit_char(#[trigger] s[k]),
        spec_digits_val(s) <= i64::MAX,
    ensures
        spec_next_token(s, 0) == Ok::<(TokenModel, int), (LexErrorModel, int)>(
            (TokenModel::Int(spec_digits_val(s) as i64), s.len() as int),
        ),
{
    assert(spec_skip_trivia(s, 0) == 0);
    lemma_scan_digits_range(s, 0, s.len() as int);
    assert(s.subrange(0, s.len() as int) =~= s);
}

/// Numeric round trip for floats: lexing digits, one decimal point and
/// more digits reproduces exactly the written integer part and fraction
/// digits.
pub proof fn lemma_float_round_trip(d1: Seq<char>, d2: Seq<char>)
    requires
        d1.len() > 0,
        forall|k: int| 0 <= k < d1.len() ==> is_digit_char(#[trigger] d1[k]),
        forall|k: int| 0 <= k < d2.len() ==> is_digit_char(#[trigger] d2[k]),
        spec_digits_val(d1) <= i64::MAX,
    ensures
        spec_next_token(d1 + seq!['.'] + d2, 0) == Ok::<(TokenModel, int), (LexErrorModel, int)>(
            (
                TokenModel::Float(spec_digits_val(d1) as i64, d2),
                (d1.len() + 1 + d2.len()) as int,
            ),
        ),
{
    let s = d1 + seq!['.'] + d2;
    let j = d1.len() as int;
    assert(forall|k: int| 0 <= k < j ==> s[k] == d1[k]);
    assert(s[j] == '.');
    assert(forall|k: int| j + 1 <= k < s.len() ==> s[k] == d2[k - j - 1]);
    assert(spec_skip_trivia(s, 0) == 0);
    lemma_scan_digits_range(s, 0, j);
    lemma_scan_digits_range(s, j + 1, s.len() as int);
    assert(s.subrange(0, j) =~= d1);
    assert(s.subrange(j + 1, s.len() as int) =~= d2);
}




} // verus!
