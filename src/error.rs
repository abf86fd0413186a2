//! The conditions that end a session before the passage is typed.

use vstd::prelude::*;
use vstd::string::*;
use crate::app::{MIN_TERM_COL, MIN_TERM_ROW};
use crate::text::string_from_chars;

verus! {

/// The decimal digit for `d`, which is below ten.
pub open spec fn digit(d: nat) -> char {
    if d == 0 { '0' }
    else if d == 1 { '1' }
    else if d == 2 { '2' }
    else if d == 3 { '3' }
    else if d == 4 { '4' }
    else if d == 5 { '5' }
    else if d == 6 { '6' }
    else if d == 7 { '7' }
    else if d == 8 { '8' }
    else { '9' }
}

fn digit_char(d: u64) -> (c: char)
    requires
        d < 10,
    ensures
        c == digit(d as nat),
{
    if d == 0 { '0' }
    else if d == 1 { '1' }
    else if d == 2 { '2' }
    else if d == 3 { '3' }
    else if d == 4 { '4' }
    else if d == 5 { '5' }
    else if d == 6 { '6' }
    else if d == 7 { '7' }
    else if d == 8 { '8' }
    else { '9' }
}

/// The decimal writing of `n`, without leading zeros.
pub open spec fn decimal(n: nat) -> Seq<char>
    decreases n,
{
    if n < 10 {
        seq![digit(n)]
    } else {
        decimal(n / 10).push(digit(n % 10))
    }
}

fn push_decimal(out: &mut Vec<char>, n: u64)
    ensures
        final(out)@ == old(out)@ + decimal(n as nat),
    decreases n,
{
    if n >= 10 {
        push_decimal(out, n / 10);
    }
    out.push(digit_char(n % 10));
}

/// The decimal writing of `n`.
pub fn decimal_string(n: u64) -> (r: String)
    ensures
        r@ == decimal(n as nat),
{
    let mut v: Vec<char> = Vec::new();
    push_decimal(&mut v, n);
    string_from_chars(&v)
}

/// A word that does not fit on a line of the widest allowed width.
#[derive(Debug, Clone)]
pub struct WordTooLongError {
    word: String,
    max_length: u16,
}

impl WordTooLongError {
    pub fn new(word: String, max_length: u16) -> (r: WordTooLongError)
        ensures
            r.spec_word() == word@,
            r.spec_max_length() == max_length,
    {
        WordTooLongError { word, max_length }
    }

    pub closed spec fn spec_word(&self) -> Seq<char> {
        self.word@
    }

    pub closed spec fn spec_max_length(&self) -> u16 {
        self.max_length
    }

    /// The word that does not fit.
    pub fn word(&self) -> (r: &str)
        ensures
            r@ == self.spec_word(),
    {
        self.word.as_str()
    }

    /// The line width that it exceeds.
    pub fn max_length(&self) -> (r: u16)
        ensures
            r == self.spec_max_length(),
    {
        self.max_length
    }

    /// The message shown to the user.
    pub fn message(&self) -> (r: String)
        ensures
            r@ == "The word \""@ + self.spec_word()
                + "\" is too long for the current terminal size or longer than "@
                + decimal(self.spec_max_length() as nat) + " characters."@,
    {
        let mut s = String::from_str("The word \"");
        s.append(self.word.as_str());
        s.append("\" is too long for the current terminal size or longer than ");
        let n = decimal_string(self.max_length as u64);
        s.append(n.as_str());
        s.append(" characters.");
        s
    }
}

/// The terminal is narrower or shorter than the session needs.
#[derive(Debug, Clone, Copy, PartialEq, Eq, Structural)]
pub struct TerminalTooSmallError;

impl TerminalTooSmallError {
    /// The message shown to the user.
    pub fn message(&self) -> (r: String)
        ensures
            r@ == "The terminal size is too small. Min column count is "@ + decimal(
                MIN_TERM_COL as nat,
            ) + " and minimum row count is "@ + decimal(MIN_TERM_ROW as nat) + "."@,
    {
        let mut s = String::from_str("The terminal size is too small. Min column count is ");
        let c = decimal_string(MIN_TERM_COL as u64);
        s.append(c.as_str());
        s.append(" and minimum row count is ");
        let r = decimal_string(MIN_TERM_ROW as u64);
        s.append(r.as_str());
        s.append(".");
        s
    }
}

/// Why a session stopped before its passage was typed.
#[derive(Debug, Clone)]
pub enum TyperError {
    TerminalTooSmallError(TerminalTooSmallError),
    WordTooLongError(WordTooLongError),
}

impl TyperError {
    /// The message of the condition inside.
    pub fn message(&self) -> (r: String)
        ensures
            self matches TyperError::TerminalTooSmallError(e) ==> r@ == "The terminal size is too small. Min column count is "@
                + decimal(MIN_TERM_COL as nat) + " and minimum row count is "@ + decimal(
                MIN_TERM_ROW as nat,
            ) + "."@,
            self matches TyperError::WordTooLongError(e) ==> r@ == "The word \""@ + e.spec_word()
                + "\" is too long for the current terminal size or longer than "@
                + decimal(e.spec_max_length() as nat) + " characters."@,
    {
        match self {
            TyperError::TerminalTooSmallError(e) => e.message(),
            TyperError::WordTooLongError(e) => e.message(),
        }
    }
}

} // verus!
