//! The closed set of lexical error kinds, each carrying the source line it
//! was detected on, and the error the surrounding command line reports.

use vstd::prelude::*;
use vstd::string::StringExecFns;

verus! {

/// A lexical error: the first unrecognized construct aborts the scan.
#[derive(Clone, Copy, Debug, PartialEq, Eq, Structural)]
pub enum ScannerError {
    /// A character outside every recognized class, with the line it occurs on.
    UnexpectedCharacter(char, usize),
    /// A string literal was opened but the source ended before a closing
    /// quote; the line is the one the scan stopped on.
    UnterminatedString(usize),
}

impl ScannerError {
    /// The 1-based source line the error is associated with.
    pub fn line(&self) -> (r: usize)
        ensures
            r == match *self {
                ScannerError::UnexpectedCharacter(_, line) => line,
                ScannerError::UnterminatedString(line) => line,
            },
    {
        match *self {
            ScannerError::UnexpectedCharacter(_, line) => line,
            ScannerError::UnterminatedString(line) => line,
        }
    }

    /// The human-readable message for the error, without the line prefix.
    pub fn message(&self) -> (r: String)
        ensures
            r@ == match *self {
                ScannerError::UnexpectedCharacter(c, _) => "Unexpected character '"@.push(c).push(
                    '\'',
                ),
                ScannerError::UnterminatedString(_) => "Unterminated string"@,
            },
    {
        match *self {
            ScannerError::UnexpectedCharacter(c, _) => {
                let mut r = String::from_str("Unexpected character '");
                crate::token::push_char(&mut r, c);
                crate::token::push_char(&mut r, '\'');
                r
            },
            ScannerError::UnterminatedString(_) => String::from_str("Unterminated string"),
        }
    }
}

/// The error the command-line shell reports when it is given too many
/// arguments.
#[derive(Clone, Copy, Debug, PartialEq, Eq, Structural)]
pub enum CLIError {
    TooManyArguments,
}

impl CLIError {
    /// The human-readable message for the error.
    pub fn message(&self) -> (r: String)
        ensures
            r@ == "Too many arguments"@,
    {
        String::from_str("Too many arguments")
    }
}

} // verus!
