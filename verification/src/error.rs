//! The ways in which parsing fails.

use vstd::prelude::*;

verus! {

/// A parse failure as a mathematical value.
pub enum ParseErrorView {
    MissingPositional,
    NoCommands,
    InvalidCommand(Seq<char>),
    InvalidFlag(Seq<char>),
    ExpectedCommand,
    ExpectedPositional,
    ExpectedFlag,
    MissingRequiredFlag(Seq<char>),
}

/// Why a command line was rejected. Parsing stops at the first failure.
#[derive(Debug, PartialEq, Eq)]
pub enum ParseError {
    /// A flag takes a positional value and no token is left for it.
    MissingPositional,
    /// The tokens ended before any command was selected.
    NoCommands,
    /// The token stands where a command is expected and names none.
    InvalidCommand(String),
    /// The token is read as a flag and names neither a global flag nor a
    /// flag of the active command.
    InvalidFlag(String),
    /// A command was to be read and no token is left.
    ExpectedCommand,
    /// The command takes a positional value and no token is left for it.
    ExpectedPositional,
    /// A flag was to be read and no token is left.
    ExpectedFlag,
    /// The active command requires the flag of this name, and it was not
    /// given.
    MissingRequiredFlag(String),
}

impl View for ParseError {
    type V = ParseErrorView;

    open spec fn view(&self) -> ParseErrorView {
        match *self {
            ParseError::MissingPositional => ParseErrorView::MissingPositional,
            ParseError::NoCommands => ParseErrorView::NoCommands,
            ParseError::InvalidCommand(name) => ParseErrorView::InvalidCommand(name@),
            ParseError::InvalidFlag(name) => ParseErrorView::InvalidFlag(name@),
            ParseError::ExpectedCommand => ParseErrorView::ExpectedCommand,
            ParseError::ExpectedPositional => ParseErrorView::ExpectedPositional,
            ParseError::ExpectedFlag => ParseErrorView::ExpectedFlag,
            ParseError::MissingRequiredFlag(name) => ParseErrorView::MissingRequiredFlag(name@),
        }
    }
}

/// What a result holds, as mathematical values.
pub open spec fn outcome<T: View>(r: Result<T, ParseError>) -> Result<T::V, ParseErrorView> {
    match r {
        Ok(value) => Ok(value@),
        Err(e) => Err(e@),
    }
}

} // verus!
