//! A parser for command-line tokens: one command, its positional value and
//! its flags, matched against commands and flags registered ahead of time.
//!
//! [`Command`] and [`Flag`] describe what is accepted, [`CliParser`] holds
//! them with the tokens and parses, and [`grammar`] says on mathematical
//! values what parsing means. [`laws`] holds what is proved of it.

pub mod command;
pub mod error;
pub mod flag;
pub mod grammar;
pub mod laws;
pub mod namespace;
pub mod parser;
pub mod token;

pub use command::Command;
pub use error::ParseError;
pub use flag::Flag;
pub use namespace::Namespace;
pub use parser::CliParser;
