//! What parsing means, on mathematical values: how the tokens are consumed
//! one after the other, and what comes of each.
//!
//! A command line is a sequence of tokens. At each level, top level or
//! inside the command that was selected, the flags that stand in front are
//! read first, then the flags that the active command requires are looked
//! for, and then either the tokens have ended, or the next token is taken
//! for the command.

use crate::command::CommandView;
use crate::error::ParseErrorView;
use crate::flag::FlagView;
use crate::namespace::Table;
use crate::token::{is_flag_token, normalize};
use vstd::prelude::*;

verus! {

/// A parser as a mathematical value: the commands and global flags that
/// were registered, the tokens that have not been consumed, and the flags
/// that were matched before any command was selected.
#[verifier::ext_equal]
pub struct ParserView {
    pub commands: Table<CommandView>,
    pub global_flags: Table<FlagView>,
    pub rest: Seq<Seq<char>>,
    pub parsed_flags: Table<FlagView>,
}

impl ParserView {
    /// The parser over `tokens` with nothing registered and nothing parsed.
    pub open spec fn over(tokens: Seq<Seq<char>>) -> ParserView {
        ParserView {
            commands: Table::empty(),
            global_flags: Table::empty(),
            rest: tokens,
            parsed_flags: Table::empty(),
        }
    }

    /// The parser with `command` registered under the command's name.
    pub open spec fn with_command(self, command: CommandView) -> ParserView {
        ParserView { commands: self.commands.insert(command.id, command), ..self }
    }

    /// The parser with `flag` registered as a global flag under the flag's
    /// name.
    pub open spec fn with_global_flag(self, flag: FlagView) -> ParserView {
        ParserView { global_flags: self.global_flags.insert(flag.id, flag), ..self }
    }

    /// The parser after its next token was consumed.
    pub open spec fn advance(self) -> ParserView {
        ParserView { rest: self.rest.skip(1), ..self }
    }

    /// The parser after the flag `flag` was matched at top level under
    /// `name`.
    pub open spec fn record(self, name: Seq<char>, flag: FlagView) -> ParserView {
        ParserView { parsed_flags: self.parsed_flags.insert(name, flag), ..self }
    }
}

/// Where a step of parsing leaves the parser and the active command, and
/// what it yields.
#[verifier::ext_equal]
pub struct Step<T> {
    pub parser: ParserView,
    pub command: Option<CommandView>,
    pub result: Result<T, ParseErrorView>,
}

/// The flag that is recorded when the token `token` was matched and `value`
/// was found for it.
pub open spec fn matched_flag(token: Seq<char>, value: Option<Seq<char>>) -> FlagView {
    FlagView { id: normalize(token), positional: false, positional_val: value, required: false }
}

/// The recipe that the flag token `token` resolves to: the global flag of
/// that name if there is one, else the flag of that name of the active
/// command, else none.
pub open spec fn resolve(
    parser: ParserView,
    command: Option<CommandView>,
    token: Seq<char>,
) -> Option<FlagView> {
    if parser.global_flags.contains(token) {
        Some(parser.global_flags.map[token])
    } else if command is Some && command->0.flags.contains(token) {
        Some(command->0.flags.map[token])
    } else {
        None
    }
}

/// Matching the flag token `token`, already consumed, against `recipe`:
/// where the recipe takes a positional value the next token is consumed as
/// that value, and it is an error if none is left.
pub open spec fn parse_flag_spec(parser: ParserView, token: Seq<char>, recipe: FlagView) -> (
    ParserView,
    Result<FlagView, ParseErrorView>,
) {
    if !recipe.positional {
        (parser, Ok(matched_flag(token, None)))
    } else if parser.rest.len() > 0 {
        (parser.advance(), Ok(matched_flag(token, Some(parser.rest[0]))))
    } else {
        (parser, Err(ParseErrorView::MissingPositional))
    }
}

/// Reading one flag: the next token is consumed and resolved, its value is
/// consumed where the recipe asks for one, and the flag is recorded under
/// the token, with the active command if there is one, with the parser
/// otherwise.
pub open spec fn parse_next_flag_spec(parser: ParserView, command: Option<CommandView>) -> Step<
    (),
> {
    if parser.rest.len() == 0 {
        Step { parser, command, result: Err(ParseErrorView::ExpectedFlag) }
    } else {
        let token = parser.rest[0];
        match resolve(parser, command, token) {
            None => Step {
                parser: parser.advance(),
                command,
                result: Err(ParseErrorView::InvalidFlag(token)),
            },
            Some(recipe) => {
                let (after, found) = parse_flag_spec(parser.advance(), token, recipe);
                match found {
                    Err(e) => Step { parser: after, command, result: Err(e) },
                    Ok(flag) => match command {
                        Some(active) => Step {
                            parser: after,
                            command: Some(active.record(token, flag)),
                            result: Ok(()),
                        },
                        None => Step {
                            parser: after.record(token, flag),
                            command: None,
                            result: Ok(()),
                        },
                    },
                }
            },
        }
    }
}

/// Reading the flags that stand in front: one flag after the other, as
/// long as the next token is a flag token, up to the first failure.
pub open spec fn parse_flags_spec(parser: ParserView, command: Option<CommandView>) -> Step<()>
    decreases parser.rest.len(),
{
    if parser.rest.len() > 0 && is_flag_token(parser.rest[0]) {
        let step = parse_next_flag_spec(parser, command);
        if step.result is Ok {
            parse_flags_spec(step.parser, step.command)
        } else {
            step
        }
    } else {
        Step { parser, command, result: Ok(()) }
    }
}

/// Reading flags consumes tokens and gives none back.
pub proof fn lemma_parse_flags_consumes(parser: ParserView, command: Option<CommandView>)
    ensures
        parse_flags_spec(parser, command).parser.rest.len() <= parser.rest.len(),
    decreases parser.rest.len(),
{
    if parser.rest.len() > 0 && is_flag_token(parser.rest[0]) {
        let step = parse_next_flag_spec(parser, command);
        if step.result is Ok {
            lemma_parse_flags_consumes(step.parser, step.command);
        }
    }
}

/// The command that the token `token` selects: the active command if there
/// is one, whatever the token, else the command registered under the token.
pub open spec fn select(parser: ParserView, command: Option<CommandView>, token: Seq<char>)
    -> Option<CommandView> {
    if command is Some {
        command
    } else if parser.commands.contains(token) {
        Some(parser.commands.map[token])
    } else {
        None
    }
}

/// Parsing a level: the flags in front are read; if a command is active,
/// the first required flag of it that was not matched is an error; then, if
/// no token is left, the active command is the result, and it is an error
/// if none is active; else the command is read.
pub open spec fn parse_next_spec(parser: ParserView, command: Option<CommandView>) -> Step<
    CommandView,
>
    decreases parser.rest.len(), 1int,
{
    let flags = parse_flags_spec(parser, command);
    let missing = if flags.command is Some {
        flags.command->0.missing_flags()
    } else {
        Seq::empty()
    };
    if flags.result is Err {
        Step { parser: flags.parser, command: flags.command, result: Err(flags.result->Err_0) }
    } else if missing.len() > 0 {
        Step {
            parser: flags.parser,
            command: flags.command,
            result: Err(ParseErrorView::MissingRequiredFlag(missing[0])),
        }
    } else if flags.parser.rest.len() > 0 {
        proof {
            lemma_parse_flags_consumes(parser, command);
        }
        Step { command: flags.command, ..parse_next_cmd_spec(flags.parser, flags.command) }
    } else {
        Step {
            parser: flags.parser,
            command: flags.command,
            result: match flags.command {
                Some(active) => Ok(active),
                None => Err(ParseErrorView::NoCommands),
            },
        }
    }
}

/// Reading the command: the next token is consumed and selects the
/// command; where that command takes a positional value the token after it
/// is consumed as the value; then the level of that command is parsed.
pub open spec fn parse_next_cmd_spec(parser: ParserView, command: Option<CommandView>) -> Step<
    CommandView,
>
    decreases parser.rest.len(), 0int,
{
    if parser.rest.len() == 0 {
        Step { parser, command, result: Err(ParseErrorView::ExpectedCommand) }
    } else {
        let token = parser.rest[0];
        let after = parser.advance();
        match select(parser, command, token) {
            None => Step {
                parser: after,
                command,
                result: Err(ParseErrorView::InvalidCommand(token)),
            },
            Some(recipe) => if !recipe.positional {
                Step { command, ..parse_next_spec(after, Some(recipe)) }
            } else if after.rest.len() > 0 {
                Step {
                    command,
                    ..parse_next_spec(
                        after.advance(),
                        Some(CommandView { positional_val: Some(after.rest[0]), ..recipe }),
                    )
                }
            } else {
                Step { parser: after, command, result: Err(ParseErrorView::ExpectedPositional) }
            },
        }
    }
}

/// Parsing: the top level is parsed with no command active.
pub open spec fn parse_spec(parser: ParserView) -> Step<CommandView> {
    parse_next_spec(parser, None)
}

} // verus!
