//! The parser: commands and global flags are registered with it, and it
//! turns its tokens into the command that they select.

use crate::command::{active, Command};
use crate::error::{outcome, ParseError};
use crate::flag::Flag;
use crate::grammar::{
    lemma_parse_flags_consumes, parse_flag_spec, parse_flags_spec, parse_next_cmd_spec,
    parse_next_flag_spec, parse_next_spec, parse_spec, ParserView, Step,
};
use crate::laws::lemma_parse_keeps_recipes;
use crate::namespace::Namespace;
use crate::token::{is_flag_token, starts_with_dash};
use vstd::prelude::*;

verus! {

/// The characters of each token.
pub open spec fn texts(tokens: Seq<String>) -> Seq<Seq<char>> {
    tokens.map_values(|token: String| token@)
}

/// The step `step` ended with the parser as `parser`, the active command as
/// `command`, and the result `result`.
pub open spec fn reached<T: View>(
    step: Step<T::V>,
    parser: ParserView,
    command: Option<Command>,
    result: Result<T, ParseError>,
) -> bool {
    &&& parser == step.parser
    &&& active(command) == step.command
    &&& outcome(result) == step.result
}

/// Parses command-line tokens against the commands and global flags that
/// were registered.
#[derive(Debug)]
pub struct CliParser {
    pub(crate) commands: Namespace<Command>,
    pub(crate) args: Vec<String>,
    pub(crate) cursor: usize,
    pub(crate) global_flags: Namespace<Flag>,
    /// The flags that were matched before any command was selected.
    pub parsed_flags: Namespace<Flag>,
}

impl View for CliParser {
    type V = ParserView;

    open(crate) spec fn view(&self) -> ParserView {
        ParserView {
            commands: self.commands@,
            global_flags: self.global_flags@,
            rest: if self.cursor <= self.args@.len() {
                texts(self.args@).skip(self.cursor as int)
            } else {
                Seq::empty()
            },
            parsed_flags: self.parsed_flags@,
        }
    }
}

impl CliParser {
    /// A parser over the tokens `args`, with nothing registered.
    pub fn from_args(args: Vec<String>) -> (r: Self)
        ensures
            r@ == ParserView::over(texts(args@)),
    {
        let r = CliParser {
            commands: Namespace::new(),
            args,
            cursor: 0,
            global_flags: Namespace::new(),
            parsed_flags: Namespace::new(),
        };
        assert(r@.rest =~= texts(args@));
        r
    }

    /// The same parser, with `command` registered under the command's name.
    /// A command registered earlier under that name is replaced.
    pub fn command(self, command: Command) -> (r: Self)
        ensures
            r@ == self@.with_command(command@),
    {
        let mut parser = self;
        let name = command.id.clone();
        parser.commands.insert(name, command);
        parser
    }

    /// The same parser, with `flag` registered as a global flag under the
    /// flag's name. A global flag registered earlier under that name is
    /// replaced.
    pub fn global_flag(self, flag: Flag) -> (r: Self)
        ensures
            r@ == self@.with_global_flag(flag@),
    {
        let mut parser = self;
        let name = flag.id.clone();
        parser.global_flags.insert(name, flag);
        parser
    }

    /// Whether a token is left.
    fn has_next(&self) -> (b: bool)
        ensures
            b == (self@.rest.len() > 0),
    {
        self.cursor < self.args.len()
    }

    /// Whether a token is left and the next one is a flag token.
    fn at_flag(&self) -> (b: bool)
        ensures
            b == (self@.rest.len() > 0 && is_flag_token(self@.rest[0])),
    {
        self.cursor < self.args.len() && starts_with_dash(self.args[self.cursor].as_str())
    }

    /// Consumes the next token, if one is left.
    fn next_token(&mut self) -> (r: Option<String>)
        ensures
            match r {
                Some(token) => old(self)@.rest.len() > 0 && token@ == old(self)@.rest[0]
                    && final(self)@ == old(self)@.advance(),
                None => old(self)@.rest.len() == 0 && final(self)@ == old(self)@,
            },
    {
        if self.cursor < self.args.len() {
            let token = self.args[self.cursor].clone();
            self.cursor = self.cursor + 1;
            assert(self@.rest =~= old(self)@.rest.skip(1));
            Some(token)
        } else {
            None
        }
    }

    /// Parses the tokens into the command that they select. What is
    /// registered with the parser stays as it is.
    pub fn parse(&mut self) -> (r: Result<Command, ParseError>)
        ensures
            final(self)@ == parse_spec(old(self)@).parser,
            outcome(r) == parse_spec(old(self)@).result,
            final(self)@.commands == old(self)@.commands,
            final(self)@.global_flags == old(self)@.global_flags,
    {
        proof {
            lemma_parse_keeps_recipes(self@);
        }
        let mut command: Option<Command> = None;
        self.parse_next(&mut command)
    }

    /// Parses a level: top level where `command` is `None`, else the level
    /// of the command that is active.
    pub fn parse_next(&mut self, command: &mut Option<Command>) -> (r: Result<
        Command,
        ParseError,
    >)
        ensures
            reached(
                parse_next_spec(old(self)@, active(*old(command))),
                final(self)@,
                *final(command),
                r,
            ),
        decreases old(self)@.rest.len(), 1int,
    {
        let ghost start = self@;
        let ghost before = active(*command);
        match self.parse_flags(command) {
            Err(e) => {
                return Err(e);
            },
            Ok(()) => {},
        }
        match command {
            Some(c) => match c.missing_required() {
                Some(name) => {
                    return Err(ParseError::MissingRequiredFlag(name));
                },
                None => {},
            },
            None => {},
        }
        if self.has_next() {
            proof {
                lemma_parse_flags_consumes(start, before);
            }
            self.parse_next_cmd(command)
        } else {
            match command {
                Some(c) => Ok(c.clone()),
                None => Err(ParseError::NoCommands),
            }
        }
    }

    /// Reads the flags that stand in front, one after the other.
    pub fn parse_flags(&mut self, command: &mut Option<Command>) -> (r: Result<(), ParseError>)
        ensures
            reached(
                parse_flags_spec(old(self)@, active(*old(command))),
                final(self)@,
                *final(command),
                r,
            ),
    {
        let ghost goal = parse_flags_spec(self@, active(*command));
        while self.at_flag()
            invariant
                goal == parse_flags_spec(old(self)@, active(*old(command))),
                parse_flags_spec(self@, active(*command)) == goal,
            decreases self@.rest.len(),
        {
            match self.parse_next_flag(command) {
                Err(e) => {
                    return Err(e);
                },
                Ok(()) => {},
            }
        }
        Ok(())
    }

    /// Reads one flag: consumes the next token, resolves it against the
    /// global flags and then against the flags of the active command, and
    /// records the flag that was matched.
    pub fn parse_next_flag(&mut self, command: &mut Option<Command>) -> (r: Result<
        (),
        ParseError,
    >)
        ensures
            reached(
                parse_next_flag_spec(old(self)@, active(*old(command))),
                final(self)@,
                *final(command),
                r,
            ),
    {
        let flag_str = match self.next_token() {
            Some(flag) => flag,
            None => {
                return Err(ParseError::ExpectedFlag);
            },
        };
        let recipe = match self.global_flags.get(flag_str.as_str()) {
            Some(global) => Some(global.clone()),
            None => match command {
                Some(c) => match c.flags.get(flag_str.as_str()) {
                    Some(local) => Some(local.clone()),
                    None => None,
                },
                None => None,
            },
        };
        match recipe {
            None => Err(ParseError::InvalidFlag(flag_str)),
            Some(flag_recipe) => {
                let parsed_flag = match self.parse_flag(flag_str.as_str(), &flag_recipe) {
                    Ok(flag) => flag,
                    Err(e) => {
                        return Err(e);
                    },
                };
                match command {
                    Some(c) => {
                        c.parsed_flags.insert(flag_str, parsed_flag);
                    },
                    None => {
                        self.parsed_flags.insert(flag_str, parsed_flag);
                    },
                }
                Ok(())
            },
        }
    }

    /// Matches the flag token `flag_str`, already consumed, against its
    /// recipe, and consumes the flag's positional value where the recipe
    /// asks for one.
    pub fn parse_flag(&mut self, flag_str: &str, flag_recipe: &Flag) -> (r: Result<
        Flag,
        ParseError,
    >)
        ensures
            final(self)@ == parse_flag_spec(old(self)@, flag_str@, flag_recipe@).0,
            outcome(r) == parse_flag_spec(old(self)@, flag_str@, flag_recipe@).1,
    {
        let mut parsed_flag = Flag::new(flag_str);
        if flag_recipe.positional {
            match self.next_token() {
                Some(value) => {
                    parsed_flag.positional_val = Some(value);
                },
                None => {
                    return Err(ParseError::MissingPositional);
                },
            }
        }
        Ok(parsed_flag)
    }

    /// Reads the command: consumes the next token, which selects the
    /// command unless one is active already, consumes the command's
    /// positional value where it takes one, and parses the command's level.
    pub fn parse_next_cmd(&mut self, command: &mut Option<Command>) -> (r: Result<
        Command,
        ParseError,
    >)
        ensures
            reached(
                parse_next_cmd_spec(old(self)@, active(*old(command))),
                final(self)@,
                *final(command),
                r,
            ),
        decreases old(self)@.rest.len(), 0int,
    {
        let cmd_str = match self.next_token() {
            Some(cmd_str) => cmd_str,
            None => {
                return Err(ParseError::ExpectedCommand);
            },
        };
        let mut cmd_recipe = match command {
            Some(recipe) => recipe.clone(),
            None => match self.commands.get(cmd_str.as_str()) {
                Some(cmd) => cmd.clone(),
                None => {
                    return Err(ParseError::InvalidCommand(cmd_str));
                },
            },
        };
        if cmd_recipe.positional {
            match self.next_token() {
                Some(pos) => {
                    cmd_recipe.positional_val = Some(pos);
                },
                None => {
                    return Err(ParseError::ExpectedPositional);
                },
            }
        }
        let mut selected = Some(cmd_recipe);
        self.parse_next(&mut selected)
    }
}

} // verus!
