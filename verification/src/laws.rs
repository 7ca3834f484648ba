//! What holds of parsing whatever the tokens and whatever was registered.

use crate::command::{lemma_filter_first, CommandView};
use crate::error::ParseErrorView;
use crate::flag::FlagView;
use crate::grammar::{
    lemma_parse_flags_consumes, matched_flag, parse_flags_spec, parse_next_cmd_spec,
    parse_next_flag_spec, parse_next_spec, parse_spec, resolve, select, ParserView, Step,
};
use crate::namespace::Table;
use crate::token::{has_marker, is_flag_token, marker, normalize};
use vstd::prelude::*;

verus! {

/// Normalizing a flag name is idempotent: the normal form carries the
/// marker prefix, so it is never empty, and normalizing it again changes
/// nothing. A name without the prefix and the same name with the prefix in
/// front have one normal form.
pub proof fn lemma_normalize_idempotent(name: Seq<char>)
    ensures
        has_marker(normalize(name)),
        normalize(name).len() >= 2,
        normalize(normalize(name)) == normalize(name),
        !has_marker(name) ==> normalize(marker() + name) == normalize(name),
{
}

/// A flag may be registered with or without the marker prefix: both ways
/// give one flag. A command accepts the same flags with either, and a
/// parser the same global flags, so parsing goes the same way: the same
/// lookups, and the same name in every failure.
pub proof fn lemma_flag_forms_agree(name: Seq<char>, command: CommandView, parser: ParserView)
    requires
        !has_marker(name),
    ensures
        FlagView::named(normalize(marker() + name)) == FlagView::named(normalize(name)),
        FlagView::named(normalize(name)).id == marker() + name,
        command.with_flag(FlagView::named(normalize(marker() + name))) == command.with_flag(
            FlagView::named(normalize(name)),
        ),
        parser.with_global_flag(FlagView::named(normalize(marker() + name)))
            == parser.with_global_flag(FlagView::named(normalize(name))),
        parse_spec(
            parser.with_command(
                command.with_flag(FlagView::named(normalize(marker() + name))),
            ),
        ) == parse_spec(
            parser.with_command(command.with_flag(FlagView::named(normalize(name)))),
        ),
        parse_spec(parser.with_global_flag(FlagView::named(normalize(marker() + name))))
            == parse_spec(parser.with_global_flag(FlagView::named(normalize(name)))),
{
}

/// A leading token that is no flag token and that no command is registered
/// under is rejected as an invalid command, whatever follows it. Only that
/// token is consumed.
pub proof fn lemma_unknown_command(parser: ParserView)
    requires
        parser.rest.len() > 0,
        !is_flag_token(parser.rest[0]),
        !parser.commands.contains(parser.rest[0]),
    ensures
        parse_spec(parser).result == Err::<CommandView, ParseErrorView>(
            ParseErrorView::InvalidCommand(parser.rest[0]),
        ),
        parse_spec(parser).parser == parser.advance(),
{
}

/// A global flag wins over a flag of the active command with the same
/// name: the token resolves to the global recipe, and what reading the flag
/// does is decided by that recipe alone. Whether a value is consumed is as
/// the global recipe says, and the step is the same whatever flags the
/// active command accepts.
pub proof fn lemma_global_flag_wins(
    parser: ParserView,
    command: CommandView,
    flags: Table<FlagView>,
)
    requires
        parser.rest.len() > 0,
        parser.global_flags.contains(parser.rest[0]),
    ensures
        resolve(parser, Some(command), parser.rest[0]) == Some(
            parser.global_flags.map[parser.rest[0]],
        ),
        resolve(parser, None, parser.rest[0]) == Some(parser.global_flags.map[parser.rest[0]]),
        ({
            let token = parser.rest[0];
            let global = parser.global_flags.map[token];
            let step = parse_next_flag_spec(parser, Some(command));
            if !global.positional {
                step == (Step::<()> {
                    parser: parser.advance(),
                    command: Some(command.record(token, matched_flag(token, None))),
                    result: Ok(()),
                })
            } else if parser.rest.len() > 1 {
                step == (Step::<()> {
                    parser: parser.advance().advance(),
                    command: Some(
                        command.record(token, matched_flag(token, Some(parser.rest[1]))),
                    ),
                    result: Ok(()),
                })
            } else {
                step == (Step::<()> {
                    parser: parser.advance(),
                    command: Some(command),
                    result: Err(ParseErrorView::MissingPositional),
                })
            }
        }),
        ({
            let step = parse_next_flag_spec(parser, Some(command));
            let other = parse_next_flag_spec(parser, Some(CommandView { flags, ..command }));
            &&& other.parser == step.parser
            &&& other.result == step.result
            &&& other.command == Some(CommandView { flags, ..step.command->0 })
        }),
{
}

/// Reading flags changes neither what is registered with the parser nor the
/// active command's own recipe, and it neither selects a command nor drops
/// the active one.
pub proof fn lemma_parse_flags_keeps_recipes(parser: ParserView, command: Option<CommandView>)
    ensures
        parse_flags_spec(parser, command).parser.commands == parser.commands,
        parse_flags_spec(parser, command).parser.global_flags == parser.global_flags,
        parse_flags_spec(parser, command).command is Some <==> command is Some,
        command is Some ==> parse_flags_spec(parser, command).command->0 == (CommandView {
            parsed_flags: parse_flags_spec(parser, command).command->0.parsed_flags,
            ..command->0
        }),
    decreases parser.rest.len(),
{
    if parser.rest.len() > 0 && is_flag_token(parser.rest[0]) {
        let step = parse_next_flag_spec(parser, command);
        if step.result is Ok {
            lemma_parse_flags_keeps_recipes(step.parser, step.command);
        }
    }
}

/// Reading one flag consumes the flag token, and the token after it where
/// the flag takes a value.
pub proof fn lemma_parse_next_flag_consumes(parser: ParserView, command: Option<CommandView>)
    requires
        parser.rest.len() > 0,
    ensures
        ({
            let left = parse_next_flag_spec(parser, command).parser.rest;
            left == parser.rest.skip(1) || (parser.rest.len() > 1 && left == parser.rest.skip(2))
        }),
{
    if parser.rest.len() > 1 {
        assert(parser.rest.skip(1).skip(1) =~= parser.rest.skip(2));
    }
}

/// Reading flags leaves a suffix of the tokens.
pub proof fn lemma_parse_flags_suffix(parser: ParserView, command: Option<CommandView>)
    ensures
        parse_flags_spec(parser, command).parser.rest.len() <= parser.rest.len(),
        parse_flags_spec(parser, command).parser.rest == parser.rest.skip(
            parser.rest.len() - parse_flags_spec(parser, command).parser.rest.len(),
        ),
    decreases parser.rest.len(),
{
    let left = parse_flags_spec(parser, command).parser.rest;
    if parser.rest.len() > 0 && is_flag_token(parser.rest[0]) {
        let step = parse_next_flag_spec(parser, command);
        let mid = step.parser.rest;
        let taken = parser.rest.len() - mid.len();
        lemma_parse_next_flag_consumes(parser, command);
        assert(mid == parser.rest.skip(taken));
        if step.result is Ok {
            lemma_parse_flags_suffix(step.parser, step.command);
            let more = mid.len() - left.len();
            assert(left == mid.skip(more));
            assert(parser.rest.skip(taken).skip(more) =~= parser.rest.skip(taken + more));
        }
    } else {
        assert(left =~= parser.rest.skip(0));
    }
}

/// Reading flags records a flag only under a name that is registered: with
/// the global flags, or with the active command. What is recorded with the
/// parser, before a command is selected, is a global flag.
pub proof fn lemma_parse_flags_records_registered(
    parser: ParserView,
    command: Option<CommandView>,
    name: Seq<char>,
)
    ensures
        ({
            let flags = parse_flags_spec(parser, command);
            &&& flags.parser.parsed_flags.contains(name) ==> parser.parsed_flags.contains(name)
                || parser.global_flags.contains(name)
            &&& command is Some && flags.command->0.parsed_flags.contains(name)
                ==> command->0.parsed_flags.contains(name) || parser.global_flags.contains(name)
                || command->0.flags.contains(name)
        }),
    decreases parser.rest.len(),
{
    if parser.rest.len() > 0 && is_flag_token(parser.rest[0]) {
        let step = parse_next_flag_spec(parser, command);
        if step.result is Ok {
            lemma_parse_flags_records_registered(step.parser, step.command, name);
        }
    }
}

/// Reading flags records a flag only under a token that it consumed: a
/// name that is not among the tokens, and was not matched before, is not
/// matched afterwards either.
pub proof fn lemma_parse_flags_records_tokens(
    parser: ParserView,
    command: CommandView,
    name: Seq<char>,
)
    requires
        !command.parsed_flags.contains(name),
        !parser.rest.contains(name),
    ensures
        parse_flags_spec(parser, Some(command)).command is Some,
        !parse_flags_spec(parser, Some(command)).command->0.parsed_flags.contains(name),
        !parse_flags_spec(parser, Some(command)).parser.rest.contains(name),
    decreases parser.rest.len(),
{
    if parser.rest.len() > 0 && is_flag_token(parser.rest[0]) {
        let step = parse_next_flag_spec(parser, Some(command));
        lemma_parse_next_flag_consumes(parser, Some(command));
        assert(parser.rest.contains(parser.rest[0]));
        assert forall|i: int| 0 <= i < step.parser.rest.len() implies step.parser.rest[i]
            != name by {
            let skipped = parser.rest.len() - step.parser.rest.len();
            assert(step.parser.rest[i] == parser.rest[i + skipped]);
            assert(parser.rest.contains(parser.rest[i + skipped]));
        }
        if step.result is Ok {
            lemma_parse_flags_records_tokens(step.parser, step.command->0, name);
        }
    }
}

/// A command is not parsed without a flag that it requires. Where the
/// command `command` is active, requires the flag registered under `name`,
/// and that name is neither among the tokens that are left nor matched
/// already, parsing fails. Unless reading the flags in front fails first,
/// the failure is a missing required flag: it names the first required
/// flag, in the order of registration, that was not matched, which is
/// `name` itself where every flag registered before it is matched or not
/// required.
pub proof fn lemma_required_flag_enforced(
    parser: ParserView,
    command: CommandView,
    name: Seq<char>,
    at: int,
)
    requires
        0 <= at < command.flags.order.len(),
        command.flags.order[at] == name,
        command.flags.map[name].required,
        !command.parsed_flags.contains(name),
        !parser.rest.contains(name),
    ensures
        parse_next_spec(parser, Some(command)).result is Err,
        ({
            let flags = parse_flags_spec(parser, Some(command));
            let result = parse_next_spec(parser, Some(command)).result;
            flags.result is Ok ==> {
                &&& flags.command is Some
                &&& flags.command->0.missing_flags().contains(name)
                &&& result == Err::<CommandView, ParseErrorView>(
                    ParseErrorView::MissingRequiredFlag(flags.command->0.missing_flags()[0]),
                )
                &&& (forall|i: int|
                    0 <= i < at ==> !flags.command->0.lacks(
                        #[trigger] command.flags.order[i],
                    )) ==> result == Err::<CommandView, ParseErrorView>(
                    ParseErrorView::MissingRequiredFlag(name),
                )
            }
        }),
{
    let flags = parse_flags_spec(parser, Some(command));
    lemma_parse_flags_records_tokens(parser, command, name);
    lemma_parse_flags_keeps_recipes(parser, Some(command));
    let reached = flags.command->0;
    let lacks = |n: Seq<char>| reached.lacks(n);
    assert(reached.flags == command.flags);
    assert(lacks(reached.flags.order[at]));
    reached.flags.order.lemma_filter_contains(lacks, at);
    if forall|i: int| 0 <= i < at ==> !reached.lacks(#[trigger] command.flags.order[i]) {
        lemma_filter_first(reached.flags.order, lacks, at);
    }
}

/// The same of a whole command line: where the first token that is not
/// read as a flag selects a command that requires the flag registered under
/// `name`, and that name is not among the tokens, parsing fails. If the
/// command finds its positional value and its flags are read without
/// failure, the failure is a missing required flag, and it names `name`
/// where every flag registered before it is matched or not required.
pub proof fn lemma_parse_required_flag(parser: ParserView, name: Seq<char>, at: int)
    requires
        parse_flags_spec(parser, None).result is Ok,
        parse_flags_spec(parser, None).parser.rest.len() > 0,
        parser.commands.contains(parse_flags_spec(parser, None).parser.rest[0]),
        ({
            let recipe = parser.commands.map[parse_flags_spec(parser, None).parser.rest[0]];
            &&& 0 <= at < recipe.flags.order.len()
            &&& recipe.flags.order[at] == name
            &&& recipe.flags.map[name].required
            &&& !recipe.parsed_flags.contains(name)
        }),
        !parser.rest.contains(name),
    ensures
        parse_spec(parser).result is Err,
        ({
            let top = parse_flags_spec(parser, None).parser;
            let recipe = parser.commands.map[top.rest[0]];
            let level = if recipe.positional {
                parse_flags_spec(
                    top.advance().advance(),
                    Some(CommandView { positional_val: Some(top.rest[1]), ..recipe }),
                )
            } else {
                parse_flags_spec(top.advance(), Some(recipe))
            };
            if recipe.positional && top.rest.len() == 1 {
                parse_spec(parser).result == Err::<CommandView, ParseErrorView>(
                    ParseErrorView::ExpectedPositional,
                )
            } else if level.result is Err {
                parse_spec(parser).result == Err::<CommandView, ParseErrorView>(
                    level.result->Err_0,
                )
            } else {
                &&& level.command is Some
                &&& level.command->0.missing_flags().contains(name)
                &&& parse_spec(parser).result == Err::<CommandView, ParseErrorView>(
                    ParseErrorView::MissingRequiredFlag(level.command->0.missing_flags()[0]),
                )
                &&& (forall|i: int|
                    0 <= i < at ==> !level.command->0.lacks(#[trigger] recipe.flags.order[i]))
                    ==> parse_spec(parser).result == Err::<CommandView, ParseErrorView>(
                    ParseErrorView::MissingRequiredFlag(name),
                )
            }
        }),
{
    let flags = parse_flags_spec(parser, None);
    let top = flags.parser;
    lemma_parse_flags_keeps_recipes(parser, None);
    lemma_parse_flags_suffix(parser, None);
    let recipe = parser.commands.map[top.rest[0]];
    assert(select(top, None, top.rest[0]) == Some(recipe));
    assert forall|i: int| 0 <= i < top.rest.len() implies top.rest[i] != name by {
        let skipped = parser.rest.len() - top.rest.len();
        assert(top.rest[i] == parser.rest[i + skipped]);
        assert(parser.rest.contains(parser.rest[i + skipped]));
    }
    if !recipe.positional {
        let after = top.advance();
        assert forall|i: int| 0 <= i < after.rest.len() implies after.rest[i] != name by {
            assert(after.rest[i] == top.rest[i + 1]);
        }
        lemma_required_flag_enforced(after, recipe, name, at);
    } else if top.rest.len() > 1 {
        let after = top.advance().advance();
        let chosen = CommandView { positional_val: Some(top.rest[1]), ..recipe };
        assert forall|i: int| 0 <= i < after.rest.len() implies after.rest[i] != name by {
            assert(after.rest[i] == top.rest[i + 2]);
        }
        lemma_required_flag_enforced(after, chosen, name, at);
    }
}

/// What holds of the level of a command however it is parsed: see
/// [`lemma_parse_success`].
proof fn lemma_level(parser: ParserView, command: Option<CommandView>)
    ensures
        ({
            let level = parse_next_spec(parser, command);
            &&& level.parser.commands == parser.commands
            &&& level.parser.global_flags == parser.global_flags
            &&& level.result is Ok ==> {
                &&& level.parser.rest.len() == 0
                &&& level.result->Ok_0.missing_flags().len() == 0
                &&& command is Some ==> level.result->Ok_0 == (CommandView {
                    positional_val: level.result->Ok_0.positional_val,
                    parsed_flags: level.result->Ok_0.parsed_flags,
                    ..command->0
                })
                &&& command is Some ==> forall|name: Seq<char>| #[trigger]
                    level.result->Ok_0.parsed_flags.contains(name)
                        ==> command->0.parsed_flags.contains(name)
                        || parser.global_flags.contains(name) || command->0.flags.contains(
                        name,
                    )
            }
        }),
    decreases parser.rest.len(), 1int,
{
    let flags = parse_flags_spec(parser, command);
    lemma_parse_flags_keeps_recipes(parser, command);
    lemma_parse_flags_consumes(parser, command);
    if flags.result is Ok && flags.parser.rest.len() > 0 {
        lemma_selection(flags.parser, flags.command);
    }
    let level = parse_next_spec(parser, command);
    if level.result is Ok && command is Some {
        assert forall|name: Seq<char>| #[trigger]
            level.result->Ok_0.parsed_flags.contains(name) implies command->0.parsed_flags.contains(
            name,
        ) || parser.global_flags.contains(name) || command->0.flags.contains(name) by {
            lemma_parse_flags_records_registered(parser, command, name);
        }
    }
}

/// What holds of reading a command however it goes on: see
/// [`lemma_parse_success`].
proof fn lemma_selection(parser: ParserView, command: Option<CommandView>)
    ensures
        ({
            let read = parse_next_cmd_spec(parser, command);
            &&& read.parser.commands == parser.commands
            &&& read.parser.global_flags == parser.global_flags
            &&& read.result is Ok ==> {
                let recipe = select(parser, command, parser.rest[0]);
                &&& parser.rest.len() > 0
                &&& recipe is Some
                &&& recipe->0.positional ==> parser.rest.len() > 1
                &&& read.parser.rest.len() == 0
                &&& read.result->Ok_0.missing_flags().len() == 0
                &&& read.result->Ok_0 == (CommandView {
                    positional_val: read.result->Ok_0.positional_val,
                    parsed_flags: read.result->Ok_0.parsed_flags,
                    ..recipe->0
                })
                &&& forall|name: Seq<char>| #[trigger]
                    read.result->Ok_0.parsed_flags.contains(name)
                        ==> recipe->0.parsed_flags.contains(name)
                        || parser.global_flags.contains(name) || recipe->0.flags.contains(name)
            }
        }),
    decreases parser.rest.len(), 0int,
{
    if parser.rest.len() > 0 {
        let token = parser.rest[0];
        let after = parser.advance();
        match select(parser, command, token) {
            None => {},
            Some(recipe) => {
                if !recipe.positional {
                    lemma_level(after, Some(recipe));
                } else if after.rest.len() > 0 {
                    lemma_level(
                        after.advance(),
                        Some(CommandView { positional_val: Some(after.rest[0]), ..recipe }),
                    );
                }
            },
        }
    }
}

/// Parsing never changes what is registered with the parser.
pub proof fn lemma_parse_keeps_recipes(parser: ParserView)
    ensures
        parse_spec(parser).parser.commands == parser.commands,
        parse_spec(parser).parser.global_flags == parser.global_flags,
{
    lemma_level(parser, None);
}

/// What a successful parse returns. The flags in front were read without
/// failure, and the token after them names a registered command. The
/// result is that command: it has the name, the flags and the setting of
/// the command registered under the token. No token is left, no flag that
/// the command requires is unmatched, and every flag that was matched is
/// registered, with the global flags or with the command.
pub proof fn lemma_parse_success(parser: ParserView)
    requires
        parse_spec(parser).result is Ok,
    ensures
        ({
            let top = parse_flags_spec(parser, None);
            let result = parse_spec(parser).result->Ok_0;
            &&& top.result is Ok
            &&& top.parser.rest.len() > 0
            &&& parser.commands.contains(top.parser.rest[0])
            &&& result.id == parser.commands.map[top.parser.rest[0]].id
            &&& result.positional == parser.commands.map[top.parser.rest[0]].positional
            &&& result.flags == parser.commands.map[top.parser.rest[0]].flags
            &&& result.positional ==> top.parser.rest.len() > 1
            &&& parse_spec(parser).parser.rest.len() == 0
            &&& result.missing_flags().len() == 0
            &&& forall|i: int|
                0 <= i < result.flags.order.len() && result.flags.map[result.flags.order[i]].required
                    ==> result.parsed_flags.contains(#[trigger] result.flags.order[i])
            &&& forall|name: Seq<char>| #[trigger]
                result.parsed_flags.contains(name)
                    ==> parser.commands.map[top.parser.rest[0]].parsed_flags.contains(name)
                    || parser.global_flags.contains(name) || result.flags.contains(name)
        }),
{
    let top = parse_flags_spec(parser, None);
    lemma_parse_flags_keeps_recipes(parser, None);
    lemma_parse_flags_consumes(parser, None);
    lemma_selection(top.parser, top.command);
    let result = parse_spec(parser).result->Ok_0;
    let lacks = |n: Seq<char>| result.lacks(n);
    assert forall|i: int|
        0 <= i < result.flags.order.len()
            && result.flags.map[result.flags.order[i]].required implies result.parsed_flags.contains(
        #[trigger] result.flags.order[i],
    ) by {
        if lacks(result.flags.order[i]) {
            result.flags.order.lemma_filter_contains(lacks, i);
        }
    }
}

} // verus!
