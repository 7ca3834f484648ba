//! Commands: the one word of a command line that selects what is to be
//! done, with the flags that it accepts.

use crate::flag::{text_of, Flag, FlagView};
use crate::namespace::{Namespace, Table};
use vstd::prelude::*;

verus! {

/// A command as a mathematical value.
#[verifier::ext_equal]
pub struct CommandView {
    pub id: Seq<char>,
    pub positional: bool,
    pub positional_val: Option<Seq<char>>,
    pub flags: Table<FlagView>,
    pub parsed_flags: Table<FlagView>,
}

impl CommandView {
    /// The command of that name that takes no positional value and accepts
    /// no flag, with nothing parsed.
    pub open spec fn named(id: Seq<char>) -> CommandView {
        CommandView {
            id,
            positional: false,
            positional_val: None,
            flags: Table::empty(),
            parsed_flags: Table::empty(),
        }
    }

    /// The command that also accepts `flag`, under the flag's name.
    pub open spec fn with_flag(self, flag: FlagView) -> CommandView {
        CommandView { flags: self.flags.insert(flag.id, flag), ..self }
    }

    /// The command after the flag `flag` was matched under `name`.
    pub open spec fn record(self, name: Seq<char>, flag: FlagView) -> CommandView {
        CommandView { parsed_flags: self.parsed_flags.insert(name, flag), ..self }
    }

    /// The flag registered under `name` is required and has not been matched.
    pub open spec fn lacks(self, name: Seq<char>) -> bool {
        self.flags.map[name].required && !self.parsed_flags.contains(name)
    }

    /// The names of the required flags that have not been matched, in the
    /// order in which the flags were registered.
    pub open spec fn missing_flags(self) -> Seq<Seq<char>> {
        self.flags.order.filter(|name: Seq<char>| self.lacks(name))
    }
}

/// A command of the command line: as a recipe it says whether the command
/// takes a positional value and which flags it accepts, as a parsed command
/// it carries the value and the flags that were found.
#[derive(Debug)]
pub struct Command {
    /// The name of the command.
    pub id: String,
    pub(crate) positional: bool,
    /// The value that followed the command on the command line.
    pub positional_val: Option<String>,
    pub(crate) flags: Namespace<Flag>,
    /// The flags that were matched while this command was active.
    pub parsed_flags: Namespace<Flag>,
}

impl View for Command {
    type V = CommandView;

    open(crate) spec fn view(&self) -> CommandView {
        CommandView {
            id: self.id@,
            positional: self.positional,
            positional_val: text_of(self.positional_val),
            flags: self.flags@,
            parsed_flags: self.parsed_flags@,
        }
    }
}

/// The command that is active, if one is, as a mathematical value.
pub open spec fn active(command: Option<Command>) -> Option<CommandView> {
    match command {
        Some(c) => Some(c@),
        None => None,
    }
}

/// Where the predicate holds of no element, nothing passes the filter.
pub proof fn lemma_filter_none<A>(s: Seq<A>, pred: spec_fn(A) -> bool)
    requires
        forall|i: int| 0 <= i < s.len() ==> !pred(#[trigger] s[i]),
    ensures
        s.filter(pred).len() == 0,
    decreases s.len(),
{
    reveal(Seq::filter);
    if s.len() > 0 {
        assert forall|i: int| 0 <= i < s.drop_last().len() implies !pred(
            #[trigger] s.drop_last()[i],
        ) by {
            assert(s.drop_last()[i] == s[i]);
        }
        lemma_filter_none(s.drop_last(), pred);
    }
}

/// The first element of which the predicate holds is the first to pass the
/// filter.
pub proof fn lemma_filter_first<A>(s: Seq<A>, pred: spec_fn(A) -> bool, at: int)
    requires
        0 <= at < s.len(),
        pred(s[at]),
        forall|i: int| 0 <= i < at ==> !pred(#[trigger] s[i]),
    ensures
        s.filter(pred).len() > 0,
        s.filter(pred)[0] == s[at],
    decreases s.len(),
{
    reveal(Seq::filter);
    if at == s.len() - 1 {
        assert forall|i: int| 0 <= i < s.drop_last().len() implies !pred(
            #[trigger] s.drop_last()[i],
        ) by {
            assert(s.drop_last()[i] == s[i]);
        }
        lemma_filter_none(s.drop_last(), pred);
    } else {
        assert(s.drop_last()[at] == s[at]);
        assert forall|i: int| 0 <= i < at implies !pred(#[trigger] s.drop_last()[i]) by {
            assert(s.drop_last()[i] == s[i]);
        }
        lemma_filter_first(s.drop_last(), pred, at);
    }
}

impl Command {
    /// A command named `id` that takes no positional value and accepts no
    /// flag.
    pub fn new(id: &str) -> (r: Self)
        ensures
            r@ == CommandView::named(id@),
    {
        Command {
            id: id.to_owned(),
            positional: false,
            positional_val: None,
            flags: Namespace::new(),
            parsed_flags: Namespace::new(),
        }
    }

    /// The same command, taking a positional value.
    pub fn positional(self) -> (r: Self)
        ensures
            r@ == (CommandView { positional: true, ..self@ }),
    {
        let mut command = self;
        command.positional = true;
        command
    }

    /// The same command, accepting `flag` under the flag's name. A flag
    /// registered earlier under that name is replaced.
    pub fn flag(self, flag: Flag) -> (r: Self)
        ensures
            r@ == self@.with_flag(flag@),
    {
        let mut command = self;
        let name = flag.id.clone();
        command.flags.insert(name, flag);
        command
    }

    /// The name of the first required flag, in the order of registration,
    /// that has not been matched.
    pub fn missing_required(&self) -> (r: Option<String>)
        ensures
            match r {
                Some(name) => self@.missing_flags().len() > 0 && name@ == self@.missing_flags()[0],
                None => self@.missing_flags().len() == 0,
            },
    {
        let ghost lacks = |name: Seq<char>| self@.lacks(name);
        let mut i: usize = 0;
        while i < self.flags.len()
            invariant
                i <= self@.flags.order.len(),
                lacks == |name: Seq<char>| self@.lacks(name),
                forall|j: int| 0 <= j < i ==> !lacks(#[trigger] self@.flags.order[j]),
            decreases self@.flags.order.len() - i,
        {
            match self.flags.entry(i) {
                Some((name, flag)) => {
                    if flag.required && !self.parsed_flags.contains_key(name.as_str()) {
                        proof {
                            lemma_filter_first(self@.flags.order, lacks, i as int);
                        }
                        return Some(name.clone());
                    }
                },
                None => {},
            }
            i += 1;
        }
        proof {
            lemma_filter_none(self@.flags.order, lacks);
        }
        None
    }
}

impl Clone for Command {
    fn clone(&self) -> (r: Self)
        ensures
            r@ == self@,
    {
        let r = Command {
            id: self.id.clone(),
            positional: self.positional,
            positional_val: match &self.positional_val {
                Some(s) => Some(s.clone()),
                None => None,
            },
            flags: self.flags.clone(),
            parsed_flags: self.parsed_flags.clone(),
        };
        assert(r.flags@ =~= self.flags@);
        assert(r.parsed_flags@ =~= self.parsed_flags@);
        r
    }
}

} // verus!
