//! Flags: what a command line may carry besides the command itself.

use crate::token::{normalize, normalized};
use vstd::prelude::*;

verus! {

/// A flag as a mathematical value.
#[verifier::ext_equal]
pub struct FlagView {
    pub id: Seq<char>,
    pub positional: bool,
    pub positional_val: Option<Seq<char>>,
    pub required: bool,
}

impl FlagView {
    /// The flag of that name that takes no positional value, carries none
    /// and is not required.
    pub open spec fn named(id: Seq<char>) -> FlagView {
        FlagView { id, positional: false, positional_val: None, required: false }
    }
}

/// The characters of an optional string.
pub open spec fn text_of(value: Option<String>) -> Option<Seq<char>> {
    match value {
        Some(s) => Some(s@),
        None => None,
    }
}

/// A flag of the command line: as a recipe it says whether the flag takes a
/// positional value and whether it is required, as a parsed flag it carries
/// the value that was found.
#[derive(Debug)]
pub struct Flag {
    /// The name, in normal form when the flag was made by [`Flag::new`].
    pub id: String,
    pub(crate) positional: bool,
    /// The value that followed the flag on the command line.
    pub positional_val: Option<String>,
    pub(crate) required: bool,
}

impl View for Flag {
    type V = FlagView;

    open(crate) spec fn view(&self) -> FlagView {
        FlagView {
            id: self.id@,
            positional: self.positional,
            positional_val: text_of(self.positional_val),
            required: self.required,
        }
    }
}

impl Flag {
    /// A flag named `id` in normal form, which takes no positional value and
    /// is not required.
    pub fn new(id: &str) -> (r: Self)
        ensures
            r@ == FlagView::named(normalize(id@)),
    {
        Flag { id: normalized(id), positional: false, positional_val: None, required: false }
    }

    /// The same flag, taking a positional value.
    pub fn positional(self) -> (r: Self)
        ensures
            r@ == (FlagView { positional: true, ..self@ }),
    {
        let mut flag = self;
        flag.positional = true;
        flag
    }

    /// The same flag, required.
    pub fn required(self) -> (r: Self)
        ensures
            r@ == (FlagView { required: true, ..self@ }),
    {
        let mut flag = self;
        flag.required = true;
        flag
    }
}

impl Clone for Flag {
    fn clone(&self) -> (r: Self)
        ensures
            r@ == self@,
    {
        Flag {
            id: self.id.clone(),
            positional: self.positional,
            positional_val: match &self.positional_val {
                Some(s) => Some(s.clone()),
                None => None,
            },
            required: self.required,
        }
    }
}

} // verus!
