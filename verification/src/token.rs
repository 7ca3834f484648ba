//! Tokens as sequences of characters: what counts as a flag token and how a
//! flag name is brought to its normal form.

use vstd::prelude::*;
use vstd::string::*;

verus! {

/// The two-character prefix that every flag name carries.
pub open spec fn marker() -> Seq<char> {
    seq!['-', '-']
}

/// A token is read as a flag when it is non-empty and begins with `-`.
pub open spec fn is_flag_token(t: Seq<char>) -> bool {
    t.len() > 0 && t[0] == '-'
}

/// The name begins with the marker prefix `--`.
pub open spec fn has_marker(t: Seq<char>) -> bool {
    t.len() >= 2 && t[0] == '-' && t[1] == '-'
}

/// The normal form of a flag name: the name itself when it already carries
/// the marker prefix, the prefix followed by the name otherwise.
pub open spec fn normalize(t: Seq<char>) -> Seq<char> {
    if has_marker(t) {
        t
    } else {
        marker() + t
    }
}

/// Whether `s` is read as a flag token.
pub fn starts_with_dash(s: &str) -> (b: bool)
    ensures
        b == is_flag_token(s@),
{
    !s.is_empty() && s.get_char(0) == '-'
}

/// Whether `s` begins with the marker prefix.
pub fn starts_with_marker(s: &str) -> (b: bool)
    ensures
        b == has_marker(s@),
{
    s.unicode_len() >= 2 && s.get_char(0) == '-' && s.get_char(1) == '-'
}

/// The normal form of the flag name `s`, as an owned string.
pub fn normalized(s: &str) -> (r: String)
    ensures
        r@ == normalize(s@),
{
    if starts_with_marker(s) {
        s.to_owned()
    } else {
        proof {
            reveal_strlit("--");
        }
        let r = String::from_str("--").concat(s);
        assert(r@ =~= marker() + s@);
        r
    }
}

} // verus!
