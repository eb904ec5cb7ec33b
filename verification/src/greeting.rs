//! The greeting operation: formats a fixed template around one input string.

use vstd::prelude::*;
use vstd::string::*;

verus! {

/// The greeting produced for `name`: a fixed salutation, the name verbatim,
/// and a fixed closing phrase.
pub open spec fn greeting_of(name: Seq<char>) -> Seq<char> {
    "Hello, "@ + name + "! You've been greeted from the backend!"@
}

/// Builds the greeting for `name`. Accepts any string, including the empty
/// one; never fails and has no side effect.
pub fn greet(name: &str) -> (r: String)
    ensures
        r@ == greeting_of(name@),
{
    let mut s = String::from_str("Hello, ");
    s.append(name);
    s.append("! You've been greeted from the backend!");
    proof {
        assert(s@ =~= greeting_of(name@));
    }
    s
}

/// The greeting contains `name` verbatim: it occurs as the contiguous run of
/// characters that starts right after the salutation prefix.
pub proof fn lemma_greeting_contains_name(name: Seq<char>)
    ensures
        7 + name.len() <= greeting_of(name).len(),
        greeting_of(name).subrange(7, 7 + name.len() as int) == name,
{
    reveal_strlit("Hello, ");
    assert(greeting_of(name).subrange(7, 7 + name.len() as int) =~= name);
}

} // verus!
