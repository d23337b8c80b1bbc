//! The lowercase mapping used by case-insensitive matching, named so that
//! contracts can speak of it exactly.

use vstd::prelude::*;

verus! {

/// What lowercasing a sequence of characters yields.
pub uninterp spec fn lower_of(s: Seq<char>) -> Seq<char>;

/// Relies on `str::to_lowercase`: the lowercase equivalent of the string, a
/// function of its characters alone; an empty string stays empty.
#[verifier::external_body]
pub(crate) fn lowercase(s: &str) -> (r: String)
    ensures
        r@ == lower_of(s@),
        s@.len() == 0 ==> r@.len() == 0,
{
    s.to_lowercase()
}

} // verus!
