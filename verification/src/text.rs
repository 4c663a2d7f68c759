//! Text handling shared by the draft and the page.

use vstd::prelude::*;

verus! {

/// `text` without its leading and trailing white space.
pub uninterp spec fn trimmed(text: Seq<char>) -> Seq<char>;

/// `str::trim`: the text without leading and trailing white space, as a new
/// string.
#[verifier::external_body]
pub(crate) fn trim(text: &String) -> (r: String)
    ensures
        r@ == trimmed(text@),
{
    text.trim().to_string()
}

} // verus!
