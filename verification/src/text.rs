//! Text comparison.

use vstd::prelude::*;

verus! {

/// Whether two texts hold the same characters.
pub fn str_equal(left: &str, right: &str) -> (same: bool)
    ensures
        same == (left@ == right@),
{
    left.to_owned() == right.to_owned()
}

} // verus!
