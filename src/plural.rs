use vstd::prelude::*;

verus! {

/// Picks `singular` when `amount` is exactly one, `plural` otherwise.
pub fn pluralize<'a>(amount: i32, singular: &'a str, plural: &'a str) -> (r: &'a str)
    ensures
        r == (if amount == 1 { singular } else { plural }),
{
    if amount == 1 {
        singular
    } else {
        plural
    }
}

} // verus!
