//! The error of adaptive Simpson integration.

use vstd::prelude::*;

verus! {

/// No subinterval longer than the minimum length met its share of the
/// tolerance.
#[derive(Debug, Clone, Copy, PartialEq, Eq, Structural)]
pub struct AdaptiveSimpsonError;

impl AdaptiveSimpsonError {
    /// What went wrong, in words.
    pub fn message(&self) -> (r: &'static str)
        ensures
            r@ == "No subinterval of length > min_h was found for which the estimated error was less that the pro-rated tolerance"@,
    {
        let msg = "No subinterval of length > min_h was found for which the estimated error was less that the pro-rated tolerance";
        proof {
            reveal_strlit("No subinterval of length > min_h was found for which the estimated error was less that the pro-rated tolerance");
        }
        msg
    }
}

} // verus!
