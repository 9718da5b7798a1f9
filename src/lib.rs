//! Two small numeric procedures with verified cores: searching a digit
//! stream taken from text for a pattern, and the ratio of the farthest to the
//! nearest pair among points in n-dimensional space.
use vstd::prelude::*;

pub mod digits;
pub mod distance;

verus! {

} // verus!
