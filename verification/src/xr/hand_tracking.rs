//! Which hand a hand-tracking query is about.

use vstd::prelude::*;

verus! {

/// Which hand to query.
#[derive(Debug, Clone, Copy, PartialEq, Eq, Structural)]
pub enum Hand {
    Left,
    Right,
}

} // verus!
