//! The two outcomes a binary market can settle to.

use vstd::prelude::*;

verus! {

/// One side of a binary market. A share of an outcome pays out when the
/// market resolves to that outcome.
#[derive(Clone, Copy, Debug, PartialEq, Eq, Structural)]
pub enum Outcome {
    No,
    Yes,
}

} // verus!
