//! What can go wrong when a drill is set up.

use vstd::prelude::*;

verus! {

/// Why a drill point or a session could not be made.
#[derive(Debug, Clone, Copy, PartialEq, Eq, Structural)]
pub enum DrillError {
    /// There was no card or phrase to practise.
    EmptyPool,
    /// A word has a part with more than one opening bracket.
    MalformedContent,
}

} // verus!
