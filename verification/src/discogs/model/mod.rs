use vstd::prelude::*;

pub mod refined;
pub mod serialized;

verus! {

/// What can be wrong with what the catalog sent.
#[derive(Clone, Copy, Debug, PartialEq, Eq, Structural)]
pub enum ModelError {
    /// A duration is not of the form `hours:minutes:seconds`, or it is too
    /// long to count.
    InvalidDuration,
    /// A position is neither a number nor a disc and a number with a hyphen
    /// between them.
    InvalidPosition,
    /// A release holds more tracks than can be numbered.
    TooManyTracks,
}

} // verus!
