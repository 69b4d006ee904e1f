//! Why a split could not be made.
use vstd::prelude::*;

verus! {

/// The failures of the splitting engine.
#[derive(Debug, Clone, Copy, PartialEq, Eq, Structural)]
pub enum SplitError {
    /// The nesting path names no item tag.
    InvalidNestingSpec,
    /// The tokenizer could not read the source at this byte offset.
    MalformedSource(usize),
}

} // verus!
