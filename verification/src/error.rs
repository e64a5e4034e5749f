//! Why a population failed.

use crate::offset::{Offset, PositionError};
use vstd::prelude::*;

verus! {

/// The failure that ended a population. `E` is the reader's own error.
#[derive(Debug, PartialEq, Eq)]
pub enum PopulateError<E> {
    /// A candidate offset does not resolve to a position inside the buffer.
    Position(PositionError),
    /// The reader could not decode a definition at `offset`.
    Decode {
        /// The offset the reader was positioned at.
        offset: Offset,
        /// What the reader reported.
        cause: E,
    },
}

impl<E> PopulateError<E> {
    /// The offset at which the population stopped.
    pub open spec fn at(self) -> Offset {
        match self {
            PopulateError::Position(e) => e.offset,
            PopulateError::Decode { offset, .. } => offset,
        }
    }

    /// The offset at which the population stopped.
    pub fn offset(&self) -> (offset: Offset)
        ensures
            offset == self.at(),
    {
        match self {
            PopulateError::Position(e) => e.offset,
            PopulateError::Decode { offset, .. } => *offset,
        }
    }
}

} // verus!
