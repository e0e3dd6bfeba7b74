//! What the library reports when it refuses an input.

use crate::coordinate::{Coordinate, Path};
use vstd::prelude::*;

verus! {

/// The reasons for which an operation is refused.
#[derive(Debug)]
pub enum Error {
    /// The text is no address; the segment that broke the grammar is given.
    MalformedAddress(String),
    /// Nothing is stored where the operation needed an entry.
    MissingCoordinate(Coordinate),
    /// A document does not satisfy the invariants of a store.
    InvariantViolation,
    /// A row or column index is not a positive number that fits.
    InvalidIndex,
    /// The files of a driver do not hold exactly one main file.
    MalformedDriver,
}

/// The model of a reason for refusal.
pub enum ErrorView {
    MalformedAddress(Seq<char>),
    MissingCoordinate(Path),
    InvariantViolation,
    InvalidIndex,
    MalformedDriver,
}

impl View for Error {
    type V = ErrorView;

    open spec fn view(&self) -> ErrorView {
        match self {
            Error::MalformedAddress(segment) => ErrorView::MalformedAddress(segment@),
            Error::MissingCoordinate(c) => ErrorView::MissingCoordinate(c@),
            Error::InvariantViolation => ErrorView::InvariantViolation,
            Error::InvalidIndex => ErrorView::InvalidIndex,
            Error::MalformedDriver => ErrorView::MalformedDriver,
        }
    }
}

} // verus!
