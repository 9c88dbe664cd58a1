//! Why a row could not be taken into the index.

use vstd::prelude::*;

verus! {

/// The ways in which taking a row into the index can fail.
#[derive(Debug, Clone, PartialEq, Eq)]
pub enum IngestError {
    /// A name holds a character outside ASCII, so no slug can stand for it.
    /// The names are handed back as they came.
    InvalidCharacter(Vec<String>),
    /// A count would have grown past `i32::MAX`.
    CountOverflow,
}

/// An [`IngestError`] with its names as character sequences.
pub enum IngestErrorView {
    InvalidCharacter(Seq<Seq<char>>),
    CountOverflow,
}

impl View for IngestError {
    type V = IngestErrorView;

    open spec fn view(&self) -> IngestErrorView {
        match self {
            IngestError::InvalidCharacter(names) => IngestErrorView::InvalidCharacter(
                Seq::new(names@.len(), |i: int| names@[i]@),
            ),
            IngestError::CountOverflow => IngestErrorView::CountOverflow,
        }
    }
}

} // verus!
