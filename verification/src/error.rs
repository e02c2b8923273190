use vstd::prelude::*;

verus! {

/// Everything that can go wrong while loading an index, resolving a record,
/// or normalizing selection weights.
#[derive(Clone, Copy, Debug, PartialEq, Eq, Structural)]
pub enum FortuneError {
    /// A load request matched no cookie file.
    NotFound,
    /// The index file is malformed or has an unsupported version.
    Format,
    /// An offset or record index is out of range.
    Bounds,
    /// The explicit percentage weights exceed 100.
    Weight,
    /// No record satisfies the active length filter.
    NoMatch,
}

impl FortuneError {
    /// The message that describes each error variant.
    pub open spec fn spec_message(self) -> Seq<char> {
        match self {
            FortuneError::NotFound => "No fortunes found"@,
            FortuneError::Format => "invalid data file"@,
            FortuneError::Bounds => "offset out of range"@,
            FortuneError::Weight => "percentages must be <= 100"@,
            FortuneError::NoMatch => "no fortune matches the length filter"@,
        }
    }

    /// A human-readable description of the error.
    pub fn message(&self) -> (r: &'static str)
        ensures
            r@ == self.spec_message(),
    {
        match self {
            FortuneError::NotFound => "No fortunes found",
            FortuneError::Format => "invalid data file",
            FortuneError::Bounds => "offset out of range",
            FortuneError::Weight => "percentages must be <= 100",
            FortuneError::NoMatch => "no fortune matches the length filter",
        }
    }
}

} // verus!
