//! What can go wrong while text is read in, an index is built, or an index is loaded.

use vstd::prelude::*;

verus! {

/// A name that stands for no book or no translation.
#[derive(Clone, Copy, Debug, Default, PartialEq, Eq, Structural)]
pub struct DataInputError {}

impl DataInputError {
    /// The error.
    pub fn new() -> (e: DataInputError)
        ensures
            e == (DataInputError {  }),
    {
        DataInputError {  }
    }

    /// The error in words.
    pub fn message(&self) -> (s: &'static str)
        ensures
            s@ == "Cannot convert string to index data"@,
    {
        "Cannot convert string to index data"
    }
}

/// An index that cannot be loaded: one of its transducers is damaged, or its postings are
/// cut short or point where nothing is.
#[derive(Clone, Copy, Debug, Default, PartialEq, Eq, Structural)]
pub struct LoadError {}

impl LoadError {
    /// The error.
    pub fn new() -> (e: LoadError)
        ensures
            e == (LoadError {  }),
    {
        LoadError {  }
    }

    /// The error in words.
    pub fn message(&self) -> (s: &'static str)
        ensures
            s@ == "The index is damaged"@,
    {
        "The index is damaged"
    }
}

/// Why a corpus cannot be taken into an index.
#[derive(Clone, Copy, Debug, PartialEq, Eq, Structural)]
pub enum BuildError {
    /// A verse has no key.
    MissingKey,
    /// A field of a verse's key does not fit in a byte.
    KeyOutOfRange,
    /// The text of a verse has too many characters for their places to be numbered.
    TextTooLong,
    /// The number of a translation is none of this index.
    UnknownTranslation,
}

impl BuildError {
    /// The error in words.
    pub open spec fn words(self) -> Seq<char> {
        match self {
            BuildError::MissingKey => "Missing verse key"@,
            BuildError::KeyOutOfRange => "A field of a verse key does not fit in a byte"@,
            BuildError::TextTooLong => "The text of a verse is too long"@,
            BuildError::UnknownTranslation => "Invalid translation field value"@,
        }
    }

    /// The error in words.
    pub fn message(&self) -> (s: &'static str)
        ensures
            s@ == self.words(),
    {
        match self {
            BuildError::MissingKey => "Missing verse key",
            BuildError::KeyOutOfRange => "A field of a verse key does not fit in a byte",
            BuildError::TextTooLong => "The text of a verse is too long",
            BuildError::UnknownTranslation => "Invalid translation field value",
        }
    }
}

} // verus!
