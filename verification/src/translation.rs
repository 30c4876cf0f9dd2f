//! The translations that an index holds side by side.

use crate::error::DataInputError;
use crate::text::str_equal;
use vstd::prelude::*;

verus! {

/// The number of translations. Every per-verse statistic has one entry for each.
pub const TRANSLATION_COUNT: usize = 2;

/// A text has fewer characters than this, so that the place of a character fits in four
/// bytes.
pub const TEXT_LIMIT: u64 = 0x1_0000_0000;

/// The number of a place is below this: `TRANSLATION_COUNT` times `TEXT_LIMIT`.
pub const SPAN_LIMIT: u64 = 0x2_0000_0000;

/// The number under which an index knows a place in the text of a verse in a translation:
/// places in the text of the first translation are numbered from 0, places in the text of
/// the next from `TEXT_LIMIT`, and so on. A run of numbers thus stands for a stretch of
/// characters in the text of one translation.
pub open spec fn place_number(translation: int, place: int) -> u64 {
    (translation * TEXT_LIMIT + place) as u64
}

/// A translation. Its place in this list is the index of its entry wherever values are kept
/// once per translation.
#[derive(Clone, Copy, Debug, PartialEq, Eq, Structural, PartialOrd, Ord, Hash)]
pub enum Translation {
    KJV,
    NET,
}

impl Translation {
    /// The translation's place in the list, from 0.
    pub open spec fn spec_ordinal(self) -> int {
        match self {
            Translation::KJV => 0,
            Translation::NET => 1,
        }
    }

    /// The translation's name.
    pub open spec fn name(self) -> Seq<char> {
        match self {
            Translation::KJV => "KJV"@,
            Translation::NET => "NET"@,
        }
    }

    /// The translation's place in the list, from 0.
    pub fn ordinal(self) -> (n: usize)
        ensures
            n == self.spec_ordinal(),
            n < TRANSLATION_COUNT,
    {
        match self {
            Translation::KJV => 0,
            Translation::NET => 1,
        }
    }

    /// The translation at a place in the list, if there is one.
    pub fn from_ordinal(n: i32) -> (r: Option<Translation>)
        ensures
            match r {
                Some(t) => t.spec_ordinal() == n,
                None => n < 0 || n >= TRANSLATION_COUNT,
            },
    {
        if n == 0 {
            Some(Translation::KJV)
        } else if n == 1 {
            Some(Translation::NET)
        } else {
            None
        }
    }

    /// Reads a translation's name. Any other text is refused.
    pub fn from_str(translation: &str) -> (r: Result<Translation, DataInputError>)
        ensures
            match r {
                Ok(t) => t.name() == translation@,
                Err(_) => forall|t: Translation| t.name() != translation@,
            },
    {
        if str_equal(translation, "KJV") {
            Ok(Translation::KJV)
        } else if str_equal(translation, "NET") {
            Ok(Translation::NET)
        } else {
            Err(DataInputError::new())
        }
    }
}

} // verus!
