//! The entries of the word list and the errors a load can end in.

use vstd::prelude::*;

verus! {

/// One entry of the word list: a word together with the character count that
/// the backing file records beside it.
///
/// The recorded count is taken from the source data as given; the loader
/// checks only that it parses as a non-negative integer, not that it equals
/// the word's actual character count (see [`WordRecord::wf`]).
#[derive(Debug, Clone, PartialEq, Eq)]
pub struct WordRecord {
    pub word: String,
    pub length: usize,
}

impl View for WordRecord {
    type V = (Seq<char>, nat);

    open spec fn view(&self) -> (Seq<char>, nat) {
        (self.word@, self.length as nat)
    }
}

impl WordRecord {
    /// A record is well formed when its recorded length is the word's actual
    /// character count. The source data is assumed to satisfy this, but the
    /// loader does not enforce it.
    pub open spec fn wf(self) -> bool {
        self.length == self.word@.len()
    }
}

/// Why a word list could not be produced. A caller that receives a value of
/// this type can always tell a failed load apart from a load that succeeded
/// with zero matching words.
#[derive(Debug, Clone, Copy, PartialEq, Eq, Structural)]
pub enum LoadError {
    /// The backing file could not be opened or read at all.
    FileNotFound,
    /// A line of the backing file is not a well-formed record: it is not
    /// valid delimited text, it does not have exactly two fields, or its
    /// second field is not a non-negative decimal integer that fits `usize`.
    MalformedRecord,
}

} // verus!
