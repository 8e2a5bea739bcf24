//! One word of the frequency database.

use vstd::prelude::*;

use crate::time::Timestamp;

verus! {

/// Where an entry was learnt: typed through the input method, or found by
/// scanning a file of a repository.
#[derive(Debug)]
pub enum EntrySource {
    Ime,
    Scan { repo: String, path: String },
}

/// A word, the input code that produces it, how often it was chosen, when it
/// was last updated, the word typed before it (if known) and its source.
#[derive(Debug)]
pub struct Entry {
    pub code: String,
    pub word: String,
    pub freq: u32,
    pub updated: Timestamp,
    pub prev: Option<String>,
    pub source: EntrySource,
}

/// A copy of an optional string.
pub fn copy_opt_string(s: &Option<String>) -> (r: Option<String>)
    ensures
        r == *s,
{
    match s {
        Some(v) => Some(v.clone()),
        None => None,
    }
}

impl EntrySource {
    /// A copy of this source.
    pub fn duplicate(&self) -> (r: EntrySource)
        ensures
            r == *self,
    {
        match self {
            EntrySource::Ime => EntrySource::Ime,
            EntrySource::Scan { repo, path } => EntrySource::Scan { repo: repo.clone(), path: path.clone() },
        }
    }
}

impl Entry {
    /// Two entries are the same word when their codes and their words agree.
    pub open spec fn same_key(self, other: Entry) -> bool {
        self.code@ == other.code@ && self.word@ == other.word@
    }

    /// A copy of this entry.
    pub fn duplicate(&self) -> (r: Entry)
        ensures
            r == *self,
    {
        Entry {
            code: self.code.clone(),
            word: self.word.clone(),
            freq: self.freq,
            updated: self.updated,
            prev: copy_opt_string(&self.prev),
            source: self.source.duplicate(),
        }
    }

    /// Whether `self` and `other` are the same word (same code, same word).
    pub fn has_key_of(&self, other: &Entry) -> (b: bool)
        ensures
            b == self.same_key(*other),
    {
        self.code == other.code && self.word == other.word
    }
}

} // verus!
