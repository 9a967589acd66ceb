//! Key range bounds for range scans: a lower and an upper bound, each
//! inclusive, exclusive, or absent, with an executable membership test proved
//! against the specification.

use vstd::prelude::*;

use crate::key_order::{key_le, key_lt, lex_le, lex_lt};

verus! {

/// One end of a key range.
#[derive(Clone, Debug)]
pub enum KeyBound {
    /// No bound on this end.
    Unbounded,
    /// This end includes the named key.
    Included(String),
    /// This end excludes the named key.
    Excluded(String),
}

/// A range of keys, used to bound a range scan.
#[derive(Clone, Debug)]
pub struct KeyRange {
    pub lo: KeyBound,
    pub hi: KeyBound,
}

/// Whether key `k` lies at or above the lower bound `lo`.
pub open spec fn above_lo(lo: KeyBound, k: Seq<char>) -> bool {
    match lo {
        KeyBound::Unbounded => true,
        KeyBound::Included(s) => lex_le(s@, k),
        KeyBound::Excluded(s) => lex_lt(s@, k),
    }
}

/// Whether key `k` lies at or below the upper bound `hi`.
pub open spec fn below_hi(hi: KeyBound, k: Seq<char>) -> bool {
    match hi {
        KeyBound::Unbounded => true,
        KeyBound::Included(s) => lex_le(k, s@),
        KeyBound::Excluded(s) => lex_lt(k, s@),
    }
}

/// Whether key `k` lies within the range `r`.
pub open spec fn in_range(r: KeyRange, k: Seq<char>) -> bool {
    above_lo(r.lo, k) && below_hi(r.hi, k)
}

impl KeyRange {
    /// The unbounded range, containing every key.
    pub fn all() -> (r: KeyRange)
        ensures
            forall|k: Seq<char>| in_range(r, k),
    {
        KeyRange { lo: KeyBound::Unbounded, hi: KeyBound::Unbounded }
    }

    /// The range of all keys at or above `lo`.
    pub fn starting_at(lo: String) -> (r: KeyRange)
        ensures
            forall|k: Seq<char>| in_range(r, k) == lex_le(lo@, k),
    {
        KeyRange { lo: KeyBound::Included(lo), hi: KeyBound::Unbounded }
    }

    /// Whether this range contains the key `k`.
    pub fn contains_key(&self, k: &str) -> (r: bool)
        ensures
            r == in_range(*self, k@),
    {
        let lo_ok = match &self.lo {
            KeyBound::Unbounded => true,
            KeyBound::Included(s) => key_le(s.as_str(), k),
            KeyBound::Excluded(s) => key_lt(s.as_str(), k),
        };
        if !lo_ok {
            return false;
        }
        match &self.hi {
            KeyBound::Unbounded => true,
            KeyBound::Included(s) => key_le(k, s.as_str()),
            KeyBound::Excluded(s) => key_lt(k, s.as_str()),
        }
    }
}

} // verus!
