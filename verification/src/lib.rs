//! A leveled (LSM-style) in-memory key-value map: a writable top layer over an
//! ordered stack of frozen, shared layers. Point lookups return the first
//! non-sentinel value in recency order (writable first, then frozen layers
//! newest to oldest); range scans merge the per-layer sorted entries into one
//! key-ascending sequence that preserves the multiset of entries.

use vstd::prelude::*;

pub mod impl_level;
pub mod impl_level_map;
pub mod impl_ref;
pub mod impl_ref_mut;
pub mod impl_static_levels;
pub mod key_order;
pub mod key_range;
pub mod laws;
pub mod level_model;
pub mod map_api;
pub mod map_api_impl;
pub mod merge;
pub mod stack_ops;
pub mod util;

use std::sync::Arc;

verus! {

/// A stored value. `Val(0)` is the sentinel meaning "no entry recorded here":
/// a lookup that finds nothing returns it, and storing it acts as a tombstone
/// marker that does not mask older layers' real values.
#[derive(Clone, Copy, PartialEq, Eq, Structural, Debug)]
pub struct Val(pub u64);

impl Default for Val {
    /// The default value is the sentinel.
    fn default() -> (r: Self)
        ensures
            r == Val(0u64),
    {
        Val(0)
    }
}

/// One layer: a mapping from `String` keys to values, kept as entries in
/// strictly ascending key order.
#[derive(Debug)]
pub struct Level {
    pub entries: Vec<(String, Val)>,
}

impl Default for Level {
    /// An empty layer.
    fn default() -> (r: Self)
        ensures
            r.entries@.len() == 0,
    {
        Level { entries: Vec::new() }
    }
}

/// An ordered, immutable stack of shared layers. Layers are pushed oldest to
/// newest and never change once inside; reads iterate newest first.
#[derive(Clone, Debug)]
pub struct StaticLevels {
    levels: Vec<Arc<Level>>,
}

/// A read-only view over one writable layer and one frozen stack.
#[derive(Debug)]
pub struct Ref<'d> {
    pub writable: &'d Level,
    pub frozen: &'d StaticLevels,
}

/// Like `Ref`, but with exclusive access to the writable layer, so it also
/// supports point writes.
#[derive(Debug)]
pub struct RefMut<'d> {
    pub writable: &'d mut Level,
    pub frozen: &'d StaticLevels,
}

/// The owning container: one writable layer plus one frozen stack.
#[derive(Debug)]
pub struct LevelMap {
    pub writable: Level,
    pub frozen: StaticLevels,
}

} // verus!
