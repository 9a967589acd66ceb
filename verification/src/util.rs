//! Small helpers: the key comparator the merge order is based on, and
//! identity assertions that a value is `Send` or `Sync`.

use vstd::prelude::*;

use crate::key_order::{key_le, lex_le};
use crate::Val;

verus! {

/// Whether the first entry comes at or before the second in key order,
/// comparing keys only.
pub fn by_key_seq(p1: &(String, Val), p2: &(String, Val)) -> (r: bool)
    ensures
        r == lex_le(p1.0@, p2.0@),
{
    key_le(p1.0.as_str(), p2.0.as_str())
}

/// Assert at compile time that a value is `Send`.
pub fn assert_send<T: Send>(v: T) -> (r: T)
    ensures
        r == v,
{
    v
}

/// Assert at compile time that a value is `Sync`.
pub fn assert_sync<T: Sync>(v: T) -> (r: T)
    ensures
        r == v,
{
    v
}

} // verus!
