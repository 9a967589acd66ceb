//! The laws of the leveled map, stated and proved over the model that every
//! contract in the crate uses.

use vstd::prelude::*;

use crate::level_model::{
    lemma_level_set_get, level_get, level_set, sentinel, stack_get, stack_inv,
};
use crate::Val;

verus! {

/// Point-read precedence: over layers in recency order (newest first), the
/// merged lookup returns the value of the first layer whose value for `k` is
/// not the sentinel.
pub proof fn lemma_point_read_precedence(ls: Seq<Seq<(Seq<char>, Val)>>, k: Seq<char>, i: int)
    requires
        0 <= i < ls.len(),
        level_get(ls[i], k) != sentinel(),
        forall|j: int| 0 <= j < i ==> level_get(#[trigger] ls[j], k) == sentinel(),
    ensures
        stack_get(ls, k) == level_get(ls[i], k),
    decreases i,
{
    if i > 0 {
        assert(ls.drop_first()[i - 1] == ls[i]);
        assert forall|j: int|
            0 <= j < i - 1 implies level_get(#[trigger] ls.drop_first()[j], k) == sentinel() by {
            assert(ls.drop_first()[j] == ls[j + 1]);
        }
        lemma_point_read_precedence(ls.drop_first(), k, i - 1);
    }
}

/// Point-read precedence, the other half: if every layer's value for `k` is
/// the sentinel, the merged lookup returns the sentinel.
pub proof fn lemma_point_read_all_sentinel(ls: Seq<Seq<(Seq<char>, Val)>>, k: Seq<char>)
    requires
        forall|j: int| 0 <= j < ls.len() ==> level_get(#[trigger] ls[j], k) == sentinel(),
    ensures
        stack_get(ls, k) == sentinel(),
    decreases ls.len(),
{
    if ls.len() > 0 {
        assert forall|j: int|
            0 <= j < ls.drop_first().len() implies level_get(#[trigger] ls.drop_first()[j], k)
            == sentinel() by {
            assert(ls.drop_first()[j] == ls[j + 1]);
        }
        lemma_point_read_all_sentinel(ls.drop_first(), k);
    }
}

/// A write followed by a read: after writing a non-sentinel value `v` under
/// `k` into the writable layer, the merged lookup for `k` returns `v`. (A
/// sentinel write instead falls through to older layers: the writable layer
/// then yields the sentinel for `k`, so precedence moves on.)
pub proof fn lemma_set_then_get(ls: Seq<Seq<(Seq<char>, Val)>>, k: Seq<char>, v: Val)
    requires
        stack_inv(ls),
        ls.len() >= 1,
        v != sentinel(),
    ensures
        stack_get(ls.update(0, level_set(ls[0], k, v)), k) == v,
{
    let nl = ls.update(0, level_set(ls[0], k, v));
    lemma_level_set_get(ls[0], k, v, k);
    assert(nl[0] == level_set(ls[0], k, v));
    assert(level_get(nl[0], k) == v);
}

/// Frozen immutability, at the model level: a write replaces the writable
/// (first) layer only; every frozen layer's model is exactly what it was.
/// (At the type level, reads take shared references, and a write holds `&mut`
/// access to the writable layer alone.)
pub proof fn lemma_set_leaves_frozen_layers(ls: Seq<Seq<(Seq<char>, Val)>>, k: Seq<char>, v: Val)
    requires
        ls.len() >= 1,
    ensures
        ls.update(0, level_set(ls[0], k, v)).skip(1) == ls.skip(1),
{
    assert(ls.update(0, level_set(ls[0], k, v)).skip(1) =~= ls.skip(1));
}

} // verus!
