//! The mathematical model of layers and layer stacks.
//!
//! A layer is modelled as a sequence of `(Seq<char>, Val)` pairs in strictly
//! ascending key order; a stack as a sequence of such layers in recency order,
//! newest first. Every contract in the crate is stated over this model.

use vstd::multiset::Multiset;
use vstd::prelude::*;

use crate::key_order::{lemma_lex_asym, lemma_lex_le_trans, lemma_lex_trans, lex_le, lex_lt};
use crate::key_range::{in_range, KeyRange};
use crate::{Level, Val};

verus! {

/// The model of one layer: its entries as key/value pairs.
pub open spec fn level_view(l: Level) -> Seq<(Seq<char>, Val)> {
    entries_view(l.entries@)
}

/// The model of one stored entry.
pub open spec fn pair_view(p: (String, Val)) -> (Seq<char>, Val) {
    (p.0@, p.1)
}

/// The model of a sequence of stored entries.
pub open spec fn entries_view(es: Seq<(String, Val)>) -> Seq<(Seq<char>, Val)> {
    es.map_values(|p: (String, Val)| pair_view(p))
}

/// The sentinel value meaning "no entry recorded here".
pub open spec fn sentinel() -> Val {
    Val(0u64)
}

/// The value actually stored by a write: `None` stores the sentinel.
pub open spec fn stored_val(v: Option<Val>) -> Val {
    match v {
        Some(x) => x,
        None => sentinel(),
    }
}

/// Keys strictly ascending: the well-formedness of one layer's entries.
pub open spec fn strictly_sorted(s: Seq<(Seq<char>, Val)>) -> bool {
    forall|i: int, j: int| 0 <= i < j < s.len() ==> lex_lt(s[i].0, s[j].0)
}

/// Keys non-decreasing: what a merged range scan guarantees.
pub open spec fn key_sorted(s: Seq<(Seq<char>, Val)>) -> bool {
    forall|i: int, j: int| 0 <= i < j < s.len() ==> lex_le(s[i].0, s[j].0)
}

/// Every layer of the stack is well-formed.
pub open spec fn stack_inv(ls: Seq<Seq<(Seq<char>, Val)>>) -> bool {
    forall|i: int| 0 <= i < ls.len() ==> strictly_sorted(#[trigger] ls[i])
}

/// The value one layer holds for key `k`; the sentinel if the key is absent.
pub open spec fn level_get(s: Seq<(Seq<char>, Val)>, k: Seq<char>) -> Val
    decreases s.len(),
{
    if s.len() == 0 {
        sentinel()
    } else if s[0].0 == k {
        s[0].1
    } else {
        level_get(s.drop_first(), k)
    }
}

/// Whether one layer holds an entry for key `k` (possibly a stored sentinel).
pub open spec fn level_has(s: Seq<(Seq<char>, Val)>, k: Seq<char>) -> bool
    decreases s.len(),
{
    if s.len() == 0 {
        false
    } else {
        s[0].0 == k || level_has(s.drop_first(), k)
    }
}

/// The entries of a layer after writing value `v` under key `k`: the entry is
/// replaced if the key is present, inserted at its ordered position otherwise.
pub open spec fn level_set(s: Seq<(Seq<char>, Val)>, k: Seq<char>, v: Val) -> Seq<
    (Seq<char>, Val),
>
    decreases s.len(),
{
    if s.len() == 0 {
        seq![(k, v)]
    } else if lex_lt(k, s[0].0) {
        seq![(k, v)] + s
    } else if s[0].0 == k {
        seq![(k, v)] + s.drop_first()
    } else {
        seq![s[0]] + level_set(s.drop_first(), k, v)
    }
}

/// The merged point lookup over a stack in recency order (newest first): the
/// first layer's non-sentinel value for `k`, or the sentinel if every layer
/// yields the sentinel. A stored sentinel does not mask older real values.
pub open spec fn stack_get(ls: Seq<Seq<(Seq<char>, Val)>>, k: Seq<char>) -> Val
    decreases ls.len(),
{
    if ls.len() == 0 {
        sentinel()
    } else if level_get(ls[0], k) != sentinel() {
        level_get(ls[0], k)
    } else {
        stack_get(ls.drop_first(), k)
    }
}

/// One layer's entries restricted to a key range, in their original order.
pub open spec fn level_range(s: Seq<(Seq<char>, Val)>, r: KeyRange) -> Seq<(Seq<char>, Val)>
    decreases s.len(),
{
    if s.len() == 0 {
        Seq::empty()
    } else if in_range(r, s.last().0) {
        level_range(s.drop_last(), r).push(s.last())
    } else {
        level_range(s.drop_last(), r)
    }
}

/// Each layer's bounded range result, layer by layer.
pub open spec fn stack_ranges(ls: Seq<Seq<(Seq<char>, Val)>>, r: KeyRange) -> Seq<
    Seq<(Seq<char>, Val)>,
> {
    ls.map_values(|l: Seq<(Seq<char>, Val)>| level_range(l, r))
}

/// The multiset union of a sequence of entry sequences.
pub open spec fn multiset_sum(ls: Seq<Seq<(Seq<char>, Val)>>) -> Multiset<(Seq<char>, Val)>
    decreases ls.len(),
{
    if ls.len() == 0 {
        Multiset::empty()
    } else {
        ls[0].to_multiset().add(multiset_sum(ls.drop_first()))
    }
}

/// Skipping past an entry whose key is not `k` does not change the lookup.
pub proof fn lemma_level_get_skip_step(s: Seq<(Seq<char>, Val)>, k: Seq<char>, i: int)
    requires
        0 <= i < s.len(),
        s[i].0 != k,
    ensures
        level_get(s.skip(i), k) == level_get(s.skip(i + 1), k),
        level_has(s.skip(i), k) == level_has(s.skip(i + 1), k),
{
    assert(s.skip(i).drop_first() =~= s.skip(i + 1));
}

/// A lookup starts at the whole sequence.
pub proof fn lemma_level_get_skip_zero(s: Seq<(Seq<char>, Val)>, k: Seq<char>)
    ensures
        level_get(s.skip(0), k) == level_get(s, k),
        level_has(s.skip(0), k) == level_has(s, k),
{
    assert(s.skip(0) =~= s);
}

/// If position `i` holds key `k` and no earlier position does, the lookup
/// returns the value at `i`.
pub proof fn lemma_level_get_at(s: Seq<(Seq<char>, Val)>, k: Seq<char>, i: int)
    requires
        0 <= i < s.len(),
        s[i].0 == k,
        forall|j: int| 0 <= j < i ==> s[j].0 != k,
    ensures
        level_get(s, k) == s[i].1,
        level_has(s, k),
    decreases i,
{
    if i == 0 {
    } else {
        lemma_level_get_at(s.drop_first(), k, i - 1);
    }
}

/// Presence of a key is the existence of a position holding it.
pub proof fn lemma_level_has_iff_exists(s: Seq<(Seq<char>, Val)>, k: Seq<char>)
    ensures
        level_has(s, k) <==> exists|i: int| 0 <= i < s.len() && s[i].0 == k,
    decreases s.len(),
{
    if s.len() > 0 {
        lemma_level_has_iff_exists(s.drop_first(), k);
        if s[0].0 == k {
        } else if level_has(s.drop_first(), k) {
            let i = choose|i: int| 0 <= i < s.drop_first().len() && s.drop_first()[i].0 == k;
            assert(s[i + 1].0 == k);
        } else if exists|i: int| 0 <= i < s.len() && s[i].0 == k {
            let i = choose|i: int| 0 <= i < s.len() && s[i].0 == k;
            assert(s.drop_first()[i - 1].0 == k);
        }
    }
}

/// A key that is absent reads as the sentinel.
pub proof fn lemma_level_absent_get(s: Seq<(Seq<char>, Val)>, k: Seq<char>)
    requires
        !level_has(s, k),
    ensures
        level_get(s, k) == sentinel(),
    decreases s.len(),
{
    if s.len() > 0 {
        lemma_level_absent_get(s.drop_first(), k);
    }
}

/// Skipping past a layer that reads as the sentinel does not change the
/// merged lookup.
pub proof fn lemma_stack_get_skip_step(ls: Seq<Seq<(Seq<char>, Val)>>, k: Seq<char>, i: int)
    requires
        0 <= i < ls.len(),
        level_get(ls[i], k) == sentinel(),
    ensures
        stack_get(ls.skip(i), k) == stack_get(ls.skip(i + 1), k),
{
    assert(ls.skip(i).drop_first() =~= ls.skip(i + 1));
}

/// The tail of a well-formed layer is well-formed.
pub proof fn lemma_sorted_drop_first(s: Seq<(Seq<char>, Val)>)
    requires
        strictly_sorted(s),
        s.len() > 0,
    ensures
        strictly_sorted(s.drop_first()),
{
    assert forall|i: int, j: int|
        0 <= i < j < s.drop_first().len() implies lex_lt(
        s.drop_first()[i].0,
        s.drop_first()[j].0,
    ) by {
        assert(s.drop_first()[i] == s[i + 1]);
        assert(s.drop_first()[j] == s[j + 1]);
    }
}

/// `level_set` makes `k` present with value `v` and leaves every other key's
/// lookup and presence unchanged.
pub proof fn lemma_level_set_get(s: Seq<(Seq<char>, Val)>, k: Seq<char>, v: Val, k2: Seq<char>)
    ensures
        level_get(level_set(s, k, v), k) == v,
        level_has(level_set(s, k, v), k),
        k2 != k ==> level_get(level_set(s, k, v), k2) == level_get(s, k2),
        k2 != k ==> level_has(level_set(s, k, v), k2) == level_has(s, k2),
    decreases s.len(),
{
    let r = level_set(s, k, v);
    if s.len() == 0 {
        assert(r.len() == 1 && r[0] == (k, v));
        assert(r.drop_first() =~= Seq::<(Seq<char>, Val)>::empty());
        if k2 != k {
            assert(level_get(r, k2) == level_get(r.drop_first(), k2));
            assert(level_has(r, k2) == level_has(r.drop_first(), k2));
        }
    } else if lex_lt(k, s[0].0) {
        assert(r.len() == s.len() + 1);
        assert(r[0] == (k, v));
        assert(r.drop_first() =~= s);
        if k2 != k {
            assert(level_get(r, k2) == level_get(r.drop_first(), k2));
            assert(level_has(r, k2) == level_has(r.drop_first(), k2));
        }
    } else if s[0].0 == k {
        assert(r.len() == s.len());
        assert(r[0] == (k, v));
        assert(r.drop_first() =~= s.drop_first());
        if k2 != k {
            assert(level_get(r, k2) == level_get(s.drop_first(), k2));
            assert(level_get(s, k2) == level_get(s.drop_first(), k2));
            assert(level_has(r, k2) == level_has(s.drop_first(), k2));
            assert(level_has(s, k2) == level_has(s.drop_first(), k2));
        }
    } else {
        lemma_level_set_get(s.drop_first(), k, v, k2);
        let t = level_set(s.drop_first(), k, v);
        assert(r.len() == t.len() + 1);
        assert(r[0] == s[0]);
        assert(r.drop_first() =~= t);
        assert(level_get(r, k) == level_get(t, k));
        assert(level_has(r, k));
        if k2 != k {
            if s[0].0 == k2 {
                assert(level_get(r, k2) == r[0].1);
                assert(level_get(s, k2) == s[0].1);
                assert(level_has(r, k2) && level_has(s, k2));
            } else {
                assert(level_get(r, k2) == level_get(t, k2));
                assert(level_get(s, k2) == level_get(s.drop_first(), k2));
                assert(level_has(r, k2) == level_has(t, k2));
                assert(level_has(s, k2) == level_has(s.drop_first(), k2));
            }
        }
    }
}

/// Writing a key that position `i` already holds replaces that entry in
/// place.
pub proof fn lemma_level_set_found(s: Seq<(Seq<char>, Val)>, k: Seq<char>, v: Val, i: int)
    requires
        strictly_sorted(s),
        0 <= i < s.len(),
        s[i].0 == k,
    ensures
        level_set(s, k, v) == s.update(i, (k, v)),
    decreases i,
{
    lemma_lex_asym(k, k);
    if i == 0 {
        assert(level_set(s, k, v) =~= s.update(0, (k, v)));
    } else {
        assert(lex_lt(s[0].0, k));
        lemma_lex_asym(s[0].0, k);
        assert(s[0].0 != k);
        lemma_sorted_drop_first(s);
        assert(s.drop_first()[i - 1] == s[i]);
        lemma_level_set_found(s.drop_first(), k, v, i - 1);
        assert(level_set(s, k, v) =~= s.update(i, (k, v))) by {
            let t = s.drop_first().update(i - 1, (k, v));
            assert(level_set(s, k, v) == seq![s[0]] + t);
            assert forall|j: int| 0 <= j < s.len() implies (seq![s[0]] + t)[j] == s.update(
                i,
                (k, v),
            )[j] by {
                if j > 0 {
                    assert((seq![s[0]] + t)[j] == t[j - 1]);
                    assert(s.drop_first()[j - 1] == s[j]);
                }
            }
        }
    }
}

/// Writing an absent key inserts its entry at its ordered position `i`.
pub proof fn lemma_level_set_absent(s: Seq<(Seq<char>, Val)>, k: Seq<char>, v: Val, i: int)
    requires
        strictly_sorted(s),
        0 <= i <= s.len(),
        forall|j: int| 0 <= j < i ==> lex_lt(s[j].0, k),
        i < s.len() ==> lex_lt(k, s[i].0),
    ensures
        level_set(s, k, v) == s.insert(i, (k, v)),
    decreases i,
{
    s.insert_ensures(i, (k, v));
    if i == 0 {
        if s.len() == 0 {
            assert(level_set(s, k, v) =~= s.insert(0, (k, v)));
        } else {
            assert(lex_lt(k, s[0].0));
            assert(level_set(s, k, v) =~= s.insert(0, (k, v)));
        }
    } else {
        assert(lex_lt(s[0].0, k));
        lemma_lex_asym(s[0].0, k);
        lemma_lex_asym(k, k);
        assert(s[0].0 != k);
        lemma_sorted_drop_first(s);
        let t = s.drop_first();
        assert forall|j: int| 0 <= j < i - 1 implies lex_lt(t[j].0, k) by {
            assert(t[j] == s[j + 1]);
        }
        assert(i - 1 < t.len() ==> lex_lt(k, t[i - 1].0)) by {
            if i - 1 < t.len() {
                assert(t[i - 1] == s[i]);
            }
        }
        lemma_level_set_absent(t, k, v, i - 1);
        t.insert_ensures(i - 1, (k, v));
        assert(level_set(s, k, v) =~= s.insert(i, (k, v))) by {
            let u = t.insert(i - 1, (k, v));
            assert(level_set(s, k, v) == seq![s[0]] + u);
            assert forall|j: int| 0 <= j < s.len() + 1 implies (seq![s[0]] + u)[j] == s.insert(
                i,
                (k, v),
            )[j] by {
                if j > 0 {
                    assert((seq![s[0]] + u)[j] == u[j - 1]);
                    if j - 1 < i - 1 {
                        assert(u[j - 1] == t[j - 1]);
                        assert(t[j - 1] == s[j]);
                    } else if j - 1 == i - 1 {
                    } else {
                        assert(u[j - 1] == t[j - 2]);
                        assert(t[j - 2] == s[j - 1]);
                    }
                }
            }
        }
    }
}

/// Replacing the value under an existing key keeps the entries well-formed.
pub proof fn lemma_sorted_update(s: Seq<(Seq<char>, Val)>, i: int, k: Seq<char>, v: Val)
    requires
        strictly_sorted(s),
        0 <= i < s.len(),
        s[i].0 == k,
    ensures
        strictly_sorted(s.update(i, (k, v))),
{
    let r = s.update(i, (k, v));
    assert forall|p: int, q: int| 0 <= p < q < r.len() implies lex_lt(r[p].0, r[q].0) by {
        assert(r[p].0 == s[p].0);
        assert(r[q].0 == s[q].0);
    }
}

/// Inserting an entry at its ordered position keeps the entries well-formed.
pub proof fn lemma_sorted_insert(s: Seq<(Seq<char>, Val)>, i: int, k: Seq<char>, v: Val)
    requires
        strictly_sorted(s),
        0 <= i <= s.len(),
        forall|j: int| 0 <= j < i ==> lex_lt(s[j].0, k),
        i < s.len() ==> lex_lt(k, s[i].0),
    ensures
        strictly_sorted(s.insert(i, (k, v))),
{
    s.insert_ensures(i, (k, v));
    let r = s.insert(i, (k, v));
    assert forall|p: int, q: int| 0 <= p < q < r.len() implies lex_lt(r[p].0, r[q].0) by {
        if q < i {
            assert(r[p] == s[p] && r[q] == s[q]);
        } else if q == i {
            assert(r[p] == s[p]);
        } else if p < i {
            assert(r[q] == s[q - 1]);
            if q - 1 > i {
                lemma_lex_trans(s[p].0, k, s[q - 1].0);
                lemma_lex_trans(k, s[i].0, s[q - 1].0);
            } else {
                assert(q - 1 >= i);
                if i < s.len() && q - 1 == i {
                    lemma_lex_trans(s[p].0, k, s[i].0);
                }
            }
        } else if p == i {
            assert(r[q] == s[q - 1]);
            if q - 1 > i {
                lemma_lex_trans(k, s[i].0, s[q - 1].0);
            }
        } else {
            assert(r[p] == s[p - 1] && r[q] == s[q - 1]);
        }
    }
}

/// One filtering step of a bounded scan, for a loop over the entries.
pub proof fn lemma_level_range_take_step(s: Seq<(Seq<char>, Val)>, r: KeyRange, i: int)
    requires
        0 <= i < s.len(),
    ensures
        level_range(s.take(i + 1), r) == if in_range(r, s[i].0) {
            level_range(s.take(i), r).push(s[i])
        } else {
            level_range(s.take(i), r)
        },
{
    assert(s.take(i + 1).drop_last() =~= s.take(i));
    assert(s.take(i + 1).last() == s[i]);
}

/// A bounded scan of a well-formed layer is well-formed and draws only from
/// that layer's entries.
pub proof fn lemma_level_range_sorted(s: Seq<(Seq<char>, Val)>, r: KeyRange)
    requires
        strictly_sorted(s),
    ensures
        strictly_sorted(level_range(s, r)),
        forall|p: (Seq<char>, Val)| level_range(s, r).contains(p) ==> s.contains(p),
    decreases s.len(),
{
    if s.len() > 0 {
        assert forall|i: int, j: int|
            0 <= i < j < s.drop_last().len() implies lex_lt(
            s.drop_last()[i].0,
            s.drop_last()[j].0,
        ) by {
            assert(s.drop_last()[i] == s[i]);
            assert(s.drop_last()[j] == s[j]);
        }
        lemma_level_range_sorted(s.drop_last(), r);
        let t = level_range(s.drop_last(), r);
        assert forall|p: (Seq<char>, Val)| t.contains(p) implies s.contains(p) by {
            assert(s.drop_last().contains(p));
            let i = choose|i: int| 0 <= i < s.drop_last().len() && s.drop_last()[i] == p;
            assert(s[i] == p);
        }
        if in_range(r, s.last().0) {
            let u = t.push(s.last());
            assert forall|i: int| 0 <= i < t.len() implies lex_lt(t[i].0, s.last().0) by {
                assert(t.contains(t[i]));
                assert(s.drop_last().contains(t[i]));
                let j = choose|j: int| 0 <= j < s.drop_last().len() && s.drop_last()[j] == t[i];
                assert(s[j] == t[i]);
                assert(lex_lt(s[j].0, s[s.len() - 1].0));
            }
            assert forall|i: int, j: int| 0 <= i < j < u.len() implies lex_lt(u[i].0, u[j].0) by {
                if j < u.len() - 1 {
                    assert(u[i] == t[i] && u[j] == t[j]);
                } else {
                    assert(u[i] == t[i] && u[j] == s.last());
                }
            }
            assert forall|p: (Seq<char>, Val)| u.contains(p) implies s.contains(p) by {
                let i = choose|i: int| 0 <= i < u.len() && u[i] == p;
                if i < u.len() - 1 {
                    assert(t.contains(t[i]));
                } else {
                    assert(s[s.len() - 1] == p);
                }
            }
        }
    }
}

/// Appending an entry whose key is at or above the last key keeps a merged
/// result key-sorted.
pub proof fn lemma_key_sorted_push(s: Seq<(Seq<char>, Val)>, p: (Seq<char>, Val))
    requires
        key_sorted(s),
        s.len() > 0 ==> lex_le(s.last().0, p.0),
    ensures
        key_sorted(s.push(p)),
{
    let r = s.push(p);
    assert forall|i: int, j: int| 0 <= i < j < r.len() implies lex_le(r[i].0, r[j].0) by {
        if j < r.len() - 1 {
            assert(r[i] == s[i] && r[j] == s[j]);
        } else {
            assert(r[j] == p);
            assert(r[i] == s[i]);
            if i < s.len() - 1 {
                assert(lex_le(s[i].0, s[s.len() - 1].0));
                lemma_lex_le_trans(s[i].0, s[s.len() - 1].0, p.0);
            }
        }
    }
}

/// Strictly ascending keys are in particular non-decreasing.
pub proof fn lemma_strict_is_key_sorted(s: Seq<(Seq<char>, Val)>)
    requires
        strictly_sorted(s),
    ensures
        key_sorted(s),
{
}

/// The multiset union depends only on each layer's multiset of entries.
pub proof fn lemma_multiset_sum_congruent(a: Seq<Seq<(Seq<char>, Val)>>, b: Seq<
    Seq<(Seq<char>, Val)>,
>)
    requires
        a.len() == b.len(),
        forall|i: int| 0 <= i < a.len() ==> (#[trigger] a[i]).to_multiset() == b[i].to_multiset(),
    ensures
        multiset_sum(a) == multiset_sum(b),
    decreases a.len(),
{
    if a.len() > 0 {
        assert forall|i: int|
            0 <= i < a.drop_first().len() implies (#[trigger] a.drop_first()[i]).to_multiset()
            == b.drop_first()[i].to_multiset() by {
            assert(a.drop_first()[i] == a[i + 1]);
            assert(b.drop_first()[i] == b[i + 1]);
        }
        lemma_multiset_sum_congruent(a.drop_first(), b.drop_first());
    }
}

/// The multiset union over a single layer is that layer's multiset.
pub proof fn lemma_multiset_sum_singleton(l: Seq<(Seq<char>, Val)>)
    ensures
        multiset_sum(seq![l]) == l.to_multiset(),
{
    let ls = seq![l];
    assert(ls.len() == 1 && ls[0] == l);
    assert(ls.drop_first() =~= Seq::<Seq<(Seq<char>, Val)>>::empty());
    assert(multiset_sum(ls.drop_first()) == Multiset::<(Seq<char>, Val)>::empty());
    assert(multiset_sum(ls) == l.to_multiset().add(Multiset::empty()));
    assert(l.to_multiset().add(Multiset::empty()) =~= l.to_multiset());
}

/// Mapping entries to their models commutes with an in-place update.
pub proof fn lemma_entries_view_update(es: Seq<(String, Val)>, i: int, p: (String, Val))
    requires
        0 <= i < es.len(),
    ensures
        entries_view(es.update(i, p)) == entries_view(es).update(i, pair_view(p)),
{
    assert(entries_view(es.update(i, p)) =~= entries_view(es).update(i, pair_view(p)));
}

/// Mapping entries to their models commutes with an insertion.
pub proof fn lemma_entries_view_insert(es: Seq<(String, Val)>, i: int, p: (String, Val))
    requires
        0 <= i <= es.len(),
    ensures
        entries_view(es.insert(i, p)) == entries_view(es).insert(i, pair_view(p)),
{
    es.insert_ensures(i, p);
    entries_view(es).insert_ensures(i, pair_view(p));
    assert(entries_view(es.insert(i, p)) =~= entries_view(es).insert(i, pair_view(p)));
}

/// Mapping entries to their models commutes with appending.
pub proof fn lemma_entries_view_push(es: Seq<(String, Val)>, p: (String, Val))
    ensures
        entries_view(es.push(p)) == entries_view(es).push(pair_view(p)),
{
    assert(entries_view(es.push(p)) =~= entries_view(es).push(pair_view(p)));
}

/// Over a single layer, the merged lookup is that layer's lookup.
pub proof fn lemma_stack_get_singleton(l: Seq<(Seq<char>, Val)>, k: Seq<char>)
    ensures
        stack_get(seq![l], k) == level_get(l, k),
{
    let ls = seq![l];
    assert(ls.len() == 1 && ls[0] == l);
    assert(ls.drop_first() =~= Seq::<Seq<(Seq<char>, Val)>>::empty());
    if level_get(l, k) == sentinel() {
        assert(stack_get(ls, k) == stack_get(ls.drop_first(), k));
        assert(stack_get(Seq::<Seq<(Seq<char>, Val)>>::empty(), k) == sentinel());
    }
}

} // verus!
