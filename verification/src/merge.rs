//! The ordered k-way merge used by range scans: N individually key-sorted
//! entry sequences in, one key-sorted sequence out, preserving the multiset
//! of entries — nothing dropped, nothing invented. Among entries with equal
//! keys from different inputs this implementation takes the earlier input
//! first, but no such order is part of the contract.

use vstd::multiset::Multiset;
use vstd::prelude::*;
use vstd::seq_lib::group_to_multiset_ensures;
use vstd::std_specs::vec::vec_index_mut;

use crate::key_order::{key_lt, lemma_lex_le_iff_not_gt, lemma_lex_le_trans, lex_le};
use crate::level_model::{
    entries_view, key_sorted, lemma_entries_view_push, lemma_key_sorted_push, multiset_sum,
    pair_view,
};
use crate::Val;

verus! {

/// The models of a sequence of entry vectors.
pub open spec fn vec_views(vs: Seq<Vec<(String, Val)>>) -> Seq<Seq<(Seq<char>, Val)>> {
    vs.map_values(|v: Vec<(String, Val)>| entries_view(v@))
}

/// What remains of the inputs, as one multiset: input `i` contributes its
/// entries from position `pos[i]` on.
spec fn rem_sum(ls: Seq<Seq<(Seq<char>, Val)>>, pos: Seq<usize>) -> Multiset<(Seq<char>, Val)>
    decreases ls.len(),
{
    if ls.len() == 0 {
        Multiset::empty()
    } else {
        ls[0].skip(pos[0] as int).to_multiset().add(rem_sum(ls.drop_first(), pos.drop_first()))
    }
}

/// Before anything is consumed, the remainder is the whole union.
proof fn lemma_rem_sum_start(ls: Seq<Seq<(Seq<char>, Val)>>, pos: Seq<usize>)
    requires
        pos.len() >= ls.len(),
        forall|i: int| 0 <= i < ls.len() ==> pos[i] == 0,
    ensures
        rem_sum(ls, pos) == multiset_sum(ls),
    decreases ls.len(),
{
    if ls.len() > 0 {
        assert(ls[0].skip(0) =~= ls[0]);
        assert forall|i: int| 0 <= i < ls.drop_first().len() implies pos.drop_first()[i] == 0 by {
            assert(pos.drop_first()[i] == pos[i + 1]);
        }
        lemma_rem_sum_start(ls.drop_first(), pos.drop_first());
    }
}

/// Once every input is exhausted, nothing remains.
proof fn lemma_rem_sum_done(ls: Seq<Seq<(Seq<char>, Val)>>, pos: Seq<usize>)
    requires
        pos.len() >= ls.len(),
        forall|i: int| 0 <= i < ls.len() ==> pos[i] == ls[i].len(),
    ensures
        rem_sum(ls, pos) == Multiset::<(Seq<char>, Val)>::empty(),
    decreases ls.len(),
{
    broadcast use group_to_multiset_ensures;

    if ls.len() > 0 {
        assert(ls[0].skip(pos[0] as int) =~= Seq::<(Seq<char>, Val)>::empty());
        assert forall|i: int|
            0 <= i < ls.drop_first().len() implies pos.drop_first()[i] == ls.drop_first()[i].len()
            by {
            assert(pos.drop_first()[i] == pos[i + 1]);
            assert(ls.drop_first()[i] == ls[i + 1]);
        }
        lemma_rem_sum_done(ls.drop_first(), pos.drop_first());
        let e = Seq::<(Seq<char>, Val)>::empty().to_multiset();
        assert(e.len() == 0);
        assert(e =~= Multiset::<(Seq<char>, Val)>::empty());
        assert(rem_sum(ls, pos) =~= Multiset::<(Seq<char>, Val)>::empty());
    }
}

/// Consuming the head of input `i` moves exactly that entry out of the
/// remainder.
proof fn lemma_rem_sum_advance(ls: Seq<Seq<(Seq<char>, Val)>>, pos: Seq<usize>, i: int, q: usize)
    requires
        pos.len() >= ls.len(),
        0 <= i < ls.len(),
        (pos[i] as int) < ls[i].len(),
        q as int == pos[i] as int + 1,
    ensures
        rem_sum(ls, pos) == rem_sum(ls, pos.update(i, q)).insert(ls[i][pos[i] as int]),
    decreases i,
{
    broadcast use group_to_multiset_ensures;

    let pos2 = pos.update(i, q);
    if i == 0 {
        let s0 = ls[0];
        let p = pos[0] as int;
        let x = s0[p];
        assert(s0.skip(p).len() > 0);
        assert(s0.skip(p)[0] == x);
        assert(s0.skip(p).remove(0) =~= s0.skip(p + 1));
        assert(s0.skip(p).remove(0).to_multiset() == s0.skip(p).to_multiset().remove(x));
        assert(s0.skip(p).contains(x));
        assert(s0.skip(p).to_multiset().count(x) > 0);
        assert(s0.skip(p + 1).to_multiset().insert(x) =~= s0.skip(p).to_multiset());
        assert(pos2.drop_first() =~= pos.drop_first());
        assert(pos2[0] as int == p + 1);
        assert(rem_sum(ls, pos2).insert(x) =~= rem_sum(ls, pos));
    } else {
        assert(pos2[0] == pos[0]);
        assert(pos2.drop_first() =~= pos.drop_first().update(i - 1, q));
        assert(pos.drop_first()[i - 1] == pos[i]);
        assert(ls.drop_first()[i - 1] == ls[i]);
        lemma_rem_sum_advance(ls.drop_first(), pos.drop_first(), i - 1, q);
        assert(rem_sum(ls, pos) =~= rem_sum(ls, pos2).insert(ls[i][pos[i] as int]));
    }
}

/// Merge N key-sorted entry sequences into one key-sorted sequence holding
/// exactly the union of their entries.
pub fn kmerge(inputs: &Vec<Vec<(String, Val)>>) -> (out: Vec<(String, Val)>)
    requires
        forall|i: int| 0 <= i < inputs@.len() ==> key_sorted(#[trigger] vec_views(inputs@)[i]),
    ensures
        key_sorted(entries_view(out@)),
        entries_view(out@).to_multiset() == multiset_sum(vec_views(inputs@)),
{
    let ghost lv = vec_views(inputs@);
    let n = inputs.len();
    let mut pos: Vec<usize> = Vec::new();
    let mut out: Vec<(String, Val)> = Vec::new();
    while pos.len() < n
        invariant
            pos@.len() <= n,
            forall|j: int| 0 <= j < pos@.len() ==> pos@[j] == 0,
        decreases n - pos@.len(),
    {
        pos.push(0);
    }
    proof {
        broadcast use group_to_multiset_ensures;

        lemma_rem_sum_start(lv, pos@);
        assert(entries_view(out@) =~= Seq::<(Seq<char>, Val)>::empty());
        assert(entries_view(out@).to_multiset().len() == 0);
        assert(entries_view(out@).to_multiset() =~= Multiset::<(Seq<char>, Val)>::empty());
        assert(entries_view(out@).to_multiset().add(rem_sum(lv, pos@)) =~= multiset_sum(lv));
    }
    loop
        invariant
            n == inputs@.len(),
            lv == vec_views(inputs@),
            forall|i: int| 0 <= i < n ==> key_sorted(#[trigger] lv[i]),
            forall|i: int| 0 <= i < n ==> (#[trigger] lv[i]).len() == inputs@[i]@.len(),
            pos@.len() == n,
            forall|i: int| 0 <= i < n ==> #[trigger] pos@[i] <= lv[i].len(),
            key_sorted(entries_view(out@)),
            entries_view(out@).to_multiset().add(rem_sum(lv, pos@)) == multiset_sum(lv),
            forall|i: int, j: int|
                0 <= i < n && pos@[i] <= j < lv[i].len() && entries_view(out@).len() > 0
                    ==> lex_le(entries_view(out@).last().0, (#[trigger] lv[i][j]).0),
        decreases rem_sum(lv, pos@).len(),
    {
        let mut best: usize = 0;
        let mut have: bool = false;
        let mut i: usize = 0;
        while i < n
            invariant
                n == inputs@.len(),
                lv == vec_views(inputs@),
                forall|k: int| 0 <= k < n ==> (#[trigger] lv[k]).len() == inputs@[k]@.len(),
                pos@.len() == n,
                forall|k: int| 0 <= k < n ==> #[trigger] pos@[k] <= lv[k].len(),
                i <= n,
                have ==> best < i && pos@[best as int] < lv[best as int].len(),
                have ==> forall|k: int|
                    0 <= k < i && pos@[k] < lv[k].len() ==> lex_le(
                        lv[best as int][pos@[best as int] as int].0,
                        (#[trigger] lv[k][pos@[k] as int]).0,
                    ),
                !have ==> forall|k: int| 0 <= k < i ==> #[trigger] pos@[k] >= lv[k].len(),
            decreases n - i,
        {
            let p = pos[i];
            let row = &inputs[i];
            if p < row.len() {
                proof {
                    assert(lv[i as int] == entries_view(row@));
                }
                if !have {
                    best = i;
                    have = true;
                } else {
                    let cur = &row[p];
                    let brow = &inputs[best];
                    let b = &brow[pos[best]];
                    proof {
                        assert(pair_view(row@[p as int]) == lv[i as int][p as int]);
                        assert(pair_view(brow@[pos@[best as int] as int])
                            == lv[best as int][pos@[best as int] as int]);
                    }
                    if key_lt(cur.0.as_str(), b.0.as_str()) {
                        proof {
                            let old_best = best as int;
                            let nb = lv[i as int][p as int].0;
                            assert forall|k: int|
                                0 <= k < i + 1 && pos@[k] < lv[k].len() implies lex_le(
                                nb,
                                (#[trigger] lv[k][pos@[k] as int]).0,
                            ) by {
                                if k < i {
                                    lemma_lex_le_trans(
                                        nb,
                                        lv[old_best][pos@[old_best] as int].0,
                                        lv[k][pos@[k] as int].0,
                                    );
                                }
                            }
                        }
                        best = i;
                    } else {
                        proof {
                            lemma_lex_le_iff_not_gt(
                                lv[best as int][pos@[best as int] as int].0,
                                lv[i as int][p as int].0,
                            );
                        }
                    }
                }
            }
            i += 1;
        }
        if !have {
            proof {
                lemma_rem_sum_done(lv, pos@);
                assert(entries_view(out@).to_multiset().add(
                    Multiset::<(Seq<char>, Val)>::empty(),
                ) =~= entries_view(out@).to_multiset());
            }
            return out;
        }
        let row = &inputs[best];
        let rl = row.len();
        let p = pos[best];
        let e = &row[p];
        let ghost prev_out = out@;
        let ghost prev_pos = pos@;
        let ghost x = lv[best as int][p as int];
        proof {
            assert(pair_view(row@[p as int]) == x);
            assert(p < rl);
        }
        out.push((e.0.clone(), e.1));
        let q = p + 1;
        let pe = vec_index_mut(&mut pos, best);
        *pe = q;
        proof {
            broadcast use group_to_multiset_ensures;

            assert(pos@ =~= prev_pos.update(best as int, q));
            assert(out@ == prev_out.push(out@.last()));
            lemma_entries_view_push(prev_out, out@.last());
            assert(pair_view(out@.last()) == x);
            let pm = entries_view(prev_out);
            let nm = entries_view(out@);
            assert(nm == pm.push(x));
            // sortedness
            assert(pm.len() > 0 ==> lex_le(pm.last().0, x.0));
            lemma_key_sorted_push(pm, x);
            // multiset bookkeeping
            lemma_rem_sum_advance(lv, prev_pos, best as int, q);
            assert(nm.to_multiset() == pm.to_multiset().insert(x));
            assert(nm.to_multiset().add(rem_sum(lv, pos@)) =~= pm.to_multiset().add(
                rem_sum(lv, prev_pos),
            ));
            // the frontier: the new last entry sits at or below every
            // remaining entry
            assert forall|i2: int, j: int|
                0 <= i2 < n && pos@[i2] <= j < lv[i2].len() implies lex_le(
                nm.last().0,
                (#[trigger] lv[i2][j]).0,
            ) by {
                let h = lv[i2][prev_pos[i2] as int];
                assert(lex_le(x.0, h.0));
                if j > prev_pos[i2] as int {
                    assert(lex_le(h.0, lv[i2][j].0));
                    lemma_lex_le_trans(x.0, h.0, lv[i2][j].0);
                }
            }
            // termination: one entry moved from the remainder to the output
            assert(rem_sum(lv, prev_pos).len() == rem_sum(lv, pos@).len() + 1);
        }
    }
}

} // verus!
