//! Shared executable walks over an explicit list of layers in recency order
//! (newest first): the merged point lookup and the merged bounded scan. Every
//! view type delegates its reads to these.

use vstd::prelude::*;

use crate::key_range::KeyRange;
use crate::level_model::{
    entries_view, key_sorted, lemma_multiset_sum_congruent, lemma_multiset_sum_singleton,
    lemma_stack_get_singleton, lemma_stack_get_skip_step, level_get, level_range, level_view,
    multiset_sum, sentinel, stack_get, stack_inv, stack_ranges, strictly_sorted,
};
use crate::map_api::MapApiRO;
use crate::merge::{kmerge, vec_views};
use crate::{Level, Val};

verus! {

/// The models of a sequence of borrowed layers.
pub open spec fn views_of(ls: Seq<&Level>) -> Seq<Seq<(Seq<char>, Val)>> {
    ls.map_values(|l: &Level| level_view(*l))
}

/// The merged point lookup over layers in recency order: the first
/// non-sentinel value wins; a stored sentinel falls through to older layers.
pub fn stack_get_levels(levels: &Vec<&Level>, key: &String) -> (r: Val)
    requires
        stack_inv(views_of(levels@)),
    ensures
        r == stack_get(views_of(levels@), key@),
{
    let ghost ls = views_of(levels@);
    proof {
        assert(ls.skip(0) =~= ls);
    }
    let n = levels.len();
    let mut i: usize = 0;
    while i < n
        invariant
            i <= n,
            n == levels@.len(),
            ls == views_of(levels@),
            stack_inv(ls),
            stack_get(ls, key@) == stack_get(ls.skip(i as int), key@),
        decreases n - i,
    {
        let l: &Level = levels[i];
        proof {
            assert(ls[i as int] == level_view(*l));
            assert(strictly_sorted(level_view(*l)));
            assert forall|j: int|
                0 <= j < l.levels_model().len() implies strictly_sorted(
                #[trigger] l.levels_model()[j],
            ) by {
                assert(l.levels_model()[j] == level_view(*l));
            }
        }
        let g = l.get(key);
        proof {
            lemma_stack_get_singleton(level_view(*l), key@);
            assert(g == level_get(ls[i as int], key@));
        }
        if g.0 != 0 {
            proof {
                assert(ls.skip(i as int).len() > 0);
                assert(ls.skip(i as int)[0] == ls[i as int]);
                assert(g != sentinel());
                assert(stack_get(ls.skip(i as int), key@) == g);
            }
            return g;
        }
        proof {
            assert(g == sentinel());
            lemma_stack_get_skip_step(ls, key@, i as int);
        }
        i += 1;
    }
    proof {
        assert(ls.skip(n as int) =~= Seq::<Seq<(Seq<char>, Val)>>::empty());
    }
    Val(0)
}

/// The merged bounded scan over layers in recency order: each layer's own
/// bounded entries, k-way merged into one key-ascending sequence.
pub fn stack_range_levels(levels: &Vec<&Level>, bounds: &KeyRange) -> (out: Vec<(String, Val)>)
    requires
        stack_inv(views_of(levels@)),
    ensures
        key_sorted(entries_view(out@)),
        entries_view(out@).to_multiset() == multiset_sum(stack_ranges(views_of(levels@), *bounds)),
{
    let ghost ls = views_of(levels@);
    let n = levels.len();
    let mut parts: Vec<Vec<(String, Val)>> = Vec::new();
    let mut i: usize = 0;
    while i < n
        invariant
            i <= n,
            n == levels@.len(),
            ls == views_of(levels@),
            stack_inv(ls),
            parts@.len() == i,
            forall|j: int| 0 <= j < i ==> key_sorted(#[trigger] vec_views(parts@)[j]),
            forall|j: int|
                0 <= j < i ==> (#[trigger] vec_views(parts@)[j]).to_multiset() == level_range(
                    ls[j],
                    *bounds,
                ).to_multiset(),
        decreases n - i,
    {
        let l: &Level = levels[i];
        proof {
            assert(ls[i as int] == level_view(*l));
            assert forall|j: int|
                0 <= j < l.levels_model().len() implies strictly_sorted(
                #[trigger] l.levels_model()[j],
            ) by {
                assert(l.levels_model()[j] == level_view(*l));
            }
        }
        let part = l.range(bounds);
        let ghost prev_parts = parts@;
        parts.push(part);
        proof {
            lemma_multiset_sum_singleton(level_range(level_view(*l), *bounds));
            assert(stack_ranges(l.levels_model(), *bounds) =~= seq![
                level_range(level_view(*l), *bounds),
            ]);
            assert forall|j: int| 0 <= j < i + 1 implies key_sorted(#[trigger] vec_views(parts@)[j])
                && vec_views(parts@)[j].to_multiset() == level_range(ls[j], *bounds).to_multiset()
                by {
                if j < i {
                    assert(parts@[j] == prev_parts[j]);
                    assert(vec_views(parts@)[j] == vec_views(prev_parts)[j]);
                } else {
                    assert(vec_views(parts@)[j] == entries_view(part@));
                }
            }
        }
        i += 1;
    }
    let out = kmerge(&parts);
    proof {
        assert(vec_views(parts@).len() == stack_ranges(ls, *bounds).len());
        assert forall|j: int|
            0 <= j < vec_views(parts@).len() implies (#[trigger] vec_views(parts@)[j]).to_multiset()
            == stack_ranges(ls, *bounds)[j].to_multiset() by {
            assert(stack_ranges(ls, *bounds)[j] == level_range(ls[j], *bounds));
        }
        lemma_multiset_sum_congruent(vec_views(parts@), stack_ranges(ls, *bounds));
    }
    out
}

} // verus!
