//! `Level` as a one-layer map: the base case of the capability contracts,
//! with no merging involved.

use vstd::prelude::*;

use crate::key_order::{key_lt, lemma_lex_asym, lemma_lex_total, lex_lt};
use crate::key_range::KeyRange;
use crate::level_model::{
    entries_view, lemma_entries_view_insert, lemma_entries_view_push, lemma_entries_view_update,
    lemma_level_absent_get, lemma_level_get_at, lemma_level_get_skip_step,
    lemma_level_get_skip_zero, lemma_level_has_iff_exists, lemma_level_range_sorted,
    lemma_level_range_take_step, lemma_level_set_absent,
    lemma_level_set_found, lemma_multiset_sum_singleton, lemma_sorted_insert, lemma_sorted_update,
    lemma_stack_get_singleton, lemma_strict_is_key_sorted, level_get, level_range, level_set,
    level_view, pair_view, stack_get, stack_ranges, strictly_sorted,
};
use crate::map_api::{MapApi, MapApiRO};
use crate::{Level, Val};

verus! {

/// The number of leading entries whose keys come strictly before `key`: the
/// ordered position at which `key` belongs.
fn find_lower(entries: &Vec<(String, Val)>, key: &String) -> (i: usize)
    ensures
        i <= entries@.len(),
        forall|j: int| 0 <= j < i ==> lex_lt(entries_view(entries@)[j].0, key@),
        i < entries@.len() ==> !lex_lt(entries_view(entries@)[i as int].0, key@),
{
    let n = entries.len();
    let mut i: usize = 0;
    while i < n
        invariant
            i <= n,
            n == entries@.len(),
            forall|j: int| 0 <= j < i ==> lex_lt(entries_view(entries@)[j].0, key@),
        decreases n - i,
    {
        if !key_lt(entries[i].0.as_str(), key.as_str()) {
            return i;
        }
        i += 1;
    }
    i
}

impl MapApiRO for Level {
    /// A single layer is a one-layer stack.
    open spec fn levels_model(&self) -> Seq<Seq<(Seq<char>, Val)>> {
        seq![level_view(*self)]
    }

    fn get(&self, key: &String) -> (r: Val) {
        let ghost s = level_view(*self);
        proof {
            lemma_stack_get_singleton(s, key@);
            lemma_level_get_skip_zero(s, key@);
        }
        let n = self.entries.len();
        let mut i: usize = 0;
        while i < n
            invariant
                i <= n,
                n == self.entries@.len(),
                s == level_view(*self),
                level_get(s, key@) == level_get(s.skip(i as int), key@),
            decreases n - i,
        {
            let e = &self.entries[i];
            if e.0 == *key {
                proof {
                    assert(s.skip(i as int)[0] == s[i as int]);
                    assert(s[i as int] == pair_view(self.entries@[i as int]));
                    assert(level_get(s.skip(i as int), key@) == s[i as int].1);
                    lemma_stack_get_singleton(s, key@);
                }
                return e.1;
            }
            proof {
                assert(s[i as int] == pair_view(self.entries@[i as int]));
                lemma_level_get_skip_step(s, key@, i as int);
            }
            i += 1;
        }
        proof {
            assert(s.skip(n as int) =~= Seq::<(Seq<char>, Val)>::empty());
            lemma_stack_get_singleton(s, key@);
        }
        Val(0)
    }

    fn range(&self, bounds: &KeyRange) -> (out: Vec<(String, Val)>) {
        let ghost s = level_view(*self);
        let mut out: Vec<(String, Val)> = Vec::new();
        let n = self.entries.len();
        let mut i: usize = 0;
        while i < n
            invariant
                i <= n,
                n == self.entries@.len(),
                s == level_view(*self),
                entries_view(out@) == level_range(s.take(i as int), *bounds),
            decreases n - i,
        {
            let e = &self.entries[i];
            let keep = bounds.contains_key(e.0.as_str());
            proof {
                assert(s[i as int] == pair_view(self.entries@[i as int]));
                lemma_level_range_take_step(s, *bounds, i as int);
            }
            if keep {
                let ghost prev_out = out@;
                out.push((e.0.clone(), e.1));
                proof {
                    assert(out@ == prev_out.push(out@.last()));
                    lemma_entries_view_push(prev_out, out@.last());
                    assert(pair_view(out@.last()) == s[i as int]);
                }
            }
            i += 1;
        }
        proof {
            assert(s.take(n as int) =~= s);
            assert(self.levels_model()[0] == s);
            assert(strictly_sorted(s));
            lemma_level_range_sorted(s, *bounds);
            lemma_strict_is_key_sorted(level_range(s, *bounds));
            lemma_multiset_sum_singleton(level_range(s, *bounds));
            assert(stack_ranges(self.levels_model(), *bounds) =~= seq![level_range(s, *bounds)]);
        }
        out
    }
}

impl MapApi for Level {
    fn set(&mut self, key: String, value: Option<Val>) -> (r: (Val, Val)) {
        let ghost s = level_view(*old(self));
        proof {
            assert(old(self).levels_model()[0] == s);
            assert(strictly_sorted(s));
            lemma_stack_get_singleton(s, key@);
        }
        let v = match value {
            Some(x) => x,
            None => Val(0),
        };
        let n = self.entries.len();
        let i = find_lower(&self.entries, &key);
        let found = i < n && self.entries[i].0 == key;
        proof {
            assert forall|j: int| 0 <= j < i implies s[j].0 != key@ by {
                lemma_lex_asym(s[j].0, key@);
                lemma_lex_asym(key@, key@);
            }
        }
        if found {
            let prev = self.entries[i].1;
            proof {
                lemma_level_get_at(s, key@, i as int);
                lemma_level_set_found(s, key@, v, i as int);
                lemma_sorted_update(s, i as int, key@, v);
            }
            let ghost before = self.entries@;
            let kept = self.entries.remove(i);
            self.entries.insert(i, (key, v));
            proof {
                assert(self.entries@ =~= before.update(i as int, self.entries@[i as int]));
                assert(pair_view(self.entries@[i as int]) == (kept.0@, v));
                lemma_entries_view_update(before, i as int, self.entries@[i as int]);
                assert(entries_view(self.entries@) == s.update(i as int, (kept.0@, v)));
                assert(s.update(i as int, (kept.0@, v)) =~= s.update(i as int, (s[i as int].0, v)));
                assert(self.levels_model() =~= old(self).levels_model().update(
                    0,
                    level_set(s, kept.0@, v),
                ));
            }
            (prev, v)
        } else {
            proof {
                if i < n {
                    lemma_lex_total(s[i as int].0, key@);
                }
                assert forall|j: int| 0 <= j < s.len() implies s[j].0 != key@ by {
                    if j >= i {
                        if j > i {
                            assert(lex_lt(s[i as int].0, s[j].0));
                        }
                        lemma_lex_asym(key@, s[j].0);
                        lemma_lex_asym(key@, key@);
                        if s[j].0 == key@ {
                            assert(lex_lt(key@, s[j].0) || j == i);
                        }
                    }
                }
                lemma_level_has_iff_exists(s, key@);
                lemma_level_absent_get(s, key@);
                lemma_level_set_absent(s, key@, v, i as int);
                lemma_sorted_insert(s, i as int, key@, v);
            }
            let ghost before = self.entries@;
            let ghost kp = (key, v);
            self.entries.insert(i, (key, v));
            proof {
                lemma_entries_view_insert(before, i as int, kp);
                assert(entries_view(self.entries@) == s.insert(i as int, (key@, v)));
                assert(self.levels_model() =~= old(self).levels_model().update(
                    0,
                    level_set(s, key@, v),
                ));
            }
            (Val(0), v)
        }
    }
}

} // verus!
