//! `LevelMap`: the owning container, one writable layer plus one frozen
//! stack, and the factory for the borrowed views.

use vstd::prelude::*;

use crate::key_range::KeyRange;
use crate::level_model::{level_set, level_view, stack_inv, stored_val, strictly_sorted};
use crate::map_api::{MapApi, MapApiRO};
use crate::stack_ops::{stack_get_levels, stack_range_levels, views_of};
use crate::{Level, LevelMap, Ref, RefMut, StaticLevels, Val};

verus! {

impl LevelMap {
    /// Build the owning container from a writable layer and a frozen stack.
    pub fn new(w: Level, frozen: StaticLevels) -> (r: LevelMap)
        ensures
            r.writable == w,
            r.frozen == frozen,
    {
        LevelMap { writable: w, frozen }
    }

    /// The layers in recency order: the writable layer first, then the frozen
    /// layers newest first.
    pub fn iter_levels(&self) -> (out: Vec<&Level>)
        ensures
            views_of(out@) == self.levels_model(),
    {
        let mut out: Vec<&Level> = Vec::new();
        out.push(&self.writable);
        let mut frozen_levels = self.frozen.iter_levels();
        let ghost frozen_part = frozen_levels@;
        out.append(&mut frozen_levels);
        proof {
            assert(out@ == seq![&self.writable] + frozen_part);
            assert(views_of(out@) =~= self.levels_model()) by {
                assert(out@.len() == 1 + frozen_part.len());
                assert forall|j: int| 0 <= j < out@.len() implies views_of(out@)[j]
                    == self.levels_model()[j] by {
                    if j > 0 {
                        assert(out@[j] == frozen_part[j - 1]);
                        assert(views_of(frozen_part)[j - 1] == level_view(*frozen_part[j - 1]));
                        assert(self.levels_model()[j] == self.frozen.levels_model()[j - 1]);
                    }
                }
            }
        }
        out
    }

    /// Borrow a read-only view of this map.
    pub fn to_ref(&self) -> (r: Ref<'_>)
        ensures
            *r.writable == self.writable,
            *r.frozen == self.frozen,
    {
        Ref::new(&self.writable, &self.frozen)
    }

    /// Borrow a writing view of this map, taking exclusive access to the
    /// writable layer for the duration of the borrow.
    pub fn to_ref_mut(&mut self) -> (r: RefMut<'_>)
        ensures
            *r.writable == old(self).writable,
            *r.frozen == old(self).frozen,
            *final(self) == (LevelMap {
                writable: *final(r.writable),
                frozen: old(self).frozen,
            }),
    {
        RefMut::new(&mut self.writable, &self.frozen)
    }
}

impl MapApiRO for LevelMap {
    /// The writable layer, then the frozen stack, newest first.
    open spec fn levels_model(&self) -> Seq<Seq<(Seq<char>, Val)>> {
        seq![level_view(self.writable)] + self.frozen.levels_model()
    }

    fn get(&self, key: &String) -> (r: Val) {
        let lvls = self.iter_levels();
        stack_get_levels(&lvls, key)
    }

    fn range(&self, bounds: &KeyRange) -> (out: Vec<(String, Val)>) {
        let lvls = self.iter_levels();
        stack_range_levels(&lvls, bounds)
    }
}

impl MapApi for LevelMap {
    fn set(&mut self, key: String, value: Option<Val>) -> (r: (Val, Val)) {
        let prev = {
            let lvls = self.iter_levels();
            stack_get_levels(&lvls, &key)
        };
        let (_local_prev, stored) = self.writable.set(key, value);
        proof {
            let om = old(self).levels_model();
            let nm = self.levels_model();
            let wom = seq![level_view(old(self).writable)];
            let wnm = seq![level_view(self.writable)];
            let wrote = level_set(wom[0], key@, stored_val(value));
            assert(wnm == wom.update(0, wrote));
            assert(wom.update(0, wrote)[0] == wrote);
            assert(wnm[0] == level_view(self.writable));
            assert(level_view(self.writable) == wrote);
            assert(om[0] == level_view(old(self).writable));
            assert(nm =~= om.update(0, level_set(om[0], key@, stored_val(value))));
            assert(stack_inv(nm)) by {
                assert(stack_inv(wnm));
                assert(strictly_sorted(wnm[0]));
                assert forall|j: int| 0 <= j < nm.len() implies strictly_sorted(
                    #[trigger] nm[j],
                ) by {
                    if j == 0 {
                        assert(nm[0] == level_view(self.writable));
                    } else {
                        assert(nm[j] == om[j]);
                    }
                }
            }
        }
        (prev, stored)
    }
}

} // verus!
