//! `Ref`: the read-only view over one writable layer and one frozen stack.
//! Reads treat the writable layer as the newest layer of all.

use vstd::prelude::*;

use crate::key_range::KeyRange;
use crate::level_model::level_view;
use crate::map_api::MapApiRO;
use crate::stack_ops::{stack_get_levels, stack_range_levels, views_of};
use crate::{Level, Ref, StaticLevels, Val};

verus! {

impl<'d> Ref<'d> {
    /// Compose a read-only view from a writable layer and a frozen stack.
    pub fn new(w: &'d Level, frozen: &'d StaticLevels) -> (r: Ref<'d>)
        ensures
            r.writable == w,
            r.frozen == frozen,
    {
        Ref { writable: w, frozen }
    }

    /// The layers in recency order: the writable layer first, then the frozen
    /// layers newest first.
    pub fn iter_levels(&self) -> (out: Vec<&'d Level>)
        ensures
            views_of(out@) == self.levels_model(),
    {
        let mut out: Vec<&Level> = Vec::new();
        out.push(self.writable);
        let mut frozen_levels = self.frozen.iter_levels();
        let ghost frozen_part = frozen_levels@;
        out.append(&mut frozen_levels);
        proof {
            assert(out@ == seq![self.writable] + frozen_part);
            assert(views_of(out@) =~= self.levels_model()) by {
                assert(out@.len() == 1 + frozen_part.len());
                assert(out@[0] == self.writable);
                assert forall|j: int| 0 <= j < out@.len() implies views_of(out@)[j]
                    == self.levels_model()[j] by {
                    if j > 0 {
                        assert(out@[j] == frozen_part[j - 1]);
                        assert(views_of(frozen_part)[j - 1] == level_view(*frozen_part[j - 1]));
                        assert(self.levels_model()[j] == self.frozen.levels_model()[j - 1]);
                    }
                }
            }
        }
        out
    }
}

impl<'d> MapApiRO for Ref<'d> {
    /// The writable layer, then the frozen stack, newest first.
    open spec fn levels_model(&self) -> Seq<Seq<(Seq<char>, Val)>> {
        seq![level_view(*self.writable)] + self.frozen.levels_model()
    }

    fn get(&self, key: &String) -> (r: Val) {
        let lvls = self.iter_levels();
        stack_get_levels(&lvls, key)
    }

    fn range(&self, bounds: &KeyRange) -> (out: Vec<(String, Val)>) {
        let lvls = self.iter_levels();
        stack_range_levels(&lvls, bounds)
    }
}

} // verus!
