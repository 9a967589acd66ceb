//! `RefMut`: like `Ref`, but with exclusive access to the writable layer, so
//! it also supports point writes. Reads are identical to `Ref`'s; a write
//! touches the writable layer only and never a frozen one.

use vstd::prelude::*;

use crate::key_range::KeyRange;
use crate::level_model::{
    level_set, level_view, stack_get, stack_inv, stored_val, strictly_sorted,
};
use crate::map_api::{MapApi, MapApiRO};
use crate::stack_ops::{stack_get_levels, stack_range_levels, views_of};
use crate::{Level, Ref, RefMut, StaticLevels, Val};

verus! {

impl<'d> RefMut<'d> {
    /// Compose a writing view from exclusive access to a writable layer and a
    /// frozen stack.
    pub fn new(w: &'d mut Level, frozen: &'d StaticLevels) -> (r: RefMut<'d>)
        ensures
            *r.writable == *old(w),
            *final(w) == *final(r.writable),
            r.frozen == frozen,
    {
        RefMut { writable: w, frozen }
    }

    /// The layers in recency order: the writable layer first, then the frozen
    /// layers newest first.
    pub fn iter_levels(&self) -> (out: Vec<&Level>)
        ensures
            views_of(out@) == self.levels_model(),
    {
        let mut out: Vec<&Level> = Vec::new();
        out.push(&*self.writable);
        let mut frozen_levels = self.frozen.iter_levels();
        let ghost frozen_part = frozen_levels@;
        out.append(&mut frozen_levels);
        proof {
            assert(out@ == seq![&*self.writable] + frozen_part);
            assert(views_of(out@) =~= self.levels_model()) by {
                assert(out@.len() == 1 + frozen_part.len());
                assert forall|j: int| 0 <= j < out@.len() implies views_of(out@)[j]
                    == self.levels_model()[j] by {
                    if j > 0 {
                        assert(out@[j] == frozen_part[j - 1]);
                        assert(views_of(frozen_part)[j - 1] == level_view(*frozen_part[j - 1]));
                        assert(self.levels_model()[j] == self.frozen.levels_model()[j - 1]);
                    }
                }
            }
        }
        out
    }

    /// Downgrade to a read-only view for the duration of a borrow.
    pub fn to_ref(&self) -> (r: Ref<'_>)
        ensures
            *r.writable == *old(self.writable),
            r.frozen == self.frozen,
    {
        Ref::new(&*self.writable, self.frozen)
    }

    /// Give up write access, turning this view into a read-only one.
    pub fn into_ref(self) -> (r: Ref<'d>)
        ensures
            *r.writable == *old(self.writable),
            *final(self.writable) == *old(self.writable),
            r.frozen == self.frozen,
    {
        Ref::new(self.writable, self.frozen)
    }

    /// Write `value` under `key` into the writable layer (`None` stores the
    /// sentinel), returning the previous merged value for `key` across the
    /// whole stack and the value stored. The frozen layers are never touched:
    /// only the writable layer changes.
    pub fn set(self, key: String, value: Option<Val>) -> (r: (Val, Val))
        requires
            stack_inv(self.levels_model()),
        ensures
            level_view(*final(self.writable)) == level_set(
                level_view(*old(self.writable)),
                key@,
                stored_val(value),
            ),
            strictly_sorted(level_view(*final(self.writable))),
            r.0 == stack_get(
                seq![level_view(*old(self.writable))] + self.frozen.levels_model(),
                key@,
            ),
            r.1 == stored_val(value),
    {
        let prev = {
            let lvls = self.iter_levels();
            stack_get_levels(&lvls, &key)
        };
        let (_local_prev, stored) = self.writable.set(key, value);
        proof {
            let om = seq![level_view(*old(self.writable))];
            let nm = seq![level_view(*final(self.writable))];
            let wrote = level_set(om[0], key@, stored_val(value));
            assert(om[0] == level_view(*old(self.writable)));
            assert(nm == om.update(0, wrote));
            assert(om.update(0, wrote)[0] == wrote);
            assert(nm[0] == level_view(*final(self.writable)));
            assert(stack_inv(nm));
            assert(strictly_sorted(nm[0]));
        }
        (prev, stored)
    }
}

impl<'d> MapApiRO for RefMut<'d> {
    /// The writable layer, then the frozen stack, newest first.
    open spec fn levels_model(&self) -> Seq<Seq<(Seq<char>, Val)>> {
        seq![level_view(*self.writable)] + self.frozen.levels_model()
    }

    fn get(&self, key: &String) -> (r: Val) {
        let lvls = self.iter_levels();
        stack_get_levels(&lvls, key)
    }

    fn range(&self, bounds: &KeyRange) -> (out: Vec<(String, Val)>) {
        let lvls = self.iter_levels();
        stack_range_levels(&lvls, bounds)
    }
}

} // verus!
