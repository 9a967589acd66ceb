//! `StaticLevels`: the immutable stack of shared, sealed layers. Built once
//! from layers ordered oldest to newest; reads iterate newest first.

use std::sync::Arc;

use vstd::prelude::*;

use crate::key_range::KeyRange;
use crate::level_model::level_view;
use crate::map_api::MapApiRO;
use crate::stack_ops::{stack_get_levels, stack_range_levels, views_of};
use crate::{Level, StaticLevels, Val};

verus! {

/// The models of a sequence of shared layers.
pub open spec fn arc_views(ls: Seq<Arc<Level>>) -> Seq<Seq<(Seq<char>, Val)>> {
    ls.map_values(|a: Arc<Level>| level_view(*a))
}

impl StaticLevels {
    /// Build a stack from shared layers ordered oldest to newest. The stack's
    /// model lists them newest first.
    pub fn new(levels: Vec<Arc<Level>>) -> (r: StaticLevels)
        ensures
            r.levels_model() == arc_views(levels@).reverse(),
    {
        let r = StaticLevels { levels };
        proof {
            assert(r.levels_model() == arc_views(r.levels@).reverse());
        }
        r
    }

    /// The layers, newest first.
    pub fn iter_levels(&self) -> (out: Vec<&Level>)
        ensures
            views_of(out@) == self.levels_model(),
    {
        let n = self.levels.len();
        let mut out: Vec<&Level> = Vec::new();
        let mut i: usize = 0;
        while i < n
            invariant
                i <= n,
                n == self.levels@.len(),
                out@.len() == i,
                forall|j: int|
                    0 <= j < i ==> views_of(out@)[j] == arc_views(self.levels@).reverse()[j],
        decreases n - i,
        {
            let l: &Level = &self.levels[n - 1 - i];
            let ghost prev = out@;
            out.push(l);
            proof {
                assert forall|j: int|
                    0 <= j < i + 1 implies views_of(out@)[j] == arc_views(
                    self.levels@,
                ).reverse()[j] by {
                    if j < i {
                        assert(out@[j] == prev[j]);
                        assert(views_of(out@)[j] == views_of(prev)[j]);
                    } else {
                        assert(views_of(out@)[j] == level_view(*l));
                        assert(arc_views(self.levels@).reverse()[j] == arc_views(self.levels@)[n
                            - 1 - j]);
                    }
                }
            }
            i += 1;
        }
        proof {
            assert(views_of(out@) =~= self.levels_model());
        }
        out
    }
}

impl Default for StaticLevels {
    /// An empty stack: no frozen layers at all.
    fn default() -> (r: Self)
        ensures
            r.levels_model() == Seq::<Seq<(Seq<char>, Val)>>::empty(),
    {
        let r = StaticLevels { levels: Vec::new() };
        proof {
            assert(arc_views(r.levels@) =~= Seq::<Seq<(Seq<char>, Val)>>::empty());
            assert(r.levels_model() =~= Seq::<Seq<(Seq<char>, Val)>>::empty());
        }
        r
    }
}

impl MapApiRO for StaticLevels {
    /// The sealed layers, newest first.
    closed spec fn levels_model(&self) -> Seq<Seq<(Seq<char>, Val)>> {
        arc_views(self.levels@).reverse()
    }

    fn get(&self, key: &String) -> (r: Val) {
        let lvls = self.iter_levels();
        stack_get_levels(&lvls, key)
    }

    fn range(&self, bounds: &KeyRange) -> (out: Vec<(String, Val)>) {
        let lvls = self.iter_levels();
        stack_range_levels(&lvls, bounds)
    }
}

} // verus!
