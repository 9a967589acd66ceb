//! The read operations for `&mut T`: an exclusive borrow of any reader reads
//! exactly as the reader itself does.

use vstd::prelude::*;

use crate::key_range::KeyRange;
use crate::map_api::MapApiRO;
use crate::Val;

verus! {

impl<'a, T: MapApiRO> MapApiRO for &'a mut T {
    open spec fn levels_model(&self) -> Seq<Seq<(Seq<char>, Val)>> {
        (**self).levels_model()
    }

    fn get(&self, key: &String) -> (r: Val) {
        (**self).get(key)
    }

    fn range(&self, bounds: &KeyRange) -> (out: Vec<(String, Val)>) {
        (**self).range(bounds)
    }
}

} // verus!
