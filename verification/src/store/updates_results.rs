use vstd::prelude::*;

use crate::vec_map::VecMap;

verus! {

/// The ids of the updates that have been processed.
pub struct UpdatesResults {
    results: VecMap<u64, ()>,
}

impl View for UpdatesResults {
    type V = Set<u64>;

    closed spec fn view(&self) -> Set<u64> {
        self.results.map().dom()
    }
}

impl UpdatesResults {
    pub closed spec fn wf(&self) -> bool {
        self.results.wf()
    }

    pub fn new() -> (r: Self)
        ensures
            r.wf(),
            r@ == Set::<u64>::empty(),
    {
        let r = UpdatesResults { results: VecMap::new() };
        assert(r@ =~= Set::<u64>::empty());
        r
    }

    /// The greatest id of a processed update.
    pub fn last_update_id(&self) -> (r: Option<u64>)
        requires
            self.wf(),
        ensures
            match r {
                Some(n) => self@.contains(n) && forall|k: u64| #[trigger] self@.contains(k) ==> k <= n,
                None => self@ =~= Set::<u64>::empty(),
            },
    {
        self.results.max_key()
    }

    /// Records that an update has been processed.
    pub fn put_update_result(&mut self, update_id: u64)
        requires
            old(self).wf(),
        ensures
            final(self).wf(),
            final(self)@ == old(self)@.insert(update_id),
    {
        self.results.insert(update_id, ());
        assert(self@ =~= old(self)@.insert(update_id));
    }
}

} // verus!
