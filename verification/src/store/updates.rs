use vstd::prelude::*;

use crate::update::{Update, UpdateView};
use crate::vec_map::VecMap;

verus! {

/// The updates waiting to be applied, by update id.
pub struct Updates {
    updates: VecMap<u64, Update>,
}

impl View for Updates {
    type V = Map<u64, UpdateView>;

    closed spec fn view(&self) -> Map<u64, UpdateView> {
        self.updates.map().map_values(|u: Update| u@)
    }
}

impl Updates {
    pub closed spec fn wf(&self) -> bool {
        self.updates.wf()
    }

    pub fn new() -> (r: Self)
        ensures
            r.wf(),
            r@ == Map::<u64, UpdateView>::empty(),
    {
        let r = Updates { updates: VecMap::new() };
        assert(r@ =~= Map::<u64, UpdateView>::empty());
        r
    }

    /// The greatest update id.
    pub fn last_update_id(&self) -> (r: Option<u64>)
        requires
            self.wf(),
        ensures
            match r {
                Some(n) => self@.contains_key(n) && forall|k: u64| #[trigger] self@.contains_key(k) ==> k <= n,
                None => self@.dom() =~= Set::<u64>::empty(),
            },
    {
        self.updates.max_key()
    }

    /// Records an update under an id.
    pub fn put_update(&mut self, update_id: u64, update: Update)
        requires
            old(self).wf(),
        ensures
            final(self).wf(),
            final(self)@ == old(self)@.insert(update_id, update@),
    {
        let ghost u = update@;
        self.updates.insert(update_id, update);
        assert(self@ =~= old(self)@.insert(update_id, u));
    }

    /// The update recorded under an id.
    pub fn update(&self, update_id: u64) -> (r: Option<&Update>)
        requires
            self.wf(),
        ensures
            match r {
                Some(u) => self@.contains_key(update_id) && u@ == self@[update_id],
                None => !self@.contains_key(update_id),
            },
    {
        self.updates.get(&update_id)
    }
}

} // verus!
