//! The updates of an index: they are recorded in the updates store under
//! increasing ids, then applied.

pub mod deletion_laws;
pub mod deletion_spec;
pub mod deletion_steps;
pub mod documents_deletion;

use vstd::prelude::*;

use crate::store::updates::Updates;
use crate::store::updates_results::UpdatesResults;
use crate::types::DocumentId;

verus! {

/// An update waiting in the updates store.
pub enum Update {
    DocumentsDeletion(Vec<DocumentId>),
}

/// The abstract value of an update.
pub enum UpdateView {
    DocumentsDeletion(Seq<DocumentId>),
}

impl View for Update {
    type V = UpdateView;

    open spec fn view(&self) -> UpdateView {
        match self {
            Update::DocumentsDeletion(ids) => UpdateView::DocumentsDeletion(ids@),
        }
    }
}

/// The id the next update takes: one more than the greatest id of the updates
/// store and of the update results store, or 0 when both are empty.
pub open spec fn is_next_update_id(updates: Set<u64>, results: Set<u64>, id: u64) -> bool {
    &&& !updates.contains(id)
    &&& !results.contains(id)
    &&& forall|k: u64| updates.contains(k) || results.contains(k) ==> k < id
    &&& (id == 0 || updates.contains((id - 1) as u64) || results.contains((id - 1) as u64))
}

/// The id that the next update takes.
pub fn next_update_id(updates_store: &Updates, updates_results_store: &UpdatesResults) -> (r: u64)
    requires
        updates_store.wf(),
        updates_results_store.wf(),
        !updates_store@.contains_key(u64::MAX),
        !updates_results_store@.contains(u64::MAX),
    ensures
        is_next_update_id(updates_store@.dom(), updates_results_store@, r),
        !updates_store@.contains_key(r),
        !updates_results_store@.contains(r),
        forall|k: u64| updates_store@.contains_key(k) || updates_results_store@.contains(k) ==> k < r,
        r == 0 || updates_store@.contains_key((r - 1) as u64) || updates_results_store@.contains((r - 1) as u64),
{
    let last_update_id = updates_store.last_update_id();
    let last_update_results_id = updates_results_store.last_update_id();
    let max_update_id = match (last_update_id, last_update_results_id) {
        (Some(a), Some(b)) => Some(if a < b { b } else { a }),
        (Some(a), None) => Some(a),
        (None, Some(b)) => Some(b),
        (None, None) => None,
    };
    match max_update_id {
        Some(n) => n + 1,
        None => 0,
    }
}

/// Recording an update under the next id never replaces an earlier update.
pub proof fn lemma_next_update_id_is_fresh(
    updates: Map<u64, UpdateView>,
    results: Set<u64>,
    id: u64,
    update: UpdateView,
)
    requires
        is_next_update_id(updates.dom(), results, id),
    ensures
        !updates.contains_key(id),
        updates.insert(id, update).dom() == updates.dom().insert(id),
        forall|k: u64| #[trigger] updates.contains_key(k) ==> updates.insert(id, update)[k] == updates[k],
{
    assert(updates.insert(id, update).dom() =~= updates.dom().insert(id));
}

/// The next update id is fresh and determined: it is the id of no update and
/// of no processed update, it exceeds every such id, and no other id is the
/// next one; when both stores are empty it is 0, and otherwise it is one more
/// than their greatest id.
pub proof fn lemma_next_update_id_is_one_past_the_greatest(updates: Set<u64>, results: Set<u64>, id: u64, other: u64)
    requires
        is_next_update_id(updates, results, id),
        is_next_update_id(updates, results, other),
    ensures
        !updates.contains(id),
        !results.contains(id),
        forall|k: u64| updates.contains(k) || results.contains(k) ==> k < id,
        updates.is_empty() && results.is_empty() ==> id == 0,
        id > 0 ==> (updates.contains((id - 1) as u64) || results.contains((id - 1) as u64)),
        other == id,
{
    if updates.is_empty() && results.is_empty() {
        if id > 0 {
            assert(updates.contains((id - 1) as u64) || results.contains((id - 1) as u64));
        }
    }
    if other < id {
        assert(id > 0);
        assert(updates.contains((id - 1) as u64) || results.contains((id - 1) as u64));
        assert(((id - 1) as u64) < other);
    }
    if id < other {
        assert(other > 0);
        assert(updates.contains((other - 1) as u64) || results.contains((other - 1) as u64));
        assert(((other - 1) as u64) < id);
    }
}

/// Two updates recorded one after the other take consecutive ids.
pub proof fn lemma_successive_update_ids(updates: Set<u64>, results: Set<u64>, first: u64, second: u64)
    requires
        is_next_update_id(updates, results, first),
        is_next_update_id(updates.insert(first), results, second),
    ensures
        second == first + 1,
{
    assert(first < second);
    let prev = (second - 1) as u64;
    if prev != first {
        assert(updates.contains(prev) || results.contains(prev));
        assert(prev < first);
    }
}

} // verus!
