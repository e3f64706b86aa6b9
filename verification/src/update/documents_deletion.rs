use vstd::prelude::*;

use crate::fst_set::{set_empty, set_from_sorted, set_keys, words_view};
use crate::ranked_map::RankedMap;
use crate::sdset_ops::set_buf_from_dirty;
use crate::store::docs_words::DocsWords;
use crate::store::documents_fields::DocumentsFields;
use crate::store::main::{Main, MainView};
use crate::store::postings_lists::PostingsLists;
use crate::store::updates::Updates;
use crate::store::updates_results::UpdatesResults;
use crate::types::{DocumentId, Error};
use crate::update::deletion_spec::{
    deleted_documents, deletion_ids, deletion_result, deletion_underflows, ranked_after, removed_words, words_after,
    IndexView,
};
use crate::update::deletion_steps::{
    collect_words_documents, count_deleted_documents, document_ids, listed_attrs, prune_postings, remove_docs_words, words_without,
};
use crate::update::{is_next_update_id, next_update_id, Update, UpdateView};

verus! {

/// A call that adds documents to a batch, by what it is given.
pub enum BatchCall {
    /// `delete_document_by_id`
    ById(DocumentId),
    /// `extend`
    Extend(Seq<DocumentId>),
    /// `delete_document`, given the result of the extraction of the id
    Extracted(Result<Option<DocumentId>, Error>),
}

/// The documents that a call adds, in their order.
pub open spec fn call_ids(call: BatchCall) -> Seq<DocumentId> {
    match call {
        BatchCall::ById(id) => seq![id],
        BatchCall::Extend(ids) => ids,
        BatchCall::Extracted(Ok(Some(id))) => seq![id],
        BatchCall::Extracted(_) => Seq::empty(),
    }
}

/// The batch after a call: the documents the call adds come last.
pub open spec fn batch_after_call(batch: Seq<DocumentId>, call: BatchCall) -> Seq<DocumentId> {
    batch + call_ids(call)
}

/// Adding a document by its id appends that very id, whatever its value,
/// after the documents already in the batch.
pub proof fn lemma_by_id_appends(batch: Seq<DocumentId>, id: DocumentId)
    ensures
        batch_after_call(batch, BatchCall::ById(id)).len() == batch.len() + 1,
        forall|i: int| 0 <= i < batch.len() ==> #[trigger] batch_after_call(batch, BatchCall::ById(id))[i] == batch[i],
        batch_after_call(batch, BatchCall::ById(id))[batch.len() as int] == id,
{
}

/// Adding documents appends all of them, in their order, after the
/// documents already in the batch.
pub proof fn lemma_extend_appends(batch: Seq<DocumentId>, ids: Seq<DocumentId>)
    ensures
        batch_after_call(batch, BatchCall::Extend(ids)).len() == batch.len() + ids.len(),
        forall|i: int| 0 <= i < batch.len() ==> #[trigger] batch_after_call(batch, BatchCall::Extend(ids))[i] == batch[i],
        forall|j: int| 0 <= j < ids.len() ==> #[trigger] batch_after_call(batch, BatchCall::Extend(ids))[batch.len() + j] == ids[j],
        forall|x: DocumentId| ids.contains(x) ==> #[trigger] batch_after_call(batch, BatchCall::Extend(ids)).contains(x),
{
    let after = batch_after_call(batch, BatchCall::Extend(ids));
    assert forall|x: DocumentId| ids.contains(x) implies #[trigger] after.contains(x) by {
        let j = choose|j: int| 0 <= j < ids.len() && ids[j] == x;
        assert(after[batch.len() + j] == x);
    }
}

/// Adding a document by the result of the extraction of its id appends the
/// extracted id unchanged when there is one, and leaves the batch as it was
/// otherwise.
pub proof fn lemma_extracted_appends(batch: Seq<DocumentId>, extracted: Result<Option<DocumentId>, Error>)
    ensures
        extracted matches Ok(Some(id)) ==> {
            &&& batch_after_call(batch, BatchCall::Extracted(extracted)).len() == batch.len() + 1
            &&& forall|i: int| 0 <= i < batch.len() ==> #[trigger] batch_after_call(batch, BatchCall::Extracted(extracted))[i] == batch[i]
            &&& batch_after_call(batch, BatchCall::Extracted(extracted))[batch.len() as int] == id
        },
        !(extracted matches Ok(Some(_))) ==> batch_after_call(batch, BatchCall::Extracted(extracted)) == batch,
{
    if !(extracted matches Ok(Some(_))) {
        assert(batch + Seq::<DocumentId>::empty() =~= batch);
    }
}

/// A batch that starts empty and goes through the calls `calls` holds the
/// documents of the calls, in the order of the calls and with repeats:
/// nothing is sorted or deduplicated before the batch is recorded.
pub proof fn lemma_batch_keeps_calls(calls: Seq<BatchCall>, batches: Seq<Seq<DocumentId>>)
    requires
        batches.len() == calls.len() + 1,
        batches[0] == Seq::<DocumentId>::empty(),
        forall|i: int| 0 <= i < calls.len() ==> #[trigger] batches[i + 1] == batch_after_call(batches[i], calls[i]),
    ensures
        batches.last() == calls.map_values(|c: BatchCall| call_ids(c)).flatten(),
    decreases calls.len(),
{
    let all = calls.map_values(|c: BatchCall| call_ids(c));
    if calls.len() == 0 {
        assert(all =~= Seq::<Seq<DocumentId>>::empty());
        assert(batches.last() == batches[0]);
    } else {
        let n = calls.len() - 1;
        let fewer = calls.drop_last();
        let earlier = batches.drop_last();
        assert forall|i: int| 0 <= i < fewer.len() implies #[trigger] earlier[i + 1] == batch_after_call(earlier[i], fewer[i]) by {
            assert(batches[i + 1] == batch_after_call(batches[i], calls[i]));
        }
        lemma_batch_keeps_calls(fewer, earlier);
        let prior = fewer.map_values(|c: BatchCall| call_ids(c));
        assert(all =~= prior.push(call_ids(calls[n])));
        prior.lemma_flatten_push(call_ids(calls[n]));
        assert(batches[n + 1] == batch_after_call(batches[n], calls[n]));
        assert(earlier.last() == batches[n]);
    }
}

/// A batch of documents to delete, gathered before it is recorded as an
/// update.
pub struct DocumentsDeletion {
    documents: Vec<DocumentId>,
}

impl View for DocumentsDeletion {
    type V = Seq<DocumentId>;

    closed spec fn view(&self) -> Seq<DocumentId> {
        self.documents@
    }
}

impl DocumentsDeletion {
    /// An empty batch.
    pub fn new() -> (r: DocumentsDeletion)
        ensures
            r@ == Seq::<DocumentId>::empty(),
    {
        DocumentsDeletion { documents: Vec::new() }
    }

    /// Adds a document to the batch.
    pub fn delete_document_by_id(&mut self, document_id: DocumentId)
        ensures
            final(self)@ == batch_after_call(old(self)@, BatchCall::ById(document_id)),
            final(self)@ == old(self)@.push(document_id),
    {
        self.documents.push(document_id);
    }

    /// Adds a document to the batch by the id extracted from it: `extracted`
    /// is what the extraction of the identifier attribute gave. A document
    /// without the identifier is refused, and an error of the extraction is
    /// handed on; neither changes the batch.
    pub fn delete_document(&mut self, extracted: Result<Option<DocumentId>, Error>) -> (r: Result<(), Error>)
        ensures
            final(self)@ == batch_after_call(old(self)@, BatchCall::Extracted(extracted)),
            extracted matches Ok(Some(id)) ==> final(self)@ == old(self)@.push(id),
            !(extracted matches Ok(Some(_))) ==> final(self)@ == old(self)@,
            match extracted {
                Ok(Some(id)) => r is Ok,
                Ok(None) => r == Err::<(), Error>(Error::MissingDocumentId),
                Err(e) => r == Err::<(), Error>(e),
            },
    {
        let document_id = match extracted {
            Ok(Some(id)) => id,
            Ok(None) => return Err(Error::MissingDocumentId),
            Err(e) => return Err(e),
        };
        self.delete_document_by_id(document_id);
        Ok(())
    }

    /// Adds documents to the batch, in their order.
    pub fn extend(&mut self, document_ids: Vec<DocumentId>)
        ensures
            final(self)@ == batch_after_call(old(self)@, BatchCall::Extend(document_ids@)),
            final(self)@ == old(self)@ + document_ids@,
    {
        let mut document_ids = document_ids;
        self.documents.append(&mut document_ids);
    }

    /// Records the batch in the updates store under the next update id, and
    /// returns that id.
    pub fn finalize(self, updates_store: &mut Updates, updates_results_store: &UpdatesResults) -> (r: u64)
        requires
            old(updates_store).wf(),
            updates_results_store.wf(),
            !old(updates_store)@.contains_key(u64::MAX),
            !updates_results_store@.contains(u64::MAX),
        ensures
            final(updates_store).wf(),
            is_next_update_id(old(updates_store)@.dom(), updates_results_store@, r),
        !old(updates_store)@.contains_key(r),
        !updates_results_store@.contains(r),
        forall|k: u64| old(updates_store)@.contains_key(k) || updates_results_store@.contains(k) ==> k < r,
        r == 0 || old(updates_store)@.contains_key((r - 1) as u64) || updates_results_store@.contains((r - 1) as u64),
            !old(updates_store)@.contains_key(r),
            !updates_results_store@.contains(r),
            forall|k: u64| old(updates_store)@.contains_key(k) || updates_results_store@.contains(k) ==> k < r,
            r == 0 || old(updates_store)@.contains_key((r - 1) as u64) || updates_results_store@.contains((r - 1) as u64),
            final(updates_store)@ == old(updates_store)@.insert(r, UpdateView::DocumentsDeletion(self@)),
    {
        push_documents_deletion(updates_store, updates_results_store, self.documents)
    }
}

/// Records a deletion in the updates store under the next update id, and
/// returns that id.
pub fn push_documents_deletion(
    updates_store: &mut Updates,
    updates_results_store: &UpdatesResults,
    deletion: Vec<DocumentId>,
) -> (r: u64)
    requires
        old(updates_store).wf(),
        updates_results_store.wf(),
        !old(updates_store)@.contains_key(u64::MAX),
        !updates_results_store@.contains(u64::MAX),
    ensures
        final(updates_store).wf(),
        is_next_update_id(old(updates_store)@.dom(), updates_results_store@, r),
        !old(updates_store)@.contains_key(r),
        !updates_results_store@.contains(r),
        forall|k: u64| old(updates_store)@.contains_key(k) || updates_results_store@.contains(k) ==> k < r,
        r == 0 || old(updates_store)@.contains_key((r - 1) as u64) || updates_results_store@.contains((r - 1) as u64),
        final(updates_store)@ == old(updates_store)@.insert(r, UpdateView::DocumentsDeletion(deletion@)),
{
    let last_update_id = next_update_id(updates_store, updates_results_store);
    let update = Update::DocumentsDeletion(deletion);
    updates_store.put_update(last_update_id, update);
    last_update_id
}

/// Deletes the documents `deletion` from the index.
///
/// The ranked attributes of the deleted documents are removed from
/// `ranked_map`, which becomes the ranked map of the index. Each word of a
/// deleted document loses, in its postings list, the entries of the deleted
/// documents that hold it; a list left empty is removed, and so is its word
/// from the set of all words. The deleted documents that have words lose
/// their fields; those that also had fields lose their words, and the number
/// of documents goes down by their count.
///
/// Fails with `SchemaMissing`, changing nothing, when the index has no schema.
pub fn apply_documents_deletion(
    main_store: &mut Main,
    documents_fields_store: &mut DocumentsFields,
    postings_lists_store: &mut PostingsLists,
    docs_words_store: &mut DocsWords,
    ranked_map: RankedMap,
    deletion: Vec<DocumentId>,
) -> (r: Result<(), Error>)
    requires
        old(main_store).wf(),
        old(documents_fields_store).wf(),
        old(postings_lists_store).wf(),
        old(docs_words_store).wf(),
        ranked_map.wf(),
        !deletion_underflows(
            (IndexView {
                main: old(main_store)@,
                fields: old(documents_fields_store)@,
                postings: old(postings_lists_store)@,
                docs_words: old(docs_words_store)@,
            }),
            deletion@,
        ),
    ensures
        final(main_store).wf(),
        final(documents_fields_store).wf(),
        final(postings_lists_store).wf(),
        final(docs_words_store).wf(),
        deletion_result(
            (IndexView {
                main: old(main_store)@,
                fields: old(documents_fields_store)@,
                postings: old(postings_lists_store)@,
                docs_words: old(docs_words_store)@,
            }),
            ranked_map@,
            deletion@,
            (IndexView {
                main: final(main_store)@,
                fields: final(documents_fields_store)@,
                postings: final(postings_lists_store)@,
                docs_words: final(docs_words_store)@,
            }),
            r,
        ),
{
    broadcast use vstd::std_specs::hash::group_hash_axioms;

    let idset = set_buf_from_dirty(document_ids(&deletion));
    let ghost ids = deletion_ids(deletion@);
    assert(idset@.to_set() == ids);

    let ranked_attrs = match main_store.schema() {
        Some(schema) => schema.ranked_attributes(),
        None => return Err(Error::SchemaMissing),
    };
    let ghost attrs = old(main_store)@.schema.unwrap().ranked_attrs();
    assert(listed_attrs(ranked_attrs@) =~= attrs);

    let ghost postings = postings_lists_store@;
    let ghost docs_words = docs_words_store@;
    let ghost fields = documents_fields_store@;

    let ghost ranked0 = ranked_map@;
    let mut ranked_map = ranked_map;
    let words_document_ids = collect_words_documents(docs_words_store, &mut ranked_map, &ranked_attrs, &idset);

    let (removed_words_list, deleted_documents_list) = prune_postings(
        postings_lists_store,
        documents_fields_store,
        &words_document_ids,
        Ghost(ids),
        Ghost(docs_words),
    );

    let ghost deleted = deleted_documents(ids, docs_words, fields);
    let deleted_documents_len = deleted_documents_list.len() as u64;
    assert(deleted_documents_len == deleted.len());
    remove_docs_words(docs_words_store, &deleted_documents_list);

    let ghost removed = removed_words(postings, ids, docs_words);
    assert(words_view(removed_words_list@).to_set() =~= removed);
    let words = match main_store.words_fst() {
        Some(words_set) => {
            let keys = set_keys(words_set);
            let kept = words_without(&keys, &removed_words_list);
            assert(words_view(kept@) =~= words_after(old(main_store)@.words, removed)) by {
                assert((|w: Seq<u8>| !words_view(removed_words_list@).contains(w)) =~= (|w: Seq<u8>| !removed.contains(w)));
            }
            set_from_sorted(&kept)
        },
        None => set_empty(),
    };

    main_store.put_words_fst(words);
    main_store.put_ranked_map(ranked_map);
    let n = main_store.number_of_documents();
    assert(n >= deleted_documents_len);
    main_store.put_number_of_documents(n - deleted_documents_len);
    assert(main_store@ =~= (MainView {
        schema: old(main_store)@.schema,
        words: Some(words_after(old(main_store)@.words, removed)),
        ranked_map: Some(ranked_after(ranked0, ids, attrs)),
        number_of_documents: (old(main_store)@.number_of_documents - deleted.len()) as u64,
    }));
    Ok(())
}

/// Deletes the documents `deletion` from the index as
/// [`apply_documents_deletion`] does, unless the number of documents would go
/// below zero: then it changes nothing and returns `None`.
pub fn try_apply_documents_deletion(
    main_store: &mut Main,
    documents_fields_store: &mut DocumentsFields,
    postings_lists_store: &mut PostingsLists,
    docs_words_store: &mut DocsWords,
    ranked_map: RankedMap,
    deletion: Vec<DocumentId>,
) -> (r: Option<Result<(), Error>>)
    requires
        old(main_store).wf(),
        old(documents_fields_store).wf(),
        old(postings_lists_store).wf(),
        old(docs_words_store).wf(),
        ranked_map.wf(),
    ensures
        final(main_store).wf(),
        final(documents_fields_store).wf(),
        final(postings_lists_store).wf(),
        final(docs_words_store).wf(),
        r is None <==> deletion_underflows(
            (IndexView {
                main: old(main_store)@,
                fields: old(documents_fields_store)@,
                postings: old(postings_lists_store)@,
                docs_words: old(docs_words_store)@,
            }),
            deletion@,
        ),
        r is None ==> final(main_store)@ == old(main_store)@ && final(documents_fields_store)@ == old(
            documents_fields_store,
        )@ && final(postings_lists_store)@ == old(postings_lists_store)@ && final(docs_words_store)@ == old(
            docs_words_store,
        )@,
        r matches Some(res) ==> deletion_result(
            (IndexView {
                main: old(main_store)@,
                fields: old(documents_fields_store)@,
                postings: old(postings_lists_store)@,
                docs_words: old(docs_words_store)@,
            }),
            ranked_map@,
            deletion@,
            (IndexView {
                main: final(main_store)@,
                fields: final(documents_fields_store)@,
                postings: final(postings_lists_store)@,
                docs_words: final(docs_words_store)@,
            }),
            res,
        ),
{
    let idset = set_buf_from_dirty(document_ids(&deletion));
    let count = count_deleted_documents(docs_words_store, documents_fields_store, &idset);
    if main_store.schema().is_some() && (main_store.number_of_documents() as u128) < (count as u128) {
        return None;
    }
    Some(
        apply_documents_deletion(
            main_store,
            documents_fields_store,
            postings_lists_store,
            docs_words_store,
            ranked_map,
            deletion,
        ),
    )
}

} // verus!
