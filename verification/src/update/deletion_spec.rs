//! What the deletion of a batch of documents makes of each store.

use vstd::prelude::*;

use crate::sdset_ops::without_documents;
use crate::store::main::MainView;
use crate::types::{DocIndex, DocumentId, Error, Number};

verus! {

/// The ids of a batch of documents, as a set.
pub open spec fn deletion_ids(deletion: Seq<DocumentId>) -> Set<u64> {
    deletion.map_values(|d: DocumentId| d.0).to_set()
}

/// The words of a document, none if the store has none for it.
pub open spec fn words_of(docs_words: Map<u64, Seq<Seq<u8>>>, id: u64) -> Seq<Seq<u8>> {
    if docs_words.contains_key(id) {
        docs_words[id]
    } else {
        Seq::empty()
    }
}

/// The documents among `ids` that hold `word`.
pub open spec fn ids_with_word(ids: Set<u64>, docs_words: Map<u64, Seq<Seq<u8>>>, word: Seq<u8>) -> Set<u64> {
    ids.filter(|id: u64| words_of(docs_words, id).contains(word))
}

/// One of the documents `ids` holds `word`.
pub open spec fn is_affected(ids: Set<u64>, docs_words: Map<u64, Seq<Seq<u8>>>, word: Seq<u8>) -> bool {
    exists|id: u64| #![trigger words_of(docs_words, id).contains(word)]
        ids.contains(id) && words_of(docs_words, id).contains(word)
}

/// The postings list of `word` without the documents among `ids` that hold
/// the word.
pub open spec fn pruned_postings(
    postings: Map<Seq<u8>, Seq<DocIndex>>,
    ids: Set<u64>,
    docs_words: Map<u64, Seq<Seq<u8>>>,
    word: Seq<u8>,
) -> Seq<DocIndex> {
    without_documents(postings[word], ids_with_word(ids, docs_words, word))
}

/// The postings lists after the deletion of `ids`: the list of each word of
/// a deleted document loses the entries of the deleted documents that hold
/// the word, and is removed if it becomes empty.
pub open spec fn postings_after(
    postings: Map<Seq<u8>, Seq<DocIndex>>,
    ids: Set<u64>,
    docs_words: Map<u64, Seq<Seq<u8>>>,
) -> Map<Seq<u8>, Seq<DocIndex>> {
    Map::new(
        |w: Seq<u8>| postings.contains_key(w) && (!is_affected(ids, docs_words, w)
            || pruned_postings(postings, ids, docs_words, w).len() > 0),
        |w: Seq<u8>| if is_affected(ids, docs_words, w) {
            pruned_postings(postings, ids, docs_words, w)
        } else {
            postings[w]
        },
    )
}

/// The words whose postings list the deletion of `ids` removes.
pub open spec fn removed_words(
    postings: Map<Seq<u8>, Seq<DocIndex>>,
    ids: Set<u64>,
    docs_words: Map<u64, Seq<Seq<u8>>>,
) -> Set<Seq<u8>> {
    Set::new(|w: Seq<u8>| postings.contains_key(w) && is_affected(ids, docs_words, w)
        && pruned_postings(postings, ids, docs_words, w).len() == 0)
}

/// The documents among `ids` that have words.
pub open spec fn touched_documents(ids: Set<u64>, docs_words: Map<u64, Seq<Seq<u8>>>) -> Set<u64> {
    ids.filter(|id: u64| words_of(docs_words, id).len() > 0)
}

/// The document has at least one field.
pub open spec fn has_fields(fields: Map<u64, Map<u16, Seq<u8>>>, id: u64) -> bool {
    fields.contains_key(id) && fields[id].len() > 0
}

/// The documents that the deletion of `ids` counts as deleted: those that
/// have words and fields.
pub open spec fn deleted_documents(
    ids: Set<u64>,
    docs_words: Map<u64, Seq<Seq<u8>>>,
    fields: Map<u64, Map<u16, Seq<u8>>>,
) -> Set<u64> {
    touched_documents(ids, docs_words).filter(|id: u64| has_fields(fields, id))
}

/// The set of all words after the deletion: the words whose postings list
/// was removed are gone; a missing set becomes the empty set.
pub open spec fn words_after(words: Option<Seq<Seq<u8>>>, removed: Set<Seq<u8>>) -> Seq<Seq<u8>> {
    match words {
        Some(ws) => ws.filter(|w: Seq<u8>| !removed.contains(w)),
        None => Seq::empty(),
    }
}

/// The ranked values after the deletion: the ranked attributes of the
/// deleted documents are gone.
pub open spec fn ranked_after(ranked: Map<(u64, u16), Number>, ids: Set<u64>, ranked_attrs: Set<u16>) -> Map<
    (u64, u16),
    Number,
> {
    Map::new(
        |k: (u64, u16)| ranked.contains_key(k) && !(ids.contains(k.0) && ranked_attrs.contains(k.1)),
        |k: (u64, u16)| ranked[k],
    )
}

/// The stores of an index that a deletion changes, by their abstract values.
pub struct IndexView {
    pub main: MainView,
    pub fields: Map<u64, Map<u16, Seq<u8>>>,
    pub postings: Map<Seq<u8>, Seq<DocIndex>>,
    pub docs_words: Map<u64, Seq<Seq<u8>>>,
}

/// The number of documents of the index would go below zero: the index has
/// a schema and fewer documents than the deletion counts as deleted.
pub open spec fn deletion_underflows(before: IndexView, deletion: Seq<DocumentId>) -> bool {
    &&& before.main.schema is Some
    &&& before.main.number_of_documents < deleted_documents(deletion_ids(deletion), before.docs_words, before.fields).len()
}

/// The deletion of `deletion` takes the index from `before` to `after`, with
/// `ranked` as the ranked values to prune, and answers `r`: without a schema
/// it fails with `SchemaMissing` and changes nothing; otherwise every store
/// becomes what the deletion makes of it.
pub open spec fn deletion_result(
    before: IndexView,
    ranked: Map<(u64, u16), Number>,
    deletion: Seq<DocumentId>,
    after: IndexView,
    r: Result<(), Error>,
) -> bool {
    let ids = deletion_ids(deletion);
    let deleted = deleted_documents(ids, before.docs_words, before.fields);
    &&& (r is Err <==> before.main.schema is None)
    &&& r is Err ==> r == Err::<(), Error>(Error::SchemaMissing) && after == before
    &&& r is Ok ==> after == IndexView {
        main: MainView {
            schema: before.main.schema,
            words: Some(words_after(before.main.words, removed_words(before.postings, ids, before.docs_words))),
            ranked_map: Some(ranked_after(ranked, ids, before.main.schema.unwrap().ranked_attrs())),
            number_of_documents: (before.main.number_of_documents - deleted.len()) as u64,
        },
        fields: before.fields.remove_keys(touched_documents(ids, before.docs_words)),
        postings: postings_after(before.postings, ids, before.docs_words),
        docs_words: before.docs_words.remove_keys(deleted),
    }
}

} // verus!
