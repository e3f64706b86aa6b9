//! The steps of the deletion of a batch of documents.

use vstd::prelude::*;

use std::collections::HashSet;

use crate::fst_set::{bytes_lt, set_keys, strictly_sorted, words_view};
use crate::ranked_map::RankedMap;
use crate::sdset_ops::{
    difference_by_document, set_buf_from_dirty, sorted_by_document, strictly_increasing, without_documents,
};
use crate::store::docs_words::DocsWords;
use crate::store::documents_fields::DocumentsFields;
use crate::store::postings_lists::PostingsLists;
use crate::update::deletion_spec::{
    deleted_documents, has_fields, ids_with_word, is_affected, postings_after, pruned_postings, ranked_after,
    removed_words, touched_documents, words_of,
};
use crate::types::{attr_listed, DocIndex, DocumentId, SchemaAttr};
use crate::vec_map::bytes_eq;

verus! {

/// For each word, the documents of the batch that hold it.
pub type WordsDocuments = Vec<(Vec<u8>, Vec<u64>)>;

/// The words of the entries, in their order.
pub open spec fn entry_words(e: Seq<(Vec<u8>, Vec<u64>)>) -> Seq<Seq<u8>> {
    e.map_values(|x: (Vec<u8>, Vec<u64>)| x.0@)
}

/// The documents of an entry, as a set.
pub open spec fn entry_ids(e: Seq<(Vec<u8>, Vec<u64>)>, j: int) -> Set<u64> {
    e[j].1@.to_set()
}

/// The ids of a batch, in its order.
pub fn document_ids(deletion: &Vec<DocumentId>) -> (r: Vec<u64>)
    ensures
        r@ == deletion@.map_values(|d: DocumentId| d.0),
{
    let mut r: Vec<u64> = Vec::new();
    let n = deletion.len();
    for i in 0..n
        invariant
            n == deletion@.len(),
            r@ == deletion@.take(i as int).map_values(|d: DocumentId| d.0),
    {
        r.push(deletion[i].0);
        assert(deletion@.take(i + 1).map_values(|d: DocumentId| d.0) =~= deletion@.take(i as int).map_values(
            |d: DocumentId| d.0).push(deletion@[i as int].0));
    }
    assert(deletion@.take(n as int) =~= deletion@);
    r
}

/// The keys of the ranked values of the attributes `attrs` of document `id`.
pub open spec fn ranks_of(id: u64, attrs: Seq<SchemaAttr>) -> Set<(u64, u16)> {
    Set::new(|k: (u64, u16)| k.0 == id && attr_listed(attrs, k.1))
}

/// Removes the ranked values of the attributes `attrs` of document `id`.
pub fn remove_document_ranks(ranked_map: &mut RankedMap, id: u64, attrs: &Vec<SchemaAttr>)
    requires
        old(ranked_map).wf(),
    ensures
        final(ranked_map).wf(),
        final(ranked_map)@ == old(ranked_map)@.remove_keys(ranks_of(id, attrs@)),
        forall|a: u16| attr_listed(attrs@, a) ==> !#[trigger] final(ranked_map)@.contains_key((id, a)),
        forall|k: (u64, u16)| k.0 != id || !attr_listed(attrs@, k.1) ==> (#[trigger] final(ranked_map)@.contains_key(k)
            == old(ranked_map)@.contains_key(k) && (old(ranked_map)@.contains_key(k) ==> final(ranked_map)@[k]
            == old(ranked_map)@[k])),
{
    let n = attrs.len();
    for i in 0..n
        invariant
            n == attrs@.len(),
            ranked_map.wf(),
            ranked_map@ == old(ranked_map)@.remove_keys(ranks_of(id, attrs@.take(i as int))),
    {
        ranked_map.remove(DocumentId(id), attrs[i]);
        assert(ranked_map@ =~= old(ranked_map)@.remove_keys(ranks_of(id, attrs@.take(i + 1)))) by {
            assert forall|a: u16| attr_listed(attrs@.take(i + 1), a) <==> (attr_listed(attrs@.take(i as int), a)
                || a == attrs@[i as int].0) by {
                if attr_listed(attrs@.take(i + 1), a) {
                    let j = choose|j: int| 0 <= j < attrs@.take(i + 1).len() && #[trigger] attrs@.take(i + 1)[j].0 == a;
                    if j < i {
                        assert(attrs@.take(i as int)[j] == attrs@.take(i + 1)[j]);
                    }
                }
                if attr_listed(attrs@.take(i as int), a) {
                    let j = choose|j: int| 0 <= j < attrs@.take(i as int).len() && #[trigger] attrs@.take(i as int)[j].0 == a;
                    assert(attrs@.take(i as int)[j] == attrs@.take(i + 1)[j]);
                }
                if a == attrs@[i as int].0 {
                    assert(attrs@.take(i + 1)[i as int].0 == a);
                }
            }
        }
    }
    assert(attrs@.take(n as int) =~= attrs@);
    assert forall|a: u16| attr_listed(attrs@, a) implies !#[trigger] ranked_map@.contains_key((id, a)) by {
        assert(ranks_of(id, attrs@).contains((id, a)));
    }
}

/// Adds document `id` to the entry of `word`, or adds an entry for the word.
pub fn add_word_document(entries: &mut WordsDocuments, word: &Vec<u8>, id: u64)
    requires
        entry_words(old(entries)@).no_duplicates(),
    ensures
        entry_words(final(entries)@).no_duplicates(),
        entry_words(final(entries)@) == if entry_words(old(entries)@).contains(word@) {
            entry_words(old(entries)@)
        } else {
            entry_words(old(entries)@).push(word@)
        },
        forall|j: int| 0 <= j < final(entries)@.len() ==> #[trigger] entry_ids(final(entries)@, j) == (if j
            < old(entries)@.len() {
            entry_ids(old(entries)@, j)
        } else {
            Set::empty()
        }) + (if final(entries)@[j].0@ == word@ {
            set![id]
        } else {
            Set::empty()
        }),
{
    let n = entries.len();
    let mut j: usize = 0;
    while j < n
        invariant
            n == entries@.len(),
            entries@ == old(entries)@,
            entry_words(old(entries)@).no_duplicates(),
            j <= n,
            forall|k: int| 0 <= k < j ==> entries@[k].0@ != word@,
        decreases n - j,
    {
        if bytes_eq(&entries[j].0, word) {
            let ghost before = entries@;
            entries[j].1.push(id);
            assert(entry_words(entries@) =~= entry_words(before));
            assert(entry_words(before)[j as int] == word@);
            assert forall|k: int| 0 <= k < entries@.len() implies #[trigger] entry_ids(entries@, k) == (if k
                < old(entries)@.len() {
                entry_ids(old(entries)@, k)
            } else {
                Set::empty()
            }) + (if entries@[k].0@ == word@ {
                set![id]
            } else {
                Set::empty()
            }) by {
                if k == j {
                    assert(entries@[k].1@ == before[k].1@.push(id));
                    before[k].1@.lemma_push_to_set_commute(id);
                    assert(entry_ids(entries@, k) =~= entry_ids(before, k) + set![id]);
                } else {
                    assert(entries@[k] == before[k]);
                    assert(entry_words(before) == entry_words(old(entries)@));
                    assert(entry_words(before).no_duplicates());
                    assert(entry_words(before)[k] != entry_words(before)[j as int]);
                    assert(entry_ids(entries@, k) =~= entry_ids(before, k) + Set::empty());
                }
            }
            return;
        }
        j = j + 1;
    }
    let key = word.clone();
    assert(key@ =~= word@);
    let mut ids: Vec<u64> = Vec::new();
    ids.push(id);
    entries.push((key, ids));
    assert(entry_words(entries@) =~= entry_words(old(entries)@).push(word@));
    assert(!entry_words(old(entries)@).contains(word@)) by {
        if entry_words(old(entries)@).contains(word@) {
            let k = choose|k: int| 0 <= k < n && entry_words(old(entries)@)[k] == word@;
            assert(old(entries)@[k].0@ == word@);
        }
    }
    assert forall|k: int| 0 <= k < entries@.len() implies #[trigger] entry_ids(entries@, k) == (if k
        < old(entries)@.len() {
        entry_ids(old(entries)@, k)
    } else {
        Set::empty()
    }) + (if entries@[k].0@ == word@ {
        set![id]
    } else {
        Set::empty()
    }) by {
        if k == n {
            assert(entry_ids(entries@, k) =~= Set::<u64>::empty() + set![id]) by {
                assert(entries@[k].1@ =~= seq![id]);
                assert(seq![id][0] == id);
                assert(seq![id].to_set() =~= set![id]);
            }
        } else {
            assert(entries@[k] == old(entries)@[k]);
            assert(entry_ids(entries@, k) =~= entry_ids(old(entries)@, k) + Set::empty());
        }
    }
}

/// Adds document `id` to the entries of the words `words`.
pub fn add_document_words(entries: &mut WordsDocuments, words: &Vec<Vec<u8>>, id: u64)
    requires
        entry_words(old(entries)@).no_duplicates(),
    ensures
        entry_words(final(entries)@).no_duplicates(),
        final(entries)@.len() >= old(entries)@.len(),
        forall|j: int| 0 <= j < old(entries)@.len() ==> #[trigger] final(entries)@[j].0@ == old(entries)@[j].0@,
        forall|w: Seq<u8>| #[trigger] entry_words(final(entries)@).contains(w) <==> (entry_words(old(entries)@).contains(w)
            || words_view(words@).contains(w)),
        forall|j: int| 0 <= j < final(entries)@.len() ==> #[trigger] entry_ids(final(entries)@, j) == (if j
            < old(entries)@.len() {
            entry_ids(old(entries)@, j)
        } else {
            Set::empty()
        }) + (if words_view(words@).contains(final(entries)@[j].0@) {
            set![id]
        } else {
            Set::empty()
        }),
{
    let n = words.len();
    for i in 0..n
        invariant
            n == words@.len(),
            entry_words(entries@).no_duplicates(),
            entries@.len() >= old(entries)@.len(),
            forall|j: int| 0 <= j < old(entries)@.len() ==> #[trigger] entries@[j].0@ == old(entries)@[j].0@,
            forall|w: Seq<u8>| #[trigger] entry_words(entries@).contains(w) <==> (entry_words(old(entries)@).contains(w)
                || words_view(words@.take(i as int)).contains(w)),
            forall|j: int| 0 <= j < entries@.len() ==> #[trigger] entry_ids(entries@, j) == (if j
                < old(entries)@.len() {
                entry_ids(old(entries)@, j)
            } else {
                Set::empty()
            }) + (if words_view(words@.take(i as int)).contains(entries@[j].0@) {
                set![id]
            } else {
                Set::empty()
            }),
    {
        let ghost before = entries@;
        add_word_document(entries, &words[i], id);
        let ghost w_i = words@[i as int]@;
        assert(entry_words(entries@).len() == entries@.len());
        assert(entry_words(before).len() == before.len());
        assert(entries@.len() >= before.len());
        assert(words_view(words@.take(i + 1)) =~= words_view(words@.take(i as int)).push(w_i));
        assert forall|w: Seq<u8>| #[trigger] words_view(words@.take(i + 1)).contains(w) <==> (words_view(words@.take(i as int)).contains(w) || w == w_i) by {
            let a = words_view(words@.take(i as int));
            if a.push(w_i).contains(w) {
                let k = choose|k: int| 0 <= k < a.push(w_i).len() && a.push(w_i)[k] == w;
                if k < a.len() {
                    assert(a[k] == w);
                }
            }
            if a.contains(w) {
                let k = choose|k: int| 0 <= k < a.len() && a[k] == w;
                assert(a.push(w_i)[k] == w);
            }
            if w == w_i {
                assert(a.push(w_i)[a.len() as int] == w);
            }
        }
        assert forall|j: int| 0 <= j < old(entries)@.len() implies #[trigger] entries@[j].0@ == old(entries)@[j].0@ by {
            assert(entry_words(entries@)[j] == entry_words(before)[j]);
            assert(before[j].0@ == old(entries)@[j].0@);
        }
        assert forall|w: Seq<u8>| #[trigger] entry_words(entries@).contains(w) <==> (entry_words(old(entries)@).contains(w)
            || words_view(words@.take(i + 1)).contains(w)) by {
            if entry_words(before).contains(w_i) {
                assert(entry_words(entries@) == entry_words(before));
            } else {
                let b = entry_words(before);
                assert(entry_words(entries@) == b.push(w_i));
                if b.push(w_i).contains(w) {
                    let k = choose|k: int| 0 <= k < b.push(w_i).len() && b.push(w_i)[k] == w;
                    if k < b.len() {
                        assert(b[k] == w);
                    }
                }
                if b.contains(w) {
                    let k = choose|k: int| 0 <= k < b.len() && b[k] == w;
                    assert(b.push(w_i)[k] == w);
                }
                if w == w_i {
                    assert(b.push(w_i)[b.len() as int] == w);
                }
            }
        }
        assert forall|j: int| 0 <= j < entries@.len() implies #[trigger] entry_ids(entries@, j) == (if j
            < old(entries)@.len() {
            entry_ids(old(entries)@, j)
        } else {
            Set::empty()
        }) + (if words_view(words@.take(i + 1)).contains(entries@[j].0@) {
            set![id]
        } else {
            Set::empty()
        }) by {
            let wj = entries@[j].0@;
            assert(wj == entry_words(entries@)[j]);
            if j < before.len() {
                assert(entry_words(entries@)[j] == entry_words(before)[j]);
                assert(before[j].0@ == wj);
                assert(entry_ids(before, j) == (if j < old(entries)@.len() {
                    entry_ids(old(entries)@, j)
                } else {
                    Set::empty()
                }) + (if words_view(words@.take(i as int)).contains(wj) {
                    set![id]
                } else {
                    Set::empty()
                }));
            } else {
                assert(wj == w_i) by {
                    if entry_words(before).contains(w_i) {
                        assert(entry_words(entries@) == entry_words(before));
                    } else {
                        assert(entry_words(entries@) == entry_words(before).push(w_i));
                        assert(j == before.len());
                        assert(entry_words(before).push(w_i)[j] == w_i);
                    }
                }
                if words_view(words@.take(i as int)).contains(wj) {
                    assert(entry_words(before).contains(wj));
                    let k = choose|k: int| 0 <= k < before.len() && entry_words(before)[k] == wj;
                    assert(entry_words(before)[k] == entry_words(entries@)[k]);
                    assert(entry_words(entries@).no_duplicates());
                    assert(false);
                }
            }
            assert(entry_ids(entries@, j) =~= (if j < old(entries)@.len() {
                entry_ids(old(entries)@, j)
            } else {
                Set::empty()
            }) + (if words_view(words@.take(i + 1)).contains(wj) {
                set![id]
            } else {
                Set::empty()
            }));
        }
    }
    assert(words@.take(n as int) =~= words@);
}

/// The attribute numbers that `attrs` lists.
pub open spec fn listed_attrs(attrs: Seq<SchemaAttr>) -> Set<u16> {
    Set::new(|a: u16| attr_listed(attrs, a))
}

proof fn lemma_ids_with_word_insert(ids: Set<u64>, docs_words: Map<u64, Seq<Seq<u8>>>, word: Seq<u8>, id: u64)
    ensures
        ids_with_word(ids.insert(id), docs_words, word) == ids_with_word(ids, docs_words, word) + (if words_of(
            docs_words,
            id,
        ).contains(word) {
            set![id]
        } else {
            Set::empty()
        }),
        is_affected(ids.insert(id), docs_words, word) <==> (is_affected(ids, docs_words, word) || words_of(
            docs_words,
            id,
        ).contains(word)),
{
    assert(ids_with_word(ids.insert(id), docs_words, word) =~= ids_with_word(ids, docs_words, word) + (if words_of(
        docs_words,
        id,
    ).contains(word) {
        set![id]
    } else {
        Set::empty()
    }));
    if is_affected(ids.insert(id), docs_words, word) {
        let x = choose|x: u64| #![trigger words_of(docs_words, x).contains(word)]
            ids.insert(id).contains(x) && words_of(docs_words, x).contains(word);
        if x != id {
            assert(ids.contains(x));
        }
    }
    if is_affected(ids, docs_words, word) {
        let x = choose|x: u64| #![trigger words_of(docs_words, x).contains(word)]
            ids.contains(x) && words_of(docs_words, x).contains(word);
        assert(ids.insert(id).contains(x));
    }
    if words_of(docs_words, id).contains(word) {
        assert(ids.insert(id).contains(id));
    }
}

proof fn lemma_unaffected_has_no_ids(ids: Set<u64>, docs_words: Map<u64, Seq<Seq<u8>>>, word: Seq<u8>)
    requires
        !is_affected(ids, docs_words, word),
    ensures
        ids_with_word(ids, docs_words, word) == Set::<u64>::empty(),
{
    assert(ids_with_word(ids, docs_words, word) =~= Set::<u64>::empty()) by {
        assert forall|x: u64| !#[trigger] ids_with_word(ids, docs_words, word).contains(x) by {
            if ids_with_word(ids, docs_words, word).contains(x) {
                assert(words_of(docs_words, x).contains(word));
            }
        }
    }
}

/// Removes the ranked values of the attributes `attrs` of the documents
/// `idset`, and gathers, for each word of these documents, the documents
/// that hold it.
pub fn collect_words_documents(
    docs_words: &DocsWords,
    ranked_map: &mut RankedMap,
    attrs: &Vec<SchemaAttr>,
    idset: &Vec<u64>,
) -> (r: WordsDocuments)
    requires
        docs_words.wf(),
        old(ranked_map).wf(),
    ensures
        final(ranked_map).wf(),
        final(ranked_map)@ == ranked_after(old(ranked_map)@, idset@.to_set(), listed_attrs(attrs@)),
        entry_words(r@).no_duplicates(),
        forall|j: int| 0 <= j < r@.len() ==> #[trigger] entry_ids(r@, j) == ids_with_word(idset@.to_set(), docs_words@, r@[j].0@),
        forall|w: Seq<u8>| #[trigger] entry_words(r@).contains(w) <==> is_affected(idset@.to_set(), docs_words@, w),
{
    let mut entries: WordsDocuments = Vec::new();
    let n = idset.len();
    assert(idset@.take(0).to_set() =~= Set::<u64>::empty());
    assert(ranked_after(old(ranked_map)@, Set::<u64>::empty(), listed_attrs(attrs@)) =~= old(ranked_map)@);
    for i in 0..n
        invariant
            n == idset@.len(),
            docs_words.wf(),
            ranked_map.wf(),
            ranked_map@ == ranked_after(old(ranked_map)@, idset@.take(i as int).to_set(), listed_attrs(attrs@)),
            entry_words(entries@).no_duplicates(),
            forall|j: int| 0 <= j < entries@.len() ==> #[trigger] entry_ids(entries@, j) == ids_with_word(
                idset@.take(i as int).to_set(), docs_words@, entries@[j].0@),
            forall|w: Seq<u8>| #[trigger] entry_words(entries@).contains(w) <==> is_affected(
                idset@.take(i as int).to_set(), docs_words@, w),
    {
        let id = idset[i];
        let ghost prefix = idset@.take(i as int).to_set();
        assert(idset@.take(i + 1) =~= idset@.take(i as int).push(id));
        proof { idset@.take(i as int).lemma_push_to_set_commute(id); }
        assert(idset@.take(i + 1).to_set() == prefix.insert(id));
        let ghost ranked_before = ranked_map@;
        remove_document_ranks(ranked_map, id, attrs);
        assert(ranked_map@ =~= ranked_after(old(ranked_map)@, prefix.insert(id), listed_attrs(attrs@)));
        let ghost before = entries@;
        match docs_words.doc_words(DocumentId(id)) {
            Some(words) => {
                let keys = set_keys(words);
                assert(words_view(keys@) == words_of(docs_words@, id));
                add_document_words(&mut entries, &keys, id);
                assert forall|j: int| 0 <= j < entries@.len() implies #[trigger] entry_ids(entries@, j) == ids_with_word(
                    prefix.insert(id), docs_words@, entries@[j].0@) by {
                    let w = entries@[j].0@;
                    lemma_ids_with_word_insert(prefix, docs_words@, w, id);
                    if j >= before.len() {
                        assert(entry_words(entries@)[j] == w);
                        if entry_words(before).contains(w) {
                            let k = choose|k: int| 0 <= k < before.len() && entry_words(before)[k] == w;
                            assert(entries@[k].0@ == before[k].0@);
                            assert(entry_words(entries@)[k] == w);
                            assert(entry_words(entries@).no_duplicates());
                            assert(false);
                        }
                        lemma_unaffected_has_no_ids(prefix, docs_words@, w);
                    } else {
                        assert(before[j].0@ == w);
                    }
                }
                assert forall|w: Seq<u8>| #[trigger] entry_words(entries@).contains(w) <==> is_affected(
                    prefix.insert(id), docs_words@, w) by {
                    lemma_ids_with_word_insert(prefix, docs_words@, w, id);
                }
            },
            None => {
                assert(words_of(docs_words@, id) == Seq::<Seq<u8>>::empty());
                assert forall|j: int| 0 <= j < entries@.len() implies #[trigger] entry_ids(entries@, j) == ids_with_word(
                    prefix.insert(id), docs_words@, entries@[j].0@) by {
                    lemma_ids_with_word_insert(prefix, docs_words@, entries@[j].0@, id);
                    assert(ids_with_word(prefix, docs_words@, entries@[j].0@) + Set::empty() =~= ids_with_word(
                        prefix, docs_words@, entries@[j].0@));
                }
                assert forall|w: Seq<u8>| #[trigger] entry_words(entries@).contains(w) <==> is_affected(
                    prefix.insert(id), docs_words@, w) by {
                    lemma_ids_with_word_insert(prefix, docs_words@, w, id);
                }
            },
        }
    }
    assert(idset@.take(n as int) =~= idset@);
    entries
}

/// The postings list of a word after the documents `ids` are taken out of
/// it: unchanged if the word has none, removed if it becomes empty.
pub open spec fn postings_without(postings: Map<Seq<u8>, Seq<DocIndex>>, word: Seq<u8>, ids: Set<u64>) -> Map<
    Seq<u8>,
    Seq<DocIndex>,
> {
    if postings.contains_key(word) {
        if without_documents(postings[word], ids).len() > 0 {
            postings.insert(word, without_documents(postings[word], ids))
        } else {
            postings.remove(word)
        }
    } else {
        postings
    }
}

/// Takes the documents `ids` out of the postings list of `word` (and
/// records the word in `removed` if its list becomes empty), then removes
/// the fields of these documents, recording in `deleted` those that had some.
pub fn prune_word(
    postings: &mut PostingsLists,
    fields: &mut DocumentsFields,
    removed: &mut Vec<Vec<u8>>,
    deleted: &mut HashSet<u64>,
    word: &Vec<u8>,
    ids: &Vec<u64>,
)
    requires
        old(postings).wf(),
        old(fields).wf(),
    ensures
        final(postings).wf(),
        final(fields).wf(),
        final(postings)@ == postings_without(old(postings)@, word@, ids@.to_set()),
        words_view(final(removed)@) == words_view(old(removed)@) + (if old(postings)@.contains_key(word@)
            && without_documents(old(postings)@[word@], ids@.to_set()).len() == 0 {
            seq![word@]
        } else {
            Seq::empty()
        }),
        final(fields)@ == old(fields)@.remove_keys(ids@.to_set()),
        final(deleted)@ == old(deleted)@ + ids@.to_set().filter(|id: u64| has_fields(old(fields)@, id)),
{
    broadcast use vstd::std_specs::hash::group_hash_axioms;

    let copy = ids.clone();
    assert(copy@ =~= ids@);
    let document_ids = set_buf_from_dirty(copy);
    let ghost s = ids@.to_set();
    let ghost removed_before = words_view(removed@);
    match postings.postings_list(word) {
        Some(doc_indexes) => {
            let doc_indexes = difference_by_document(doc_indexes.as_slice(), document_ids.as_slice());
            if doc_indexes.len() != 0 {
                proof { lemma_without_documents_sorted(old(postings)@[word@], s); }
                postings.put_postings_list(word, doc_indexes);
            } else {
                postings.del_postings_list(word);
                let w = word.clone();
                assert(w@ =~= word@);
                removed.push(w);
                assert(words_view(removed@) =~= removed_before + seq![word@]);
            }
        },
        None => {
            assert(words_view(removed@) =~= removed_before + Seq::<Seq<u8>>::empty());
        },
    }
    let m = document_ids.len();
    let ghost deleted_before = deleted@;
    assert(document_ids@.take(0).to_set() =~= Set::<u64>::empty());
    assert(old(fields)@.remove_keys(Set::<u64>::empty()) =~= old(fields)@);
    assert(deleted_before + Set::<u64>::empty().filter(|id: u64| has_fields(old(fields)@, id)) =~= deleted_before);
    for k in 0..m
        invariant
            m == document_ids@.len(),
            fields.wf(),
            fields@ == old(fields)@.remove_keys(document_ids@.take(k as int).to_set()),
            deleted@ == deleted_before + document_ids@.take(k as int).to_set().filter(
                |id: u64| has_fields(old(fields)@, id),
            ),
    {
        let id = document_ids[k];
        let ghost done = document_ids@.take(k as int).to_set();
        assert(document_ids@.take(k + 1) =~= document_ids@.take(k as int).push(id));
        proof { document_ids@.take(k as int).lemma_push_to_set_commute(id); }
        let count = fields.del_all_document_fields(DocumentId(id));
        assert(fields@ =~= old(fields)@.remove_keys(done.insert(id)));
        if count != 0 {
            assert(has_fields(old(fields)@, id));
            deleted.insert(id);
        } else {
            assert(!has_fields(fields@, id) || done.contains(id));
        }
        assert(deleted@ =~= deleted_before + done.insert(id).filter(|id: u64| has_fields(old(fields)@, id)));
    }
    assert(document_ids@.take(m as int) =~= document_ids@);
}

/// The postings lists once the words `done` have been processed.
pub open spec fn postings_partial(
    postings: Map<Seq<u8>, Seq<DocIndex>>,
    ids: Set<u64>,
    docs_words: Map<u64, Seq<Seq<u8>>>,
    done: Seq<Seq<u8>>,
) -> Map<Seq<u8>, Seq<DocIndex>> {
    Map::new(
        |w: Seq<u8>| postings.contains_key(w) && (!done.contains(w) || pruned_postings(postings, ids, docs_words, w).len()
            > 0),
        |w: Seq<u8>| if done.contains(w) {
            pruned_postings(postings, ids, docs_words, w)
        } else {
            postings[w]
        },
    )
}

/// The documents of the first `j` entries.
pub open spec fn done_ids(e: Seq<(Vec<u8>, Vec<u64>)>, j: int) -> Set<u64> {
    Set::new(|id: u64| exists|k: int| 0 <= k < j && #[trigger] entry_ids(e, k).contains(id))
}

/// For each entry, takes its documents out of the postings list of its word,
/// then removes their fields. Returns the words whose list was removed and
/// the documents that had fields.
pub(crate) fn prune_postings(
    postings: &mut PostingsLists,
    fields: &mut DocumentsFields,
    entries: &WordsDocuments,
    Ghost(ids): Ghost<Set<u64>>,
    Ghost(docs_words): Ghost<Map<u64, Seq<Seq<u8>>>>,
) -> (r: (Vec<Vec<u8>>, HashSet<u64>))
    requires
        old(postings).wf(),
        old(fields).wf(),
        entry_words(entries@).no_duplicates(),
        forall|j: int| 0 <= j < entries@.len() ==> #[trigger] entry_ids(entries@, j) == ids_with_word(ids, docs_words, entries@[j].0@),
        forall|w: Seq<u8>| #[trigger] entry_words(entries@).contains(w) <==> is_affected(ids, docs_words, w),
    ensures
        final(postings).wf(),
        final(fields).wf(),
        final(postings)@ == postings_after(old(postings)@, ids, docs_words),
        forall|w: Seq<u8>| #[trigger] words_view(r.0@).contains(w) <==> removed_words(old(postings)@, ids, docs_words).contains(w),
        final(fields)@ == old(fields)@.remove_keys(touched_documents(ids, docs_words)),
        r.1@ == deleted_documents(ids, docs_words, old(fields)@),
{
    broadcast use vstd::std_specs::hash::group_hash_axioms;

    let ghost pl0 = postings@;
    let ghost df0 = fields@;
    let mut removed: Vec<Vec<u8>> = Vec::new();
    let mut deleted: HashSet<u64> = HashSet::new();
    let n = entries.len();
    assert(postings@ =~= postings_partial(pl0, ids, docs_words, entry_words(entries@).take(0)));
    assert(done_ids(entries@, 0) =~= Set::<u64>::empty());
    assert(df0.remove_keys(Set::<u64>::empty()) =~= df0);
    assert(deleted@ =~= Set::<u64>::empty().filter(|id: u64| has_fields(df0, id)));
    for j in 0..n
        invariant
            n == entries@.len(),
            entry_words(entries@).no_duplicates(),
            forall|j: int| 0 <= j < entries@.len() ==> #[trigger] entry_ids(entries@, j) == ids_with_word(ids, docs_words, entries@[j].0@),
            postings.wf(),
            fields.wf(),
            postings@ == postings_partial(pl0, ids, docs_words, entry_words(entries@).take(j as int)),
            forall|w: Seq<u8>| #[trigger] words_view(removed@).contains(w) <==> (entry_words(entries@).take(j as int).contains(w)
                && pl0.contains_key(w) && pruned_postings(pl0, ids, docs_words, w).len() == 0),
            fields@ == df0.remove_keys(done_ids(entries@, j as int)),
            deleted@ == done_ids(entries@, j as int).filter(|id: u64| has_fields(df0, id)),
    {
        let ghost done = entry_words(entries@).take(j as int);
        let ghost w = entries@[j as int].0@;
        let ghost sj = entry_ids(entries@, j as int);
        let ghost postings_before = postings@;
        let ghost fields_before = fields@;
        let ghost removed_before = words_view(removed@);
        let ghost deleted_before = deleted@;
        assert(entry_words(entries@)[j as int] == w);
        assert(entry_words(entries@).take(j + 1) =~= done.push(w));
        assert(!done.contains(w)) by {
            if done.contains(w) {
                let k = choose|k: int| 0 <= k < done.len() && done[k] == w;
                assert(entry_words(entries@)[k] == w);
            }
        }
        prune_word(postings, fields, &mut removed, &mut deleted, &entries[j].0, &entries[j].1);
        assert(postings_before.contains_key(w) == pl0.contains_key(w));
        assert(pl0.contains_key(w) ==> postings_before[w] == pl0[w]);
        assert(pl0.contains_key(w) ==> without_documents(pl0[w], sj) == pruned_postings(pl0, ids, docs_words, w));
        assert forall|x: Seq<u8>| done.push(w).contains(x) <==> (done.contains(x) || x == w) by {
            if done.push(w).contains(x) {
                let k = choose|k: int| 0 <= k < done.push(w).len() && done.push(w)[k] == x;
                if k < done.len() {
                    assert(done[k] == x);
                }
            }
            if done.contains(x) {
                let k = choose|k: int| 0 <= k < done.len() && done[k] == x;
                assert(done.push(w)[k] == x);
            }
            if x == w {
                assert(done.push(w)[done.len() as int] == x);
            }
        }
        assert(postings@ =~= postings_partial(pl0, ids, docs_words, done.push(w)));
        assert forall|x: Seq<u8>| #[trigger] words_view(removed@).contains(x) <==> (done.push(w).contains(x)
            && pl0.contains_key(x) && pruned_postings(pl0, ids, docs_words, x).len() == 0) by {
            let extra = if postings_before.contains_key(w) && without_documents(postings_before[w], sj).len() == 0 {
                seq![w]
            } else {
                Seq::empty()
            };
            assert(words_view(removed@) == removed_before + extra);
            if (removed_before + extra).contains(x) {
                let k = choose|k: int| 0 <= k < (removed_before + extra).len() && (removed_before + extra)[k] == x;
                if k < removed_before.len() {
                    assert(removed_before[k] == x);
                } else {
                    assert(extra[k - removed_before.len()] == x);
                }
            }
            if removed_before.contains(x) {
                let k = choose|k: int| 0 <= k < removed_before.len() && removed_before[k] == x;
                assert((removed_before + extra)[k] == x);
            }
            if x == w && extra.len() == 1 {
                assert((removed_before + extra)[removed_before.len() as int] == x);
            }
        }
        assert forall|id: u64| #[trigger] done_ids(entries@, j + 1).contains(id) <==> (done_ids(entries@, j as int).contains(id)
            || sj.contains(id)) by {
            if done_ids(entries@, j + 1).contains(id) {
                let k = choose|k: int| 0 <= k < j + 1 && #[trigger] entry_ids(entries@, k).contains(id);
                if k < j {
                    assert(done_ids(entries@, j as int).contains(id));
                }
            }
            if done_ids(entries@, j as int).contains(id) {
                let k = choose|k: int| 0 <= k < j && #[trigger] entry_ids(entries@, k).contains(id);
                assert(0 <= k < j + 1 && entry_ids(entries@, k).contains(id));
            }
            if sj.contains(id) {
                assert(0 <= j < j + 1 && entry_ids(entries@, j as int).contains(id));
            }
        }
        assert(fields@ =~= df0.remove_keys(done_ids(entries@, j + 1)));
        assert(deleted@ =~= done_ids(entries@, j + 1).filter(|id: u64| has_fields(df0, id))) by {
            assert(deleted@ == deleted_before + sj.filter(|id: u64| has_fields(fields_before, id)));
        }
    }
    let ghost all = entry_words(entries@);
    assert(all.take(n as int) =~= all);
    assert(postings@ =~= postings_after(pl0, ids, docs_words));
    assert(done_ids(entries@, n as int) =~= touched_documents(ids, docs_words)) by {
        assert forall|id: u64| #[trigger] done_ids(entries@, n as int).contains(id) <==> touched_documents(ids, docs_words).contains(id) by {
            if done_ids(entries@, n as int).contains(id) {
                let k = choose|k: int| 0 <= k < n && #[trigger] entry_ids(entries@, k).contains(id);
                assert(ids_with_word(ids, docs_words, entries@[k].0@).contains(id));
            }
            if touched_documents(ids, docs_words).contains(id) {
                let w0 = words_of(docs_words, id)[0];
                assert(words_of(docs_words, id).contains(w0));
                assert(is_affected(ids, docs_words, w0));
                assert(all.contains(w0));
                let k = choose|k: int| 0 <= k < all.len() && all[k] == w0;
                assert(entries@[k].0@ == w0);
                assert(ids_with_word(ids, docs_words, w0).contains(id));
                assert(entry_ids(entries@, k).contains(id));
            }
        }
    }
    assert(fields@ =~= df0.remove_keys(touched_documents(ids, docs_words)));
    assert(deleted@ =~= deleted_documents(ids, docs_words, df0));
    assert forall|w: Seq<u8>| #[trigger] words_view(removed@).contains(w) <==> removed_words(pl0, ids, docs_words).contains(w) by {}
    (removed, deleted)
}

/// Removes the words of the documents `ids`.
pub fn remove_docs_words(docs_words: &mut DocsWords, ids: &HashSet<u64>)
    requires
        old(docs_words).wf(),
    ensures
        final(docs_words).wf(),
        final(docs_words)@ == old(docs_words)@.remove_keys(ids@),
{
    broadcast use vstd::std_specs::hash::group_hash_axioms;

    let ghost mut seen: Seq<u64> = Seq::empty();
    assert(old(docs_words)@.remove_keys(seen.to_set()) =~= old(docs_words)@);
    for id in it: ids.iter()
        invariant
            docs_words.wf(),
            it.seq().unref().to_set() == ids@,
            seen == it.seq().unref().take(it.index()),
            it.index() == it.seq().len() ==> seen.to_set() == ids@,
            docs_words@ == old(docs_words)@.remove_keys(seen.to_set()),
    {
        assert(it.seq().unref().take(it.index() + 1) =~= seen.push(*id));
        proof {
            seen.lemma_push_to_set_commute(*id);
        }
        docs_words.del_doc_words(DocumentId(*id));
        proof {
            seen = seen.push(*id);
        }
        assert(docs_words@ =~= old(docs_words)@.remove_keys(seen.to_set()));
        assert(it.index() + 1 == it.seq().len() ==> seen =~= it.seq().unref());
    }
    assert(docs_words@ =~= old(docs_words)@.remove_keys(ids@));
}

/// Whether `word` is one of `words`.
pub fn contains_word(words: &Vec<Vec<u8>>, word: &Vec<u8>) -> (r: bool)
    ensures
        r == words_view(words@).contains(word@),
{
    let n = words.len();
    for i in 0..n
        invariant
            n == words@.len(),
            forall|k: int| 0 <= k < i ==> words@[k]@ != word@,
    {
        if bytes_eq(&words[i], word) {
            assert(words_view(words@)[i as int] == word@);
            return true;
        }
    }
    assert(!words_view(words@).contains(word@)) by {
        if words_view(words@).contains(word@) {
            let k = choose|k: int| 0 <= k < n && words_view(words@)[k] == word@;
            assert(words@[k]@ == word@);
        }
    }
    false
}

/// The words of `words` that are not in `removed`, in their order.
pub fn words_without(words: &Vec<Vec<u8>>, removed: &Vec<Vec<u8>>) -> (r: Vec<Vec<u8>>)
    requires
        strictly_sorted(words_view(words@)),
    ensures
        words_view(r@) == words_view(words@).filter(|w: Seq<u8>| !words_view(removed@).contains(w)),
        strictly_sorted(words_view(r@)),
{
    let ghost pred = |w: Seq<u8>| !words_view(removed@).contains(w);
    let mut r: Vec<Vec<u8>> = Vec::new();
    let n = words.len();
    assert(words_view(words@.take(0)) =~= Seq::<Seq<u8>>::empty());
    assert(words_view(r@) =~= words_view(words@.take(0)).filter(pred)) by {
        reveal(Seq::filter);
    }
    for i in 0..n
        invariant
            n == words@.len(),
            words_view(r@) == words_view(words@.take(i as int)).filter(pred),
            pred == (|w: Seq<u8>| !words_view(removed@).contains(w)),
    {
        let ghost prev = words_view(words@.take(i as int));
        let ghost w = words@[i as int]@;
        assert(words_view(words@.take(i + 1)) =~= prev.push(w));
        assert(prev.push(w).drop_last() =~= prev);
        assert(words_view(words@.take(i + 1)).filter(pred) == if pred(w) {
            prev.filter(pred).push(w)
        } else {
            prev.filter(pred)
        }) by {
            reveal(Seq::filter);
        }
        if !contains_word(removed, &words[i]) {
            let c = words[i].clone();
            assert(c@ =~= words@[i as int]@);
            r.push(c);
            assert(words_view(r@) =~= prev.filter(pred).push(w));
        }
    }
    assert(words@.take(n as int) =~= words@);
    proof { lemma_filter_keeps_sorted(words_view(words@), pred); }
    r
}

/// Filtering words sorted in strictly increasing order keeps them so.
proof fn lemma_filter_keeps_sorted(s: Seq<Seq<u8>>, pred: spec_fn(Seq<u8>) -> bool)
    requires
        strictly_sorted(s),
    ensures
        strictly_sorted(s.filter(pred)),
    decreases s.len(),
{
    reveal(Seq::filter);
    if s.len() > 0 {
        let t = s.drop_last();
        assert(strictly_sorted(t)) by {
            assert forall|i: int, j: int| 0 <= i < j < t.len() implies bytes_lt(#[trigger] t[i], #[trigger] t[j]) by {
                assert(t[i] == s[i] && t[j] == s[j]);
            }
        }
        lemma_filter_keeps_sorted(t, pred);
        let f = t.filter(pred);
        let g = s.filter(pred);
        assert forall|i: int, j: int| 0 <= i < j < g.len() implies bytes_lt(#[trigger] g[i], #[trigger] g[j]) by {
            if j < f.len() {
                assert(g[i] == f[i] && g[j] == f[j]);
            } else {
                assert(g[j] == s[s.len() - 1]);
                assert(g[i] == f[i]);
                assert(f.contains(f[i]));
                t.lemma_filter_contains_rev(pred, f[i]);
                let k = choose|k: int| 0 <= k < t.len() && t[k] == f[i];
                assert(s[k] == t[k]);
            }
        }
    }
}

/// The number of documents among `idset` that the deletion of `idset`
/// counts as deleted: those that have words and fields.
pub fn count_deleted_documents(docs_words: &DocsWords, fields: &DocumentsFields, idset: &Vec<u64>) -> (r: usize)
    requires
        docs_words.wf(),
        fields.wf(),
        strictly_increasing(idset@),
    ensures
        r == deleted_documents(idset@.to_set(), docs_words@, fields@).len(),
{
    let mut count: usize = 0;
    let n = idset.len();
    assert(deleted_documents(idset@.take(0).to_set(), docs_words@, fields@) =~= Set::<u64>::empty());
    for i in 0..n
        invariant
            n == idset@.len(),
            docs_words.wf(),
            fields.wf(),
            strictly_increasing(idset@),
            count <= i,
            deleted_documents(idset@.take(i as int).to_set(), docs_words@, fields@).finite(),
            count == deleted_documents(idset@.take(i as int).to_set(), docs_words@, fields@).len(),
    {
        let id = idset[i];
        let ghost prefix = idset@.take(i as int).to_set();
        let ghost before = deleted_documents(prefix, docs_words@, fields@);
        assert(idset@.take(i + 1) =~= idset@.take(i as int).push(id));
        proof { idset@.take(i as int).lemma_push_to_set_commute(id); }
        assert(!prefix.contains(id)) by {
            if prefix.contains(id) {
                let k = choose|k: int| 0 <= k < i && idset@.take(i as int)[k] == id;
                assert(idset@[k] < idset@[i as int]);
            }
        }
        let has_words = match docs_words.doc_words(DocumentId(id)) {
            Some(words) => set_keys(words).len() > 0,
            None => false,
        };
        let has_fields_now = fields.document_fields_count(DocumentId(id)) > 0;
        assert(has_words == (words_of(docs_words@, id).len() > 0));
        assert(has_fields_now == has_fields(fields@, id));
        if has_words && has_fields_now {
            assert(deleted_documents(prefix.insert(id), docs_words@, fields@) =~= before.insert(id));
            count = count + 1;
        } else {
            assert(deleted_documents(prefix.insert(id), docs_words@, fields@) =~= before);
        }
    }
    assert(idset@.take(n as int) =~= idset@);
    count
}

/// Taking documents out of a list sorted by document keeps it sorted.
proof fn lemma_without_documents_sorted(s: Seq<DocIndex>, ids: Set<u64>)
    requires
        sorted_by_document(s),
    ensures
        sorted_by_document(without_documents(s, ids)),
    decreases s.len(),
{
    reveal(Seq::filter);
    if s.len() > 0 {
        let t = s.drop_last();
        let pred = |d: DocIndex| !ids.contains(d.document_id.0);
        assert(sorted_by_document(t));
        lemma_without_documents_sorted(t, ids);
        let f = without_documents(t, ids);
        let g = without_documents(s, ids);
        assert forall|i: int, j: int| 0 <= i <= j < g.len() implies #[trigger] g[i].document_id.0 <= #[trigger] g[j].document_id.0 by {
            if j < f.len() {
                assert(g[i] == f[i] && g[j] == f[j]);
            } else {
                assert(g[j] == s.last());
                if i < f.len() {
                    assert(g[i] == f[i]);
                    assert(t.filter(pred).contains(f[i]));
                    t.lemma_filter_contains_rev(pred, f[i]);
                    let k = choose|k: int| 0 <= k < t.len() && t[k] == f[i];
                    assert(s[k] == t[k]);
                    assert(s[k].document_id.0 <= s[s.len() - 1].document_id.0);
                }
            }
        }
    }
}

} // verus!
