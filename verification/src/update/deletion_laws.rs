//! What holds of the index after a deletion, whatever the batch.

use vstd::prelude::*;

use crate::sdset_ops::without_documents;
use crate::types::{DocIndex, DocumentId, Error, Number};
use crate::update::deletion_spec::{
    deleted_documents, deletion_ids, deletion_result, deletion_underflows, has_fields, ids_with_word, is_affected,
    postings_after, pruned_postings, ranked_after, removed_words, touched_documents, words_after, words_of, IndexView,
};

verus! {

/// Every entry of a postings list belongs to a document that has the word.
pub open spec fn postings_consistent(
    postings: Map<Seq<u8>, Seq<DocIndex>>,
    docs_words: Map<u64, Seq<Seq<u8>>>,
) -> bool {
    forall|w: Seq<u8>, i: int|
        postings.contains_key(w) && 0 <= i < postings[w].len() ==> words_of(
            docs_words,
            #[trigger] postings[w][i].document_id.0,
        ).contains(w)
}

/// Every postings list has at least one entry.
pub open spec fn postings_non_empty(postings: Map<Seq<u8>, Seq<DocIndex>>) -> bool {
    forall|w: Seq<u8>| #[trigger] postings.contains_key(w) ==> postings[w].len() > 0
}

/// The documents that have at least one field.
pub open spec fn documents_with_fields(fields: Map<u64, Map<u16, Seq<u8>>>) -> Set<u64> {
    fields.dom().filter(|id: u64| has_fields(fields, id))
}

/// When every posting belongs to a document that has its word, a deletion
/// leaves no posting of a deleted document.
pub proof fn lemma_no_posting_of_deleted_documents(
    postings: Map<Seq<u8>, Seq<DocIndex>>,
    ids: Set<u64>,
    docs_words: Map<u64, Seq<Seq<u8>>>,
)
    requires
        postings_consistent(postings, docs_words),
    ensures
        forall|w: Seq<u8>, i: int|
            postings_after(postings, ids, docs_words).contains_key(w) && 0 <= i < postings_after(
                postings,
                ids,
                docs_words,
            )[w].len() ==> !ids.contains(#[trigger] postings_after(postings, ids, docs_words)[w][i].document_id.0),
{
    let after = postings_after(postings, ids, docs_words);
    assert forall|w: Seq<u8>, i: int| after.contains_key(w) && 0 <= i < after[w].len() implies !ids.contains(
        #[trigger] after[w][i].document_id.0) by {
        let d = after[w][i];
        if is_affected(ids, docs_words, w) {
            let s = ids_with_word(ids, docs_words, w);
            let pred = |x: DocIndex| !s.contains(x.document_id.0);
            assert(after[w] == postings[w].filter(pred));
            postings[w].lemma_filter_pred(pred, i);
            assert(postings[w].filter(pred).contains(d));
            postings[w].lemma_filter_contains_rev(pred, d);
            let k = choose|k: int| 0 <= k < postings[w].len() && postings[w][k] == d;
            assert(words_of(docs_words, postings[w][k].document_id.0).contains(w));
            assert(!s.contains(d.document_id.0));
        } else {
            assert(after[w][i] == postings[w][i]);
            assert(words_of(docs_words, postings[w][i].document_id.0).contains(w));
            if ids.contains(d.document_id.0) {
                assert(is_affected(ids, docs_words, w));
            }
        }
    }
}

/// A deletion keeps every posting of the documents it does not delete.
pub proof fn lemma_other_postings_kept(
    postings: Map<Seq<u8>, Seq<DocIndex>>,
    ids: Set<u64>,
    docs_words: Map<u64, Seq<Seq<u8>>>,
)
    ensures
        forall|w: Seq<u8>, i: int|
            postings.contains_key(w) && 0 <= i < postings[w].len() && !ids.contains(#[trigger] postings[w][i].document_id.0)
                ==> postings_after(postings, ids, docs_words).contains_key(w) && postings_after(
                postings,
                ids,
                docs_words,
            )[w].contains(postings[w][i]),
{
    broadcast use vstd::seq_lib::group_filter_ensures;
    let after = postings_after(postings, ids, docs_words);
    assert forall|w: Seq<u8>, i: int|
        postings.contains_key(w) && 0 <= i < postings[w].len() && !ids.contains(#[trigger] postings[w][i].document_id.0)
        implies after.contains_key(w) && after[w].contains(postings[w][i]) by {
        if is_affected(ids, docs_words, w) {
            let s = ids_with_word(ids, docs_words, w);
            let pred = |d: DocIndex| !s.contains(d.document_id.0);
            assert(pred(postings[w][i]));
            assert(postings[w].filter(pred).contains(postings[w][i]));
            assert(pruned_postings(postings, ids, docs_words, w) == postings[w].filter(pred));
        } else {
            assert(postings[w].contains(postings[w][i]));
        }
    }
}

/// A deletion leaves no postings list empty that was not empty before.
pub proof fn lemma_no_empty_postings_list(
    postings: Map<Seq<u8>, Seq<DocIndex>>,
    ids: Set<u64>,
    docs_words: Map<u64, Seq<Seq<u8>>>,
)
    requires
        postings_non_empty(postings),
    ensures
        postings_non_empty(postings_after(postings, ids, docs_words)),
{
}

/// When the set of all words is the set of the words that have a postings
/// list, it stays so after a deletion.
pub proof fn lemma_words_follow_postings(
    postings: Map<Seq<u8>, Seq<DocIndex>>,
    ids: Set<u64>,
    docs_words: Map<u64, Seq<Seq<u8>>>,
    words: Seq<Seq<u8>>,
)
    requires
        forall|w: Seq<u8>| #[trigger] words.contains(w) <==> postings.contains_key(w),
    ensures
        forall|w: Seq<u8>|
            #[trigger] words_after(Some(words), removed_words(postings, ids, docs_words)).contains(w)
                <==> postings_after(postings, ids, docs_words).contains_key(w),
{
    let removed = removed_words(postings, ids, docs_words);
    let pred = |w: Seq<u8>| !removed.contains(w);
    broadcast use vstd::seq_lib::group_filter_ensures;
    assert forall|w: Seq<u8>| #[trigger] words.filter(pred).contains(w) <==> postings_after(postings, ids, docs_words).contains_key(w) by {
        if words.filter(pred).contains(w) {
            let k = choose|k: int| 0 <= k < words.filter(pred).len() && words.filter(pred)[k] == w;
            assert(pred(words.filter(pred)[k]));
            words.lemma_filter_contains_rev(pred, w);
        }
        if postings_after(postings, ids, docs_words).contains_key(w) {
            assert(words.contains(w));
            let k = choose|k: int| 0 <= k < words.len() && words[k] == w;
            assert(words.filter(pred).contains(words[k]));
        }
    }
}

/// When the number of documents is the number of documents that have fields,
/// it stays so after a deletion.
pub proof fn lemma_number_of_documents_follows_fields(
    ids: Set<u64>,
    docs_words: Map<u64, Seq<Seq<u8>>>,
    fields: Map<u64, Map<u16, Seq<u8>>>,
    number_of_documents: nat,
)
    requires
        fields.dom().finite(),
        number_of_documents == documents_with_fields(fields).len(),
    ensures
        number_of_documents >= deleted_documents(ids, docs_words, fields).len(),
        number_of_documents - deleted_documents(ids, docs_words, fields).len() == documents_with_fields(
            fields.remove_keys(touched_documents(ids, docs_words)),
        ).len(),
{
    let deleted = deleted_documents(ids, docs_words, fields);
    let before = documents_with_fields(fields);
    let after = documents_with_fields(fields.remove_keys(touched_documents(ids, docs_words)));
    fields.dom().lemma_len_filter(|id: u64| has_fields(fields, id));
    assert(deleted.subset_of(before));
    vstd::set_lib::lemma_len_subset(deleted, before);
    assert(after =~= before.difference(deleted));
    vstd::set_lib::lemma_set_difference_len(before, deleted);
    assert(before.intersect(deleted) =~= deleted);
}

/// A filter that keeps every element gives the sequence back.
proof fn lemma_filter_keeps_all<A>(s: Seq<A>, pred: spec_fn(A) -> bool)
    requires
        forall|i: int| 0 <= i < s.len() ==> pred(#[trigger] s[i]),
    ensures
        s.filter(pred) == s,
    decreases s.len(),
{
    reveal(Seq::filter);
    if s.len() > 0 {
        let t = s.drop_last();
        assert forall|i: int| 0 <= i < t.len() implies pred(#[trigger] t[i]) by {
            assert(t[i] == s[i]);
        }
        lemma_filter_keeps_all(t, pred);
        assert(pred(s[s.len() - 1]));
        assert(t.push(s.last()) =~= s);
    }
}

/// Deleting the same documents a second time changes nothing: every store
/// is left as the first deletion left it.
pub proof fn lemma_deletion_is_idempotent(
    postings: Map<Seq<u8>, Seq<DocIndex>>,
    ids: Set<u64>,
    docs_words: Map<u64, Seq<Seq<u8>>>,
    fields: Map<u64, Map<u16, Seq<u8>>>,
    words: Option<Seq<Seq<u8>>>,
    ranked: Map<(u64, u16), Number>,
    ranked_attrs: Set<u16>,
)
    ensures
        ({
            let postings1 = postings_after(postings, ids, docs_words);
            let docs_words1 = docs_words.remove_keys(deleted_documents(ids, docs_words, fields));
            let fields1 = fields.remove_keys(touched_documents(ids, docs_words));
            let words1 = words_after(words, removed_words(postings, ids, docs_words));
            let ranked1 = ranked_after(ranked, ids, ranked_attrs);
            &&& postings_after(postings1, ids, docs_words1) == postings1
            &&& fields1.remove_keys(touched_documents(ids, docs_words1)) == fields1
            &&& deleted_documents(ids, docs_words1, fields1) == Set::<u64>::empty()
            &&& docs_words1.remove_keys(deleted_documents(ids, docs_words1, fields1)) == docs_words1
            &&& words_after(Some(words1), removed_words(postings1, ids, docs_words1)) == words1
            &&& ranked_after(ranked1, ids, ranked_attrs) == ranked1
        }),
{
    let postings1 = postings_after(postings, ids, docs_words);
    let deleted = deleted_documents(ids, docs_words, fields);
    let docs_words1 = docs_words.remove_keys(deleted);
    let touched = touched_documents(ids, docs_words);
    let fields1 = fields.remove_keys(touched);
    let words1 = words_after(words, removed_words(postings, ids, docs_words));
    let ranked1 = ranked_after(ranked, ids, ranked_attrs);

    // The words of a document can only have been removed.
    assert forall|id: u64| #[trigger] words_of(docs_words1, id).len() > 0 implies words_of(docs_words1, id) == words_of(docs_words, id) by {}
    assert forall|w: Seq<u8>| is_affected(ids, docs_words1, w) implies #[trigger] is_affected(ids, docs_words, w) by {
        let x = choose|x: u64| #![trigger words_of(docs_words1, x).contains(w)]
            ids.contains(x) && words_of(docs_words1, x).contains(w);
        assert(words_of(docs_words1, x).len() > 0);
        assert(words_of(docs_words, x).contains(w));
    }

    // A pruned list holds no entry of the documents that were taken out.
    assert forall|w: Seq<u8>| #[trigger] postings1.contains_key(w) && is_affected(ids, docs_words1, w) implies
        pruned_postings(postings1, ids, docs_words1, w) == postings1[w] by {
        let s1 = ids_with_word(ids, docs_words, w);
        let s2 = ids_with_word(ids, docs_words1, w);
        assert(s2.subset_of(s1)) by {
            assert forall|x: u64| s2.contains(x) implies s1.contains(x) by {
                assert(words_of(docs_words1, x).len() > 0);
            }
        }
        let p1 = without_documents(postings[w], s1);
        assert(postings1[w] == p1);
        assert forall|k: int| 0 <= k < p1.len() implies !s2.contains(#[trigger] p1[k].document_id.0) by {
            postings[w].lemma_filter_pred(|d: DocIndex| !s1.contains(d.document_id.0), k);
        }
        lemma_filter_keeps_all(p1, |d: DocIndex| !s2.contains(d.document_id.0));
    }
    assert(postings_after(postings1, ids, docs_words1) =~= postings1);

    assert forall|id: u64| #[trigger] touched_documents(ids, docs_words1).contains(id) implies touched.contains(id) by {
        assert(words_of(docs_words1, id).len() > 0);
    }
    assert(fields1.remove_keys(touched_documents(ids, docs_words1)) =~= fields1);
    assert(deleted_documents(ids, docs_words1, fields1) =~= Set::<u64>::empty()) by {
        assert forall|id: u64| !#[trigger] deleted_documents(ids, docs_words1, fields1).contains(id) by {
            if touched_documents(ids, docs_words1).contains(id) {
                assert(touched.contains(id));
                assert(!fields1.contains_key(id));
            }
        }
    }
    assert(docs_words1.remove_keys(Set::<u64>::empty()) =~= docs_words1);

    assert(removed_words(postings1, ids, docs_words1) =~= Set::<Seq<u8>>::empty()) by {
        assert forall|w: Seq<u8>| !#[trigger] removed_words(postings1, ids, docs_words1).contains(w) by {
            if postings1.contains_key(w) && is_affected(ids, docs_words1, w) {
                assert(pruned_postings(postings1, ids, docs_words1, w) == postings1[w]);
                assert(is_affected(ids, docs_words, w));
            }
        }
    }
    lemma_filter_keeps_all(words1, |w: Seq<u8>| !Set::<Seq<u8>>::empty().contains(w));
    assert(ranked_after(ranked1, ids, ranked_attrs) =~= ranked1);
}

/// A successful deletion removes, from the ranked values it is given, those
/// of the ranked attributes of every document of the batch, whatever its id,
/// and keeps every other ranked value unchanged; the result becomes the
/// ranked map of the index.
pub proof fn lemma_deletion_drops_ranks_of_batch(
    before: IndexView,
    ranked: Map<(u64, u16), Number>,
    deletion: Seq<DocumentId>,
    after: IndexView,
    r: Result<(), Error>,
)
    requires
        deletion_result(before, ranked, deletion, after, r),
        r is Ok,
    ensures
        after.main.ranked_map is Some,
        forall|i: int, a: u16|
            0 <= i < deletion.len() && before.main.schema.unwrap().ranked_attrs().contains(a) ==> !#[trigger] after.main.ranked_map.unwrap().contains_key(
                (deletion[i].0, a),
            ),
        forall|k: (u64, u16)|
            ranked.contains_key(k) && (!before.main.schema.unwrap().ranked_attrs().contains(k.1) || forall|i: int|
                0 <= i < deletion.len() ==> #[trigger] deletion[i].0 != k.0) ==> #[trigger] after.main.ranked_map.unwrap().contains_key(k)
                && after.main.ranked_map.unwrap()[k] == ranked[k],
        forall|k: (u64, u16)| #[trigger] after.main.ranked_map.unwrap().contains_key(k) ==> ranked.contains_key(k)
            && after.main.ranked_map.unwrap()[k] == ranked[k],
{
    let ids = deletion_ids(deletion);
    let f = |d: DocumentId| d.0;
    assert forall|i: int| 0 <= i < deletion.len() implies ids.contains(#[trigger] deletion[i].0) by {
        assert(deletion.map_values(f)[i] == deletion[i].0);
    }
    assert forall|x: u64| ids.contains(x) implies exists|i: int| 0 <= i < deletion.len() && #[trigger] deletion[i].0 == x by {
        let k = choose|k: int| 0 <= k < deletion.map_values(f).len() && deletion.map_values(f)[k] == x;
        assert(deletion[k].0 == x);
    }
}

/// A deletion reads its batch as a set: two batches with the same ids, in
/// any order and with any repeats, take the index to the same stores and get
/// the same answer.
pub proof fn lemma_deletion_reads_a_set(
    before: IndexView,
    ranked: Map<(u64, u16), Number>,
    first: Seq<DocumentId>,
    second: Seq<DocumentId>,
    after_first: IndexView,
    r_first: Result<(), Error>,
    after_second: IndexView,
    r_second: Result<(), Error>,
)
    requires
        deletion_ids(first) == deletion_ids(second),
        deletion_result(before, ranked, first, after_first, r_first),
        deletion_result(before, ranked, second, after_second, r_second),
    ensures
        after_first == after_second,
        r_first == r_second,
{
    match (r_first, r_second) {
        (Ok(a), Ok(b)) => {
            assert(a == b);
        },
        _ => {},
    }
}

/// The words of an index, none when it has no set of words.
pub open spec fn words_or_empty(words: Option<Seq<Seq<u8>>>) -> Seq<Seq<u8>> {
    match words {
        Some(ws) => ws,
        None => Seq::empty(),
    }
}

/// Document `id` has an entry in the postings list of `word`.
pub open spec fn has_posting(postings: Map<Seq<u8>, Seq<DocIndex>>, word: Seq<u8>, id: u64) -> bool {
    postings.contains_key(word) && exists|i: int| 0 <= i < postings[word].len() && #[trigger] postings[word][i].document_id.0 == id
}

/// The stores of an index agree with each other: the set of words is the
/// set of the words that have a postings list; no postings list is empty; a
/// document has an entry in the list of a word exactly when the word is one
/// of its words; a document has fields exactly when it has words; and the
/// number of documents is the number of documents that have fields.
pub open spec fn index_consistent(index: IndexView) -> bool {
    &&& forall|w: Seq<u8>| #[trigger] words_or_empty(index.main.words).contains(w) <==> index.postings.contains_key(w)
    &&& postings_non_empty(index.postings)
    &&& forall|w: Seq<u8>, id: u64| #[trigger] has_posting(index.postings, w, id) <==> #[trigger] words_of(index.docs_words, id).contains(w)
    &&& forall|id: u64| #[trigger] has_fields(index.fields, id) <==> words_of(index.docs_words, id).len() > 0
    &&& index.number_of_documents_view() == documents_with_fields(index.fields).len()
}

impl IndexView {
    /// The number of documents that the main store records.
    pub open spec fn number_of_documents_view(self) -> nat {
        self.main.number_of_documents as nat
    }
}

/// A deletion from an index whose stores agree with each other, and which has
/// a schema, succeeds and leaves stores that agree with each other.
pub proof fn lemma_deletion_keeps_index_consistent(
    before: IndexView,
    ranked: Map<(u64, u16), Number>,
    deletion: Seq<DocumentId>,
    after: IndexView,
    r: Result<(), Error>,
)
    requires
        index_consistent(before),
        before.fields.dom().finite(),
        before.main.schema is Some,
        deletion_result(before, ranked, deletion, after, r),
    ensures
        r is Ok,
        !deletion_underflows(before, deletion),
        index_consistent(after),
{
    let ids = deletion_ids(deletion);
    let pl = before.postings;
    let dw = before.docs_words;
    let df = before.fields;
    let deleted = deleted_documents(ids, dw, df);
    let touched = touched_documents(ids, dw);

    // Every document with words has fields, so the deleted documents are
    // all the documents of the batch that have words.
    assert(touched =~= deleted) by {
        assert forall|id: u64| touched.contains(id) implies #[trigger] deleted.contains(id) by {
            assert(has_fields(df, id));
        }
    }

    // Every posting belongs to a document that has the word.
    assert(postings_consistent(pl, dw)) by {
        assert forall|w: Seq<u8>, i: int| pl.contains_key(w) && 0 <= i < pl[w].len() implies words_of(
            dw,
            #[trigger] pl[w][i].document_id.0,
        ).contains(w) by {
            assert(has_posting(pl, w, pl[w][i].document_id.0));
        }
    }
    lemma_no_posting_of_deleted_documents(pl, ids, dw);
    lemma_other_postings_kept(pl, ids, dw);
    lemma_no_empty_postings_list(pl, ids, dw);
    lemma_number_of_documents_follows_fields(ids, dw, df, before.main.number_of_documents as nat);
    assert(r is Ok);
    let pl2 = postings_after(pl, ids, dw);
    let dw2 = dw.remove_keys(deleted);
    let df2 = df.remove_keys(touched);
    assert(after.postings == pl2);
    assert(after.docs_words == dw2);
    assert(after.fields == df2);

    // The set of words.
    match before.main.words {
        Some(ws) => {
            assert forall|w: Seq<u8>| #[trigger] ws.contains(w) <==> pl.contains_key(w) by {
                assert(words_or_empty(before.main.words).contains(w) <==> pl.contains_key(w));
            }
            lemma_words_follow_postings(pl, ids, dw, ws);
        },
        None => {
            assert forall|w: Seq<u8>| !#[trigger] pl2.contains_key(w) by {
                if pl2.contains_key(w) {
                    assert(words_or_empty(before.main.words).contains(w));
                }
            }
        },
    }
    assert forall|w: Seq<u8>| #[trigger] words_or_empty(after.main.words).contains(w) <==> pl2.contains_key(w) by {}

    // Postings and words of the documents.
    assert forall|w: Seq<u8>, id: u64| #[trigger] has_posting(pl2, w, id) <==> #[trigger] words_of(dw2, id).contains(w) by {
        if has_posting(pl2, w, id) {
            let i = choose|i: int| 0 <= i < pl2[w].len() && #[trigger] pl2[w][i].document_id.0 == id;
            let e = pl2[w][i];
            assert(!ids.contains(id));
            assert(pl[w].contains(e)) by {
                if is_affected(ids, dw, w) {
                    let s = ids_with_word(ids, dw, w);
                    let pred = |x: DocIndex| !s.contains(x.document_id.0);
                    assert(pl2[w] == pl[w].filter(pred));
                    assert(pl[w].filter(pred).contains(e));
                    pl[w].lemma_filter_contains_rev(pred, e);
                } else {
                    assert(pl2[w] == pl[w]);
                }
            }
            let k = choose|k: int| 0 <= k < pl[w].len() && pl[w][k] == e;
            assert(pl[w][k].document_id.0 == id);
            assert(has_posting(pl, w, id));
            assert(words_of(dw, id).contains(w));
            assert(!deleted.contains(id));
        }
        if words_of(dw2, id).contains(w) {
            assert(!deleted.contains(id));
            assert(words_of(dw, id).contains(w));
            assert(!ids.contains(id)) by {
                if ids.contains(id) {
                    assert(touched.contains(id));
                }
            }
            assert(has_posting(pl, w, id));
            let k = choose|k: int| 0 <= k < pl[w].len() && #[trigger] pl[w][k].document_id.0 == id;
            assert(pl2.contains_key(w) && pl2[w].contains(pl[w][k]));
            let i = choose|i: int| 0 <= i < pl2[w].len() && pl2[w][i] == pl[w][k];
            assert(pl2[w][i].document_id.0 == id);
        }
    }

    // Fields and words of the documents.
    assert forall|id: u64| #[trigger] has_fields(df2, id) <==> words_of(dw2, id).len() > 0 by {
        if deleted.contains(id) {
            assert(!df2.contains_key(id));
            assert(!dw2.contains_key(id));
        } else {
            assert(has_fields(df, id) <==> words_of(dw, id).len() > 0);
            assert(words_of(dw2, id) == words_of(dw, id));
            assert(touched.contains(id) == deleted.contains(id));
            if df2.contains_key(id) {
                assert(df2[id] == df[id]);
            }
            if df.contains_key(id) {
                assert(df2.contains_key(id));
            }
        }
    }
}

/// Filtering twice is filtering once by both predicates.
proof fn lemma_filter_filter<A>(s: Seq<A>, p: spec_fn(A) -> bool, q: spec_fn(A) -> bool)
    ensures
        s.filter(p).filter(q) == s.filter(|x: A| p(x) && q(x)),
    decreases s.len(),
{
    reveal(Seq::filter);
    if s.len() > 0 {
        lemma_filter_filter(s.drop_last(), p, q);
        let f = s.drop_last().filter(p);
        if p(s.last()) {
            assert(f.push(s.last()).drop_last() =~= f);
            assert(f.push(s.last()).last() == s.last());
        }
    }
}

/// Taking out the documents `a`, then `b`, is taking out `a` and `b` at once.
proof fn lemma_prune_twice(s: Seq<DocIndex>, a: Set<u64>, b: Set<u64>)
    ensures
        without_documents(without_documents(s, a), b) == without_documents(s, a + b),
{
    let p = |d: DocIndex| !a.contains(d.document_id.0);
    let q = |d: DocIndex| !b.contains(d.document_id.0);
    lemma_filter_filter(s, p, q);
    assert((|x: DocIndex| p(x) && q(x)) =~= (|d: DocIndex| !(a + b).contains(d.document_id.0)));
}

/// Taking out no document changes nothing.
proof fn lemma_prune_nothing(s: Seq<DocIndex>)
    ensures
        without_documents(s, Set::<u64>::empty()) == s,
{
    lemma_filter_keeps_all(s, |d: DocIndex| !Set::<u64>::empty().contains(d.document_id.0));
}

/// The ids of two batches put together are the ids of both.
proof fn lemma_ids_of_two_batches(first: Seq<DocumentId>, second: Seq<DocumentId>)
    ensures
        deletion_ids(first + second) == deletion_ids(first) + deletion_ids(second),
{
    let f = |d: DocumentId| d.0;
    let all = (first + second).map_values(f);
    assert(all =~= first.map_values(f) + second.map_values(f));
    assert forall|x: u64| #[trigger] all.contains(x) <==> (first.map_values(f).contains(x) || second.map_values(f).contains(x)) by {
        if all.contains(x) {
            let k = choose|k: int| 0 <= k < all.len() && all[k] == x;
            if k < first.len() {
                assert(first.map_values(f)[k] == x);
            } else {
                assert(second.map_values(f)[k - first.len()] == x);
            }
        }
        if first.map_values(f).contains(x) {
            let k = choose|k: int| 0 <= k < first.len() && first.map_values(f)[k] == x;
            assert(all[k] == x);
        }
        if second.map_values(f).contains(x) {
            let k = choose|k: int| 0 <= k < second.len() && second.map_values(f)[k] == x;
            assert(all[first.len() + k] == x);
        }
    }
    assert(deletion_ids(first + second) =~= deletion_ids(first) + deletion_ids(second));
}

/// A word is affected by a batch exactly when some document of the batch has it.
proof fn lemma_affected_has_ids(ids: Set<u64>, docs_words: Map<u64, Seq<Seq<u8>>>, word: Seq<u8>)
    ensures
        is_affected(ids, docs_words, word) <==> ids_with_word(ids, docs_words, word) != Set::<u64>::empty(),
{
    if is_affected(ids, docs_words, word) {
        let x = choose|x: u64| #![trigger words_of(docs_words, x).contains(word)]
            ids.contains(x) && words_of(docs_words, x).contains(word);
        assert(ids_with_word(ids, docs_words, word).contains(x));
    } else {
        assert(ids_with_word(ids, docs_words, word) =~= Set::<u64>::empty()) by {
            assert forall|x: u64| !#[trigger] ids_with_word(ids, docs_words, word).contains(x) by {
                if ids_with_word(ids, docs_words, word).contains(x) {
                    assert(words_of(docs_words, x).contains(word));
                }
            }
        }
    }
}

/// What two deletions one after the other make of the postings list of one
/// word is what one deletion of both batches makes of it.
proof fn lemma_word_after_two_batches(
    pl0: Map<Seq<u8>, Seq<DocIndex>>,
    i1: Set<u64>,
    i2: Set<u64>,
    dw0: Map<u64, Seq<Seq<u8>>>,
    df0: Map<u64, Map<u16, Seq<u8>>>,
    w: Seq<u8>,
)
    ensures
        ({
            let pl1 = postings_after(pl0, i1, dw0);
            let dw1 = dw0.remove_keys(deleted_documents(i1, dw0, df0));
            let both = postings_after(pl0, i1 + i2, dw0);
            let twice = postings_after(pl1, i2, dw1);
            &&& twice.contains_key(w) == both.contains_key(w)
            &&& both.contains_key(w) ==> twice[w] == both[w]
            &&& removed_words(pl0, i1 + i2, dw0).contains(w) == (removed_words(pl0, i1, dw0).contains(w)
                || removed_words(pl1, i2, dw1).contains(w))
        }),
{
    let d1 = deleted_documents(i1, dw0, df0);
    let pl1 = postings_after(pl0, i1, dw0);
    let dw1 = dw0.remove_keys(d1);
    let s1 = ids_with_word(i1, dw0, w);
    let s2 = ids_with_word(i2, dw1, w);
    let s = ids_with_word(i1 + i2, dw0, w);
    assert(s =~= s1 + s2) by {
        assert forall|x: u64| s.contains(x) implies #[trigger] (s1 + s2).contains(x) by {
            if !i1.contains(x) {
                assert(!d1.contains(x));
                assert(words_of(dw1, x) == words_of(dw0, x));
            }
        }
        assert forall|x: u64| s2.contains(x) implies #[trigger] s.contains(x) by {
            assert(dw1.contains_key(x));
        }
    }
    lemma_affected_has_ids(i1, dw0, w);
    lemma_affected_has_ids(i2, dw1, w);
    lemma_affected_has_ids(i1 + i2, dw0, w);
    if pl0.contains_key(w) {
        let p = pl0[w];
        lemma_prune_twice(p, s1, s2);
        lemma_prune_nothing(p);
        if !is_affected(i1, dw0, w) {
            assert(s1 == Set::<u64>::empty());
            assert(s =~= s2);
        }
        if !is_affected(i2, dw1, w) {
            assert(s2 == Set::<u64>::empty());
            assert(s =~= s1);
        }
        if pl1.contains_key(w) {
            assert(pl1[w] == without_documents(p, s1));
        } else {
            assert(without_documents(p, s1).len() == 0);
            assert(without_documents(p, s1) =~= Seq::<DocIndex>::empty());
            assert(without_documents(Seq::<DocIndex>::empty(), s2) =~= Seq::<DocIndex>::empty()) by {
                reveal(Seq::filter);
            }
        }
    }
}

/// Two deletions one after the other, the second given the ranked values
/// that the first stored, leave the index as one deletion of both batches
/// does.
pub proof fn lemma_two_batches_are_one(
    before: IndexView,
    ranked: Map<(u64, u16), Number>,
    first: Seq<DocumentId>,
    second: Seq<DocumentId>,
    middle: IndexView,
    r_first: Result<(), Error>,
    after: IndexView,
    r_second: Result<(), Error>,
)
    requires
        before.main.schema is Some,
        !deletion_underflows(before, first),
        deletion_result(before, ranked, first, middle, r_first),
        !deletion_underflows(middle, second),
        deletion_result(middle, middle.main.ranked_map.unwrap(), second, after, r_second),
    ensures
        !deletion_underflows(before, first + second),
        deletion_result(before, ranked, first + second, after, r_second),
{
    let i1 = deletion_ids(first);
    let i2 = deletion_ids(second);
    lemma_ids_of_two_batches(first, second);
    let i = i1 + i2;
    assert(deletion_ids(first + second) == i);
    let pl0 = before.postings;
    let dw0 = before.docs_words;
    let df0 = before.fields;
    let t1 = touched_documents(i1, dw0);
    let d1 = deleted_documents(i1, dw0, df0);
    let pl1 = postings_after(pl0, i1, dw0);
    let dw1 = dw0.remove_keys(d1);
    let df1 = df0.remove_keys(t1);
    assert(middle.postings == pl1 && middle.docs_words == dw1 && middle.fields == df1);
    let t2 = touched_documents(i2, dw1);
    let d2 = deleted_documents(i2, dw1, df1);
    let t = touched_documents(i, dw0);
    let d = deleted_documents(i, dw0, df0);

    // The documents.
    assert forall|x: u64| #[trigger] words_of(dw1, x) == if d1.contains(x) { Seq::<Seq<u8>>::empty() } else { words_of(dw0, x) } by {}
    assert(t =~= t1 + t2);
    assert(d =~= d1 + d2) by {
        assert forall|x: u64| d.contains(x) implies #[trigger] (d1 + d2).contains(x) by {
            if !t1.contains(x) {
                assert(t2.contains(x));
                assert(df1.contains_key(x) && df1[x] == df0[x]);
            }
        }
        assert forall|x: u64| d2.contains(x) implies #[trigger] d.contains(x) by {
            assert(df1.contains_key(x));
            assert(df1[x] == df0[x]);
        }
    }
    assert(d1.disjoint(d2)) by {
        assert forall|x: u64| d2.contains(x) implies !#[trigger] d1.contains(x) by {
            assert(df1.contains_key(x));
        }
    }
    // The sets of documents are finite: they are among the ids of a batch.
    broadcast use vstd::seq_lib::seq_to_set_is_finite;
    assert(i1.finite() && i2.finite());
    assert(d1.subset_of(i1) && d2.subset_of(i2) && d.subset_of(i));
    vstd::set_lib::lemma_len_subset(d1, i1);
    vstd::set_lib::lemma_len_subset(d2, i2);
    vstd::set_lib::lemma_set_disjoint_lens(d1, d2);
    assert(d.len() == d1.len() + d2.len());

    // The fields, the words of the documents and the ranked values.
    assert(df1.remove_keys(t2) =~= df0.remove_keys(t));
    assert(dw1.remove_keys(d2) =~= dw0.remove_keys(d));
    let attrs = before.main.schema.unwrap().ranked_attrs();
    assert(middle.main.schema == before.main.schema);
    assert(ranked_after(ranked_after(ranked, i1, attrs), i2, attrs) =~= ranked_after(ranked, i, attrs));

    // The postings lists and the set of all words.
    let r1 = removed_words(pl0, i1, dw0);
    let r2 = removed_words(pl1, i2, dw1);
    let r = removed_words(pl0, i, dw0);
    assert forall|w: Seq<u8>| #[trigger] r.contains(w) == (r1.contains(w) || r2.contains(w)) by {
        lemma_word_after_two_batches(pl0, i1, i2, dw0, df0, w);
    }
    assert(postings_after(pl1, i2, dw1) =~= postings_after(pl0, i, dw0)) by {
        assert forall|w: Seq<u8>| #[trigger] postings_after(pl1, i2, dw1).contains_key(w) == postings_after(pl0, i, dw0).contains_key(w) by {
            lemma_word_after_two_batches(pl0, i1, i2, dw0, df0, w);
        }
        assert forall|w: Seq<u8>| postings_after(pl0, i, dw0).contains_key(w) implies #[trigger] postings_after(pl1, i2, dw1)[w] == postings_after(pl0, i, dw0)[w] by {
            lemma_word_after_two_batches(pl0, i1, i2, dw0, df0, w);
        }
    }
    let words1 = words_after(before.main.words, r1);
    assert(middle.main.words == Some(words1));
    assert(words_after(Some(words1), r2) == words_after(before.main.words, r)) by {
        let p1 = |w: Seq<u8>| !r1.contains(w);
        let p2 = |w: Seq<u8>| !r2.contains(w);
        match before.main.words {
            Some(ws) => {
                lemma_filter_filter(ws, p1, p2);
                assert((|x: Seq<u8>| p1(x) && p2(x)) =~= (|w: Seq<u8>| !r.contains(w)));
            },
            None => {
                assert(words1.filter(p2) =~= Seq::<Seq<u8>>::empty()) by {
                    reveal(Seq::filter);
                }
            },
        }
    }
}

} // verus!
