use fst::IntoStreamer;
use meilidb_core::ranked_map::RankedMap;
use meilidb_core::store::docs_words::DocsWords;
use meilidb_core::store::documents_fields::DocumentsFields;
use meilidb_core::store::main::Main;
use meilidb_core::store::postings_lists::PostingsLists;
use meilidb_core::store::updates::Updates;
use meilidb_core::store::updates_results::UpdatesResults;
use meilidb_core::types::{DocIndex, DocumentId, Error, Number, Schema, SchemaAttr, SchemaAttribute};
use meilidb_core::update::documents_deletion::{
    apply_documents_deletion, push_documents_deletion, try_apply_documents_deletion, DocumentsDeletion,
};
use meilidb_core::update::{next_update_id, Update};

fn doc_index(id: u64, attribute: u16, word_index: u16) -> DocIndex {
    DocIndex { document_id: DocumentId(id), attribute, word_index, char_index: word_index * 6, char_length: 5 }
}

fn words(list: &[&str]) -> fst::Set {
    fst::Set::from_iter(list.iter()).unwrap()
}

fn keys(set: &fst::Set) -> Vec<String> {
    set.into_stream().into_strs().unwrap()
}

fn schema() -> Schema {
    Schema {
        identifier: "id".to_string(),
        attributes: vec![
            SchemaAttribute { name: "title".to_string(), attr: SchemaAttr(0), ranked: true },
            SchemaAttribute { name: "body".to_string(), attr: SchemaAttr(1), ranked: false },
            SchemaAttribute { name: "rank".to_string(), attr: SchemaAttr(2), ranked: true },
        ],
    }
}

struct Index {
    main: Main,
    fields: DocumentsFields,
    postings: PostingsLists,
    docs_words: DocsWords,
    ranked: RankedMap,
}

/// Three documents: 1 holds "hello world", 2 holds "hello", 3 holds "rust".
fn index() -> Index {
    let mut main = Main::new();
    main.put_schema(schema());
    main.put_words_fst(words(&["hello", "rust", "world"]));
    main.put_number_of_documents(3);

    let mut fields = DocumentsFields::new();
    fields.put_document_field(DocumentId(1), SchemaAttr(0), b"hello world".to_vec());
    fields.put_document_field(DocumentId(1), SchemaAttr(1), b"body".to_vec());
    fields.put_document_field(DocumentId(2), SchemaAttr(0), b"hello".to_vec());
    fields.put_document_field(DocumentId(3), SchemaAttr(0), b"rust".to_vec());

    let mut postings = PostingsLists::new();
    postings.put_postings_list(&b"hello".to_vec(), vec![doc_index(1, 0, 0), doc_index(2, 0, 0)]);
    postings.put_postings_list(&b"world".to_vec(), vec![doc_index(1, 0, 1)]);
    postings.put_postings_list(&b"rust".to_vec(), vec![doc_index(3, 0, 0)]);

    let mut docs_words = DocsWords::new();
    docs_words.put_doc_words(DocumentId(1), words(&["hello", "world"]));
    docs_words.put_doc_words(DocumentId(2), words(&["hello"]));
    docs_words.put_doc_words(DocumentId(3), words(&["rust"]));

    let mut ranked = RankedMap::new();
    ranked.insert(DocumentId(1), SchemaAttr(0), Number::Unsigned(10));
    ranked.insert(DocumentId(1), SchemaAttr(1), Number::Signed(-1));
    ranked.insert(DocumentId(1), SchemaAttr(2), Number::Float(0));
    ranked.insert(DocumentId(2), SchemaAttr(0), Number::Unsigned(20));
    ranked.insert(DocumentId(3), SchemaAttr(0), Number::Unsigned(30));

    Index { main, fields, postings, docs_words, ranked }
}

fn apply(index: &mut Index, ranked: RankedMap, ids: &[u64]) -> Result<(), Error> {
    apply_documents_deletion(
        &mut index.main,
        &mut index.fields,
        &mut index.postings,
        &mut index.docs_words,
        ranked,
        ids.iter().map(|id| DocumentId(*id)).collect(),
    )
}

fn clone_ranked(r: &RankedMap) -> RankedMap {
    let mut copy = RankedMap::new();
    for id in 0..10u64 {
        for attr in 0..4u16 {
            if let Some(n) = r.get(DocumentId(id), SchemaAttr(attr)) {
                copy.insert(DocumentId(id), SchemaAttr(attr), n);
            }
        }
    }
    copy
}

#[test]
fn batch_starts_empty_and_keeps_order() {
    let mut batch = DocumentsDeletion::new();
    batch.delete_document_by_id(DocumentId(7));
    batch.extend(vec![DocumentId(3), DocumentId(7)]);
    let mut updates = Updates::new();
    let results = UpdatesResults::new();
    let id = batch.finalize(&mut updates, &results);
    assert_eq!(id, 0);
    match updates.update(0) {
        Some(Update::DocumentsDeletion(ids)) => assert_eq!(ids, &vec![DocumentId(7), DocumentId(3), DocumentId(7)]),
        None => panic!("the batch was not recorded"),
    }
}

#[test]
fn delete_document_takes_the_extracted_id() {
    let mut batch = DocumentsDeletion::new();
    assert_eq!(batch.delete_document(Ok(Some(DocumentId(42)))), Ok(()));
    assert_eq!(batch.delete_document(Ok(None)), Err(Error::MissingDocumentId));
    assert_eq!(
        batch.delete_document(Err(Error::SerializerError("bad".to_string()))),
        Err(Error::SerializerError("bad".to_string()))
    );
    let mut updates = Updates::new();
    let results = UpdatesResults::new();
    let id = batch.finalize(&mut updates, &results);
    match updates.update(id) {
        Some(Update::DocumentsDeletion(ids)) => assert_eq!(ids, &vec![DocumentId(42)]),
        None => panic!("the batch was not recorded"),
    }
}

#[test]
fn successive_batches_take_consecutive_ids() {
    let mut updates = Updates::new();
    let mut results = UpdatesResults::new();
    assert_eq!(next_update_id(&updates, &results), 0);
    assert_eq!(push_documents_deletion(&mut updates, &results, vec![DocumentId(1)]), 0);
    assert_eq!(push_documents_deletion(&mut updates, &results, vec![DocumentId(2)]), 1);
    results.put_update_result(5);
    assert_eq!(next_update_id(&updates, &results), 6);
    assert_eq!(push_documents_deletion(&mut updates, &results, vec![]), 6);
    assert_eq!(updates.last_update_id(), Some(6));
    assert!(updates.update(0).is_some());
    assert!(updates.update(1).is_some());
    assert!(updates.update(2).is_none());
}

#[test]
fn deletion_without_schema_fails_and_changes_nothing() {
    let mut index = index();
    index.main = Main::new();
    let ranked = RankedMap::new();
    assert_eq!(apply(&mut index, ranked, &[1]), Err(Error::SchemaMissing));
    assert_eq!(index.postings.postings_list(&b"world".to_vec()).unwrap(), &vec![doc_index(1, 0, 1)]);
    assert!(index.fields.document_attribute(DocumentId(1), SchemaAttr(0)).is_some());
    assert!(index.docs_words.doc_words(DocumentId(1)).is_some());
    assert!(index.main.words_fst().is_none());
    assert_eq!(index.main.number_of_documents(), 0);
}

#[test]
fn deleting_a_document_removes_it_from_every_store() {
    let mut index = index();
    let ranked = clone_ranked(&index.ranked);
    // a repeated id and an unknown one
    assert_eq!(apply(&mut index, ranked, &[1, 1, 4]), Ok(()));

    assert_eq!(index.postings.postings_list(&b"hello".to_vec()).unwrap(), &vec![doc_index(2, 0, 0)]);
    assert!(index.postings.postings_list(&b"world".to_vec()).is_none());
    assert_eq!(index.postings.postings_list(&b"rust".to_vec()).unwrap(), &vec![doc_index(3, 0, 0)]);

    assert!(index.fields.document_attribute(DocumentId(1), SchemaAttr(0)).is_none());
    assert!(index.fields.document_attribute(DocumentId(1), SchemaAttr(1)).is_none());
    assert_eq!(index.fields.document_attribute(DocumentId(2), SchemaAttr(0)), Some(&b"hello".to_vec()));

    assert!(index.docs_words.doc_words(DocumentId(1)).is_none());
    assert_eq!(keys(index.docs_words.doc_words(DocumentId(2)).unwrap()), vec!["hello"]);

    assert_eq!(keys(index.main.words_fst().unwrap()), vec!["hello", "rust"]);
    assert_eq!(index.main.number_of_documents(), 2);

    let ranked = index.main.ranked_map().unwrap();
    assert_eq!(ranked.get(DocumentId(1), SchemaAttr(0)), None);
    assert_eq!(ranked.get(DocumentId(1), SchemaAttr(2)), None);
    assert_eq!(ranked.get(DocumentId(1), SchemaAttr(1)), Some(Number::Signed(-1)));
    assert_eq!(ranked.get(DocumentId(2), SchemaAttr(0)), Some(Number::Unsigned(20)));
    assert_eq!(ranked.len(), 3);
}

#[test]
fn deleting_every_document_empties_the_index() {
    let mut index = index();
    let ranked = clone_ranked(&index.ranked);
    assert_eq!(apply(&mut index, ranked, &[3, 2, 1]), Ok(()));
    for word in ["hello", "world", "rust"] {
        assert!(index.postings.postings_list(&word.as_bytes().to_vec()).is_none());
    }
    assert!(keys(index.main.words_fst().unwrap()).is_empty());
    assert_eq!(index.main.number_of_documents(), 0);
    for id in 1..4 {
        assert!(index.docs_words.doc_words(DocumentId(id)).is_none());
        assert!(index.fields.document_attribute(DocumentId(id), SchemaAttr(0)).is_none());
    }
    assert_eq!(index.main.ranked_map().unwrap().len(), 1);
}

#[test]
fn unsorted_batch_prunes_a_shared_word() {
    let mut index = index();
    index.postings.put_postings_list(&b"common".to_vec(), vec![doc_index(1, 1, 2), doc_index(2, 1, 0), doc_index(3, 1, 1)]);
    index.docs_words.put_doc_words(DocumentId(1), words(&["common", "hello", "world"]));
    index.docs_words.put_doc_words(DocumentId(3), words(&["common", "rust"]));
    assert_eq!(apply(&mut index, RankedMap::new(), &[3, 1]), Ok(()));
    assert_eq!(index.postings.postings_list(&b"common".to_vec()).unwrap(), &vec![doc_index(2, 1, 0)]);
    assert!(index.postings.postings_list(&b"rust".to_vec()).is_none());
    assert_eq!(keys(index.main.words_fst().unwrap()), vec!["hello"]);
    assert_eq!(index.main.number_of_documents(), 1);
}

#[test]
fn document_without_fields_is_not_counted() {
    let mut index = index();
    index.docs_words.put_doc_words(DocumentId(9), words(&["rust"]));
    index.postings.put_postings_list(&b"rust".to_vec(), vec![doc_index(3, 0, 0), doc_index(9, 0, 0)]);
    assert_eq!(apply(&mut index, RankedMap::new(), &[9]), Ok(()));
    assert_eq!(index.postings.postings_list(&b"rust".to_vec()).unwrap(), &vec![doc_index(3, 0, 0)]);
    // it had no fields: its words stay and the count does not move
    assert_eq!(keys(index.docs_words.doc_words(DocumentId(9)).unwrap()), vec!["rust"]);
    assert_eq!(index.main.number_of_documents(), 3);
}

#[test]
fn document_without_words_keeps_its_fields() {
    let mut index = index();
    index.fields.put_document_field(DocumentId(5), SchemaAttr(0), b"none".to_vec());
    assert_eq!(apply(&mut index, RankedMap::new(), &[5]), Ok(()));
    assert_eq!(index.fields.document_attribute(DocumentId(5), SchemaAttr(0)), Some(&b"none".to_vec()));
    assert_eq!(index.main.number_of_documents(), 3);
    assert_eq!(keys(index.main.words_fst().unwrap()), vec!["hello", "rust", "world"]);
}

#[test]
fn missing_words_set_becomes_empty() {
    let mut index = index();
    index.main = Main::new();
    index.main.put_schema(schema());
    index.main.put_number_of_documents(3);
    assert_eq!(apply(&mut index, RankedMap::new(), &[2]), Ok(()));
    assert!(keys(index.main.words_fst().unwrap()).is_empty());
    assert_eq!(index.main.number_of_documents(), 2);
    assert_eq!(index.postings.postings_list(&b"hello".to_vec()).unwrap(), &vec![doc_index(1, 0, 0)]);
}

#[test]
fn empty_batch_changes_no_document() {
    let mut index = index();
    let ranked = clone_ranked(&index.ranked);
    assert_eq!(apply(&mut index, ranked, &[]), Ok(()));
    assert_eq!(index.postings.postings_list(&b"hello".to_vec()).unwrap().len(), 2);
    assert_eq!(keys(index.main.words_fst().unwrap()), vec!["hello", "rust", "world"]);
    assert_eq!(index.main.number_of_documents(), 3);
    assert_eq!(index.main.ranked_map().unwrap().len(), 5);
}

#[test]
fn deleting_twice_changes_nothing_more() {
    let mut index = index();
    let ranked = clone_ranked(&index.ranked);
    assert_eq!(apply(&mut index, ranked, &[1]), Ok(()));
    let ranked = clone_ranked(index.main.ranked_map().unwrap());
    assert_eq!(apply(&mut index, ranked, &[1]), Ok(()));
    assert_eq!(index.postings.postings_list(&b"hello".to_vec()).unwrap(), &vec![doc_index(2, 0, 0)]);
    assert!(index.postings.postings_list(&b"world".to_vec()).is_none());
    assert_eq!(keys(index.main.words_fst().unwrap()), vec!["hello", "rust"]);
    assert_eq!(index.main.number_of_documents(), 2);
    assert_eq!(index.main.ranked_map().unwrap().len(), 3);
}

#[test]
fn stores_read_back_what_was_written() {
    let mut postings = PostingsLists::new();
    let word = b"w".to_vec();
    assert!(postings.postings_list(&word).is_none());
    postings.put_postings_list(&word, vec![doc_index(1, 0, 0)]);
    assert_eq!(postings.postings_list(&word).unwrap(), &vec![doc_index(1, 0, 0)]);
    assert!(postings.del_postings_list(&word));
    assert!(!postings.del_postings_list(&word));

    let mut fields = DocumentsFields::new();
    fields.put_document_field(DocumentId(1), SchemaAttr(0), b"a".to_vec());
    fields.put_document_field(DocumentId(1), SchemaAttr(0), b"b".to_vec());
    fields.put_document_field(DocumentId(1), SchemaAttr(3), b"c".to_vec());
    assert_eq!(fields.document_attribute(DocumentId(1), SchemaAttr(0)), Some(&b"b".to_vec()));
    assert_eq!(fields.del_all_document_fields(DocumentId(1)), 2);
    assert_eq!(fields.del_all_document_fields(DocumentId(1)), 0);

    let mut docs_words = DocsWords::new();
    docs_words.put_doc_words(DocumentId(4), words(&["a", "b"]));
    assert_eq!(keys(docs_words.doc_words(DocumentId(4)).unwrap()), vec!["a", "b"]);
    assert!(docs_words.del_doc_words(DocumentId(4)));
    assert!(!docs_words.del_doc_words(DocumentId(4)));

    let mut ranked = RankedMap::new();
    ranked.insert(DocumentId(1), SchemaAttr(1), Number::Unsigned(1));
    ranked.insert(DocumentId(1), SchemaAttr(1), Number::Unsigned(2));
    assert_eq!(ranked.len(), 1);
    assert_eq!(ranked.get(DocumentId(1), SchemaAttr(1)), Some(Number::Unsigned(2)));
    ranked.remove(DocumentId(1), SchemaAttr(1));
    assert_eq!(ranked.get(DocumentId(1), SchemaAttr(1)), None);

    let mut results = UpdatesResults::new();
    assert_eq!(results.last_update_id(), None);
    results.put_update_result(3);
    results.put_update_result(1);
    assert_eq!(results.last_update_id(), Some(3));
}

#[test]
fn schema_lists_its_ranked_attributes() {
    let s = schema();
    assert_eq!(s.ranked_attributes(), vec![SchemaAttr(0), SchemaAttr(2)]);
    assert_eq!(s.identifier_name(), "id");
}

#[test]
fn checked_deletion_refuses_to_count_below_zero() {
    let mut index = index();
    index.main.put_number_of_documents(1);
    let outcome = try_apply_documents_deletion(
        &mut index.main,
        &mut index.fields,
        &mut index.postings,
        &mut index.docs_words,
        RankedMap::new(),
        vec![DocumentId(1), DocumentId(2)],
    );
    assert_eq!(outcome, None);
    assert_eq!(index.postings.postings_list(&b"hello".to_vec()).unwrap().len(), 2);
    assert_eq!(index.main.number_of_documents(), 1);

    let outcome = try_apply_documents_deletion(
        &mut index.main,
        &mut index.fields,
        &mut index.postings,
        &mut index.docs_words,
        RankedMap::new(),
        vec![DocumentId(2)],
    );
    assert_eq!(outcome, Some(Ok(())));
    assert_eq!(index.main.number_of_documents(), 0);
    assert_eq!(index.postings.postings_list(&b"hello".to_vec()).unwrap(), &vec![doc_index(1, 0, 0)]);
}

fn snapshot(index: &Index) -> (Vec<Option<Vec<DocIndex>>>, Vec<Option<Vec<String>>>, Vec<bool>, Vec<String>, u64, Vec<Option<Number>>) {
    let postings = ["hello", "world", "rust", "common"]
        .iter()
        .map(|w| index.postings.postings_list(&w.as_bytes().to_vec()).cloned())
        .collect();
    let docs_words = (0..6u64).map(|id| index.docs_words.doc_words(DocumentId(id)).map(keys)).collect();
    let fields = (0..6u64)
        .map(|id| index.fields.document_attribute(DocumentId(id), SchemaAttr(0)).is_some())
        .collect();
    let words = keys(index.main.words_fst().unwrap());
    let ranked = index.main.ranked_map().unwrap();
    let ranks = (0..6u64)
        .flat_map(|id| (0..3u16).map(move |a| (id, a)))
        .map(|(id, a)| ranked.get(DocumentId(id), SchemaAttr(a)))
        .collect();
    (postings, docs_words, fields, words, index.main.number_of_documents(), ranks)
}

#[test]
fn two_batches_leave_the_index_as_one_batch_of_both() {
    let mut twice = index();
    let ranked = clone_ranked(&twice.ranked);
    assert_eq!(apply(&mut twice, ranked, &[1, 4]), Ok(()));
    let ranked = clone_ranked(twice.main.ranked_map().unwrap());
    assert_eq!(apply(&mut twice, ranked, &[3, 1]), Ok(()));

    let mut once = index();
    let ranked = clone_ranked(&once.ranked);
    assert_eq!(apply(&mut once, ranked, &[1, 4, 3, 1]), Ok(()));

    assert_eq!(snapshot(&twice), snapshot(&once));
    assert_eq!(twice.main.number_of_documents(), 1);
    assert_eq!(keys(twice.main.words_fst().unwrap()), vec!["hello"]);
}

#[test]
fn deletion_keeps_the_stores_in_agreement() {
    let mut index = index();
    let ranked = clone_ranked(&index.ranked);
    assert_eq!(apply(&mut index, ranked, &[2]), Ok(()));
    // every word of the set has a postings list, and only those
    let words = keys(index.main.words_fst().unwrap());
    assert_eq!(words, vec!["hello", "rust", "world"]);
    for w in ["hello", "rust", "world"] {
        let list = index.postings.postings_list(&w.as_bytes().to_vec()).unwrap();
        assert!(!list.is_empty());
        for d in list {
            assert!(keys(index.docs_words.doc_words(d.document_id).unwrap()).contains(&w.to_string()));
        }
    }
    // documents with fields are those with words, and they are counted
    assert!(index.docs_words.doc_words(DocumentId(2)).is_none());
    assert!(index.fields.document_attribute(DocumentId(2), SchemaAttr(0)).is_none());
    assert_eq!(index.main.number_of_documents(), 2);
}
