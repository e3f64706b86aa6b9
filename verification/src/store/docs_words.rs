use vstd::prelude::*;

use crate::fst_set::fst_set_keys;
use crate::types::DocumentId;
use crate::vec_map::VecMap;

verus! {

/// For each document, the set of its words.
pub struct DocsWords {
    words: VecMap<DocumentId, fst::Set>,
}

impl View for DocsWords {
    type V = Map<u64, Seq<Seq<u8>>>;

    closed spec fn view(&self) -> Map<u64, Seq<Seq<u8>>> {
        self.words.map().map_values(|s: fst::Set| fst_set_keys(s))
    }
}

impl DocsWords {
    pub closed spec fn wf(&self) -> bool {
        self.words.wf()
    }

    pub fn new() -> (r: Self)
        ensures
            r.wf(),
            r@ == Map::<u64, Seq<Seq<u8>>>::empty(),
    {
        let r = DocsWords { words: VecMap::new() };
        assert(r@ =~= Map::<u64, Seq<Seq<u8>>>::empty());
        r
    }

    /// Sets the words of a document.
    pub fn put_doc_words(&mut self, document_id: DocumentId, words: fst::Set)
        requires
            old(self).wf(),
        ensures
            final(self).wf(),
            final(self)@ == old(self)@.insert(document_id.0, fst_set_keys(words)),
    {
        let ghost keys = fst_set_keys(words);
        self.words.insert(document_id, words);
        assert(self@ =~= old(self)@.insert(document_id.0, keys));
    }

    /// The words of a document.
    pub fn doc_words(&self, document_id: DocumentId) -> (r: Option<&fst::Set>)
        requires
            self.wf(),
        ensures
            match r {
                Some(s) => self@.contains_key(document_id.0) && fst_set_keys(*s) == self@[document_id.0],
                None => !self@.contains_key(document_id.0),
            },
    {
        self.words.get(&document_id)
    }

    /// Removes the words of a document; tells whether there were some.
    pub fn del_doc_words(&mut self, document_id: DocumentId) -> (r: bool)
        requires
            old(self).wf(),
        ensures
            final(self).wf(),
            final(self)@ == old(self)@.remove(document_id.0),
            r == old(self)@.contains_key(document_id.0),
    {
        let r = self.words.remove(&document_id);
        assert(self@ =~= old(self)@.remove(document_id.0));
        r.is_some()
    }
}

} // verus!
