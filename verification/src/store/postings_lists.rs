use vstd::prelude::*;

use crate::sdset_ops::sorted_by_document;
use crate::types::DocIndex;
use crate::vec_map::VecMap;

verus! {

/// For each word, the occurrences of the word in the documents, sorted by
/// document.
pub struct PostingsLists {
    lists: VecMap<Vec<u8>, Vec<DocIndex>>,
}

impl View for PostingsLists {
    type V = Map<Seq<u8>, Seq<DocIndex>>;

    closed spec fn view(&self) -> Map<Seq<u8>, Seq<DocIndex>> {
        self.lists.map().map_values(|l: Vec<DocIndex>| l@)
    }
}

impl PostingsLists {
    /// Every postings list is sorted by document.
    pub closed spec fn wf(&self) -> bool {
        &&& self.lists.wf()
        &&& forall|w: Seq<u8>| #[trigger] self@.contains_key(w) ==> sorted_by_document(self@[w])
    }

    pub fn new() -> (r: Self)
        ensures
            r.wf(),
            r@ == Map::<Seq<u8>, Seq<DocIndex>>::empty(),
    {
        let r = PostingsLists { lists: VecMap::new() };
        assert(r@ =~= Map::<Seq<u8>, Seq<DocIndex>>::empty());
        r
    }

    /// The postings list of a word.
    pub fn postings_list(&self, word: &Vec<u8>) -> (r: Option<&Vec<DocIndex>>)
        requires
            self.wf(),
        ensures
            match r {
                Some(l) => self@.contains_key(word@) && l@ == self@[word@] && sorted_by_document(l@),
                None => !self@.contains_key(word@),
            },
    {
        self.lists.get(word)
    }

    /// Sets the postings list of a word.
    pub fn put_postings_list(&mut self, word: &Vec<u8>, doc_indexes: Vec<DocIndex>)
        requires
            old(self).wf(),
            sorted_by_document(doc_indexes@),
        ensures
            final(self).wf(),
            final(self)@ == old(self)@.insert(word@, doc_indexes@),
    {
        let key = word.clone();
        assert(key@ =~= word@);
        let ghost l = doc_indexes@;
        self.lists.insert(key, doc_indexes);
        assert(self@ =~= old(self)@.insert(word@, l));
    }

    /// Removes the postings list of a word; tells whether there was one.
    pub fn del_postings_list(&mut self, word: &Vec<u8>) -> (r: bool)
        requires
            old(self).wf(),
        ensures
            final(self).wf(),
            final(self)@ == old(self)@.remove(word@),
            r == old(self)@.contains_key(word@),
    {
        let r = self.lists.remove(word);
        assert(self@ =~= old(self)@.remove(word@));
        r.is_some()
    }
}

} // verus!
