use vstd::prelude::*;

use crate::fst_set::fst_set_keys;
use crate::ranked_map::RankedMap;
use crate::types::{Number, Schema};

verus! {

/// The abstract value of the main store.
pub struct MainView {
    pub schema: Option<Schema>,
    pub words: Option<Seq<Seq<u8>>>,
    pub ranked_map: Option<Map<(u64, u16), Number>>,
    pub number_of_documents: u64,
}

/// The main store of an index: its schema, the set of all its words, the
/// ranked values of its documents and its number of documents.
pub struct Main {
    schema: Option<Schema>,
    words_fst: Option<fst::Set>,
    ranked_map: Option<RankedMap>,
    number_of_documents: u64,
}

impl View for Main {
    type V = MainView;

    closed spec fn view(&self) -> MainView {
        MainView {
            schema: self.schema,
            words: match self.words_fst {
                Some(s) => Some(fst_set_keys(s)),
                None => None,
            },
            ranked_map: match self.ranked_map {
                Some(m) => Some(m@),
                None => None,
            },
            number_of_documents: self.number_of_documents,
        }
    }
}

impl Main {
    pub closed spec fn wf(&self) -> bool {
        match self.ranked_map {
            Some(m) => m.wf(),
            None => true,
        }
    }

    /// An empty main store: no schema, no words, no ranked values, no document.
    pub fn new() -> (r: Self)
        ensures
            r.wf(),
            r@.schema is None,
            r@.words is None,
            r@.ranked_map is None,
            r@.number_of_documents == 0,
    {
        Main { schema: None, words_fst: None, ranked_map: None, number_of_documents: 0 }
    }

    pub fn schema(&self) -> (r: Option<&Schema>)
        ensures
            match r {
                Some(s) => self@.schema == Some(*s),
                None => self@.schema is None,
            },
    {
        match &self.schema {
            Some(s) => Some(s),
            None => None,
        }
    }

    pub fn put_schema(&mut self, schema: Schema)
        requires
            old(self).wf(),
        ensures
            final(self).wf(),
            final(self)@ == (MainView { schema: Some(schema), ..old(self)@ }),
    {
        self.schema = Some(schema);
    }

    /// The set of all the words of the index.
    pub fn words_fst(&self) -> (r: Option<&fst::Set>)
        ensures
            match r {
                Some(s) => self@.words == Some(fst_set_keys(*s)),
                None => self@.words is None,
            },
    {
        match &self.words_fst {
            Some(s) => Some(s),
            None => None,
        }
    }

    pub fn put_words_fst(&mut self, words: fst::Set)
        requires
            old(self).wf(),
        ensures
            final(self).wf(),
            final(self)@ == (MainView { words: Some(fst_set_keys(words)), ..old(self)@ }),
    {
        self.words_fst = Some(words);
    }

    pub fn ranked_map(&self) -> (r: Option<&RankedMap>)
        requires
            self.wf(),
        ensures
            match r {
                Some(m) => m.wf() && self@.ranked_map == Some(m@),
                None => self@.ranked_map is None,
            },
    {
        match &self.ranked_map {
            Some(m) => Some(m),
            None => None,
        }
    }

    pub fn put_ranked_map(&mut self, ranked_map: RankedMap)
        requires
            old(self).wf(),
            ranked_map.wf(),
        ensures
            final(self).wf(),
            final(self)@ == (MainView { ranked_map: Some(ranked_map@), ..old(self)@ }),
    {
        self.ranked_map = Some(ranked_map);
    }

    pub fn number_of_documents(&self) -> (r: u64)
        ensures
            r == self@.number_of_documents,
    {
        self.number_of_documents
    }

    pub fn put_number_of_documents(&mut self, number_of_documents: u64)
        requires
            old(self).wf(),
        ensures
            final(self).wf(),
            final(self)@ == (MainView { number_of_documents, ..old(self)@ }),
    {
        self.number_of_documents = number_of_documents;
    }
}

} // verus!
