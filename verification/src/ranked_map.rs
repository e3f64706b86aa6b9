use vstd::prelude::*;

use crate::types::{DocumentId, Number, SchemaAttr};
use crate::vec_map::VecMap;

verus! {

/// The ranked values of the documents, by document and attribute.
pub struct RankedMap {
    ranks: VecMap<(DocumentId, SchemaAttr), Number>,
}

impl View for RankedMap {
    type V = Map<(u64, u16), Number>;

    closed spec fn view(&self) -> Map<(u64, u16), Number> {
        self.ranks.map()
    }
}

impl RankedMap {
    pub closed spec fn wf(&self) -> bool {
        self.ranks.wf()
    }

    pub fn new() -> (r: Self)
        ensures
            r.wf(),
            r@ == Map::<(u64, u16), Number>::empty(),
    {
        RankedMap { ranks: VecMap::new() }
    }

    /// The number of ranked values.
    pub fn len(&self) -> (r: usize)
        requires
            self.wf(),
        ensures
            r == self@.len(),
    {
        self.ranks.len()
    }

    /// Sets the ranked value of an attribute of a document.
    pub fn insert(&mut self, document: DocumentId, attribute: SchemaAttr, number: Number)
        requires
            old(self).wf(),
        ensures
            final(self).wf(),
            final(self)@ == old(self)@.insert((document.0, attribute.0), number),
    {
        self.ranks.insert((document, attribute), number);
    }

    /// The ranked value of an attribute of a document.
    pub fn get(&self, document: DocumentId, attribute: SchemaAttr) -> (r: Option<Number>)
        requires
            self.wf(),
        ensures
            match r {
                Some(n) => self@.contains_key((document.0, attribute.0)) && n == self@[(document.0, attribute.0)],
                None => !self@.contains_key((document.0, attribute.0)),
            },
    {
        match self.ranks.get(&(document, attribute)) {
            Some(n) => Some(*n),
            None => None,
        }
    }

    /// Removes the ranked value of an attribute of a document.
    pub fn remove(&mut self, document: DocumentId, attribute: SchemaAttr)
        requires
            old(self).wf(),
        ensures
            final(self).wf(),
            final(self)@ == old(self)@.remove((document.0, attribute.0)),
    {
        let _ = self.ranks.remove(&(document, attribute));
    }
}

} // verus!
