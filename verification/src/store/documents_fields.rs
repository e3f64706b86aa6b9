use vstd::prelude::*;

use crate::types::{DocumentId, SchemaAttr};
use crate::vec_map::VecMap;

verus! {

/// For each document, the value of each of its fields, by attribute.
pub struct DocumentsFields {
    fields: VecMap<DocumentId, VecMap<SchemaAttr, Vec<u8>>>,
}

/// The abstract value of the fields of one document.
pub open spec fn fields_view(m: VecMap<SchemaAttr, Vec<u8>>) -> Map<u16, Seq<u8>> {
    m.map().map_values(|v: Vec<u8>| v@)
}

impl View for DocumentsFields {
    type V = Map<u64, Map<u16, Seq<u8>>>;

    closed spec fn view(&self) -> Map<u64, Map<u16, Seq<u8>>> {
        self.fields.map().map_values(|m: VecMap<SchemaAttr, Vec<u8>>| fields_view(m))
    }
}

impl DocumentsFields {
    pub closed spec fn wf(&self) -> bool {
        &&& self.fields.wf()
        &&& forall|id: u64| #[trigger] self.fields.map().contains_key(id) ==> self.fields.map()[id].wf()
    }

    pub fn new() -> (r: Self)
        ensures
            r.wf(),
            r@ == Map::<u64, Map<u16, Seq<u8>>>::empty(),
    {
        let r = DocumentsFields { fields: VecMap::new() };
        assert(r@ =~= Map::<u64, Map<u16, Seq<u8>>>::empty());
        r
    }

    /// Sets the value of a field of a document.
    pub fn put_document_field(&mut self, document_id: DocumentId, attribute: SchemaAttr, value: Vec<u8>)
        requires
            old(self).wf(),
        ensures
            final(self).wf(),
            final(self)@ == old(self)@.insert(
                document_id.0,
                if old(self)@.contains_key(document_id.0) {
                    old(self)@[document_id.0].insert(attribute.0, value@)
                } else {
                    Map::<u16, Seq<u8>>::empty().insert(attribute.0, value@)
                },
            ),
    {
        let ghost v = value@;
        let mut doc = match self.fields.remove(&document_id) {
            Some(m) => m,
            None => VecMap::new(),
        };
        let ghost before = fields_view(doc);
        assert(before =~= (if old(self)@.contains_key(document_id.0) {
            old(self)@[document_id.0]
        } else {
            Map::<u16, Seq<u8>>::empty()
        }));
        doc.insert(attribute, value);
        assert(fields_view(doc) =~= before.insert(attribute.0, v));
        let ghost doc_view = fields_view(doc);
        self.fields.insert(document_id, doc);
        assert(self@ =~= old(self)@.insert(document_id.0, doc_view));
    }

    /// The value of a field of a document.
    pub fn document_attribute(&self, document_id: DocumentId, attribute: SchemaAttr) -> (r: Option<&Vec<u8>>)
        requires
            self.wf(),
        ensures
            match r {
                Some(v) => self@.contains_key(document_id.0) && self@[document_id.0].contains_key(attribute.0)
                    && v@ == self@[document_id.0][attribute.0],
                None => !(self@.contains_key(document_id.0) && self@[document_id.0].contains_key(attribute.0)),
            },
    {
        match self.fields.get(&document_id) {
            Some(doc) => doc.get(&attribute),
            None => None,
        }
    }

    /// The number of fields of a document.
    pub fn document_fields_count(&self, document_id: DocumentId) -> (r: usize)
        requires
            self.wf(),
        ensures
            r == if self@.contains_key(document_id.0) { self@[document_id.0].len() } else { 0 },
    {
        match self.fields.get(&document_id) {
            Some(doc) => {
                proof {
                    doc.lemma_entries();
                    assert(fields_view(*doc).dom() =~= doc.map().dom());
                }
                doc.len()
            },
            None => 0,
        }
    }

    /// Removes every field of a document; returns how many there were.
    pub fn del_all_document_fields(&mut self, document_id: DocumentId) -> (r: usize)
        requires
            old(self).wf(),
        ensures
            final(self).wf(),
            final(self)@ == old(self)@.remove(document_id.0),
            r == if old(self)@.contains_key(document_id.0) { old(self)@[document_id.0].len() } else { 0 },
    {
        let r = match self.fields.remove(&document_id) {
            Some(doc) => {
                proof {
                    doc.lemma_entries();
                    assert(fields_view(doc).dom() =~= doc.map().dom());
                }
                doc.len()
            },
            None => 0,
        };
        assert(self@ =~= old(self)@.remove(document_id.0));
        r
    }
}

} // verus!
