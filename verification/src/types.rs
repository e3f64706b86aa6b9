use vstd::prelude::*;

verus! {

/// The identifier of a document in the index.
#[derive(Clone, Copy, Debug, PartialEq, Eq, Hash, Structural)]
pub struct DocumentId(pub u64);

/// The number of an attribute of the schema.
#[derive(Clone, Copy, Debug, PartialEq, Eq, Hash, Structural)]
pub struct SchemaAttr(pub u16);

/// One occurrence of a word in a document: the entries of a postings list.
#[derive(Clone, Copy, Debug, PartialEq, Eq, Hash, Structural)]
pub struct DocIndex {
    pub document_id: DocumentId,
    pub attribute: u16,
    pub word_index: u16,
    pub char_index: u16,
    pub char_length: u16,
}

/// A ranked value of a document attribute. A float is held by its IEEE-754
/// bit pattern.
#[derive(Clone, Copy, Debug, PartialEq, Eq, Hash, Structural)]
pub enum Number {
    Unsigned(u64),
    Signed(i64),
    Float(u64),
}

/// The errors of the update operations.
#[derive(Clone, Debug, PartialEq, Eq)]
pub enum Error {
    /// The index has no schema.
    SchemaMissing,
    /// A document does not hold the identifier attribute of the schema.
    MissingDocumentId,
    /// A document could not be serialized.
    SerializerError(String),
}

/// An attribute of the schema, with its name and whether it is ranked.
#[derive(Clone, Debug)]
pub struct SchemaAttribute {
    pub name: String,
    pub attr: SchemaAttr,
    pub ranked: bool,
}

/// The schema of an index: the name of its identifier attribute and its
/// attributes.
#[derive(Clone, Debug)]
pub struct Schema {
    pub identifier: String,
    pub attributes: Vec<SchemaAttribute>,
}

/// Whether one of the first `n` attributes is ranked and has the number `a`.
pub open spec fn ranked_among(attrs: Seq<SchemaAttribute>, n: int, a: u16) -> bool {
    exists|k: int| 0 <= k < n && #[trigger] attrs[k].attr.0 == a && attrs[k].ranked
}

impl Schema {
    /// The numbers of the ranked attributes of the schema.
    pub open spec fn ranked_attrs(&self) -> Set<u16> {
        Set::new(|a: u16| ranked_among(self.attributes@, self.attributes@.len() as int, a))
    }

    /// The name of the identifier attribute.
    pub fn identifier_name(&self) -> (r: &String)
        ensures
            r == &self.identifier,
    {
        &self.identifier
    }

    /// The ranked attributes of the schema, in the order of the schema.
    pub fn ranked_attributes(&self) -> (r: Vec<SchemaAttr>)
        ensures
            r@ == ranked_seq(self.attributes@),
            forall|a: u16| self.ranked_attrs().contains(a) <==> #[trigger] attr_listed(r@, a),
    {
        let mut r: Vec<SchemaAttr> = Vec::new();
        let n = self.attributes.len();
        assert(ranked_seq(self.attributes@.take(0)) =~= Seq::<SchemaAttr>::empty()) by {
            reveal(Seq::filter);
        }
        for i in 0..n
            invariant
                n == self.attributes@.len(),
                forall|a: u16| ranked_among(self.attributes@, i as int, a) <==> #[trigger] attr_listed(r@, a),
                r@ == ranked_seq(self.attributes@.take(i as int)),
        {
            assert(self.attributes@.take(i + 1).drop_last() =~= self.attributes@.take(i as int));
            assert(ranked_seq(self.attributes@.take(i + 1)) == if self.attributes@[i as int].ranked {
                ranked_seq(self.attributes@.take(i as int)).push(self.attributes@[i as int].attr)
            } else {
                ranked_seq(self.attributes@.take(i as int))
            }) by {
                reveal(Seq::filter);
                assert(self.attributes@.take(i + 1).last() == self.attributes@[i as int]);
            }
            let ghost before = r@;
            if self.attributes[i].ranked {
                r.push(self.attributes[i].attr);
            }
            assert forall|a: u16| ranked_among(self.attributes@, i + 1, a) <==> #[trigger] attr_listed(r@, a) by {
                if ranked_among(self.attributes@, i + 1, a) {
                    let k = choose|k: int| 0 <= k < i + 1 && #[trigger] self.attributes@[k].attr.0 == a && self.attributes@[k].ranked;
                    if k == i {
                        assert(r@[r@.len() - 1].0 == a);
                    } else {
                        assert(ranked_among(self.attributes@, i as int, a));
                        assert(attr_listed(before, a));
                        let j = choose|j: int| 0 <= j < before.len() && #[trigger] before[j].0 == a;
                        assert(r@[j] == before[j]);
                    }
                }
                if attr_listed(r@, a) {
                    let j = choose|j: int| 0 <= j < r@.len() && #[trigger] r@[j].0 == a;
                    if j < before.len() {
                        assert(before[j] == r@[j]);
                        assert(attr_listed(before, a));
                        assert(ranked_among(self.attributes@, i as int, a));
                    } else {
                        assert(self.attributes@[i as int].attr.0 == a);
                    }
                }
            }
        }
        assert(self.attributes@.take(n as int) =~= self.attributes@);
        r
    }
}

/// The numbers of the ranked attributes, in their order.
pub open spec fn ranked_seq(attrs: Seq<SchemaAttribute>) -> Seq<SchemaAttr> {
    attrs.filter(|a: SchemaAttribute| a.ranked).map_values(|a: SchemaAttribute| a.attr)
}

/// Whether `a` is the number of one of the attributes of `attrs`.
pub open spec fn attr_listed(attrs: Seq<SchemaAttr>, a: u16) -> bool {
    exists|j: int| 0 <= j < attrs.len() && #[trigger] attrs[j].0 == a
}

} // verus!
