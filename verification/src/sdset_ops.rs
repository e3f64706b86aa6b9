//! Operations on sorted and deduplicated sequences, made by `sdset`.

use vstd::prelude::*;

use sdset::SetOperation;

use crate::types::DocIndex;

verus! {

/// The numbers are in strictly increasing order.
pub open spec fn strictly_increasing(s: Seq<u64>) -> bool {
    forall|i: int, j: int| 0 <= i < j < s.len() ==> #[trigger] s[i] < #[trigger] s[j]
}

/// The document ids of the entries are in non-decreasing order.
pub open spec fn sorted_by_document(s: Seq<DocIndex>) -> bool {
    forall|i: int, j: int| 0 <= i <= j < s.len() ==> #[trigger] s[i].document_id.0 <= #[trigger] s[j].document_id.0
}

/// The entries whose document is not one of `ids`, in their order.
pub open spec fn without_documents(s: Seq<DocIndex>, ids: Set<u64>) -> Seq<DocIndex> {
    s.filter(|d: DocIndex| !ids.contains(d.document_id.0))
}

/// Sorts and deduplicates numbers (`sdset::SetBuf::from_dirty`, a sort
/// followed by a dedup): the result is strictly increasing and holds the
/// numbers of the input, each once.
#[verifier::external_body]
pub(crate) fn set_buf_from_dirty(ids: Vec<u64>) -> (r: Vec<u64>)
    ensures
        strictly_increasing(r@),
        r@.to_set() == ids@.to_set(),
{
    sdset::SetBuf::from_dirty(ids).into_vec()
}

/// The entries of `doc_indexes` whose document is not in `ids`
/// (`sdset::duo::DifferenceByKey`, keyed by the document id), in their order.
/// The entries must be sorted by document and the ids strictly increasing.
#[verifier::external_body]
pub(crate) fn difference_by_document(doc_indexes: &[DocIndex], ids: &[u64]) -> (r: Vec<DocIndex>)
    requires
        sorted_by_document(doc_indexes@),
        strictly_increasing(ids@),
    ensures
        r@ == without_documents(doc_indexes@, ids@.to_set()),
{
    let a = sdset::Set::new_unchecked(doc_indexes);
    let b = sdset::Set::new_unchecked(ids);
    let op = sdset::duo::DifferenceByKey::new(a, b, |d: &DocIndex| d.document_id.0, |id: &u64| *id);
    let r: sdset::SetBuf<DocIndex> = op.into_set_buf();
    r.into_vec()
}

} // verus!
