//! The sets of words of the index are `fst` sets: lexicographically ordered
//! sets of byte strings.

use vstd::prelude::*;

use fst::Streamer;

verus! {

#[verifier::external_type_specification]
#[verifier::external_body]
pub struct ExFstSet(fst::Set);

/// The keys of an `fst` set, in the order in which the set streams them.
pub uninterp spec fn fst_set_keys(set: fst::Set) -> Seq<Seq<u8>>;

/// Byte-wise lexicographic order: `a` comes before `b`.
pub open spec fn bytes_lt(a: Seq<u8>, b: Seq<u8>) -> bool {
    exists|n: int|
        #![trigger a.take(n), b.take(n)]
        0 <= n <= a.len() && n <= b.len() && a.take(n) == b.take(n) && (
            (n == a.len() && n < b.len()) || (n < a.len() && n < b.len() && a[n] < b[n]))
}

/// The byte strings are in strictly increasing lexicographic order.
pub open spec fn strictly_sorted(words: Seq<Seq<u8>>) -> bool {
    forall|i: int, j: int| 0 <= i < j < words.len() ==> bytes_lt(#[trigger] words[i], #[trigger] words[j])
}

/// The abstract value of a vector of byte strings.
pub open spec fn words_view(words: Seq<Vec<u8>>) -> Seq<Seq<u8>> {
    words.map_values(|w: Vec<u8>| w@)
}

/// Streams the keys of a set (`fst::Set::stream`) into a vector. The set is
/// lexicographically ordered, so the keys come out strictly increasing.
#[verifier::external_body]
pub(crate) fn set_keys(set: &fst::Set) -> (r: Vec<Vec<u8>>)
    ensures
        words_view(r@) == fst_set_keys(*set),
        strictly_sorted(words_view(r@)),
{
    let mut keys = Vec::new();
    let mut stream = set.stream();
    while let Some(key) = stream.next() {
        keys.push(key.to_vec());
    }
    keys
}

/// Builds a set from strictly increasing keys (`fst::Set::from_iter`, which
/// fails only on keys out of order); the set holds exactly those keys.
#[verifier::external_body]
pub(crate) fn set_from_sorted(keys: &Vec<Vec<u8>>) -> (r: fst::Set)
    requires
        strictly_sorted(words_view(keys@)),
    ensures
        fst_set_keys(r) == words_view(keys@),
{
    fst::Set::from_iter(keys.iter()).unwrap()
}

/// The empty set (`fst::Set::default`).
#[verifier::external_body]
pub(crate) fn set_empty() -> (r: fst::Set)
    ensures
        fst_set_keys(r) == Seq::<Seq<u8>>::empty(),
{
    fst::Set::default()
}

} // verus!
