# meilidb-core: verified deletion of documents

The library deletes batches of documents from a MeiliDB index, with every
function's behaviour stated in `requires`/`ensures` and proved by Verus.

- `src/update/documents_deletion.rs`: the deletion batch (`DocumentsDeletion`),
  its recording as an update (`push_documents_deletion`) and the application
  of a deletion to the stores (`apply_documents_deletion`, and
  `try_apply_documents_deletion`, which refuses a deletion that would make the
  number of documents negative).
- `src/update/deletion_spec.rs`: what a deletion makes of each store.
- `src/update/deletion_steps.rs`: the loops of the deletion, each with its
  contract.
- `src/update/deletion_laws.rs`: properties of every deletion (no posting of a
  deleted document is left, no postings list is left empty, the set of words
  follows the postings lists, the number of documents follows the fields, an
  index whose stores agree keeps them in agreement, a batch is read as a set,
  two batches one after the other act as one batch of both, a second deletion
  of the same documents changes nothing, ...).
- `src/store/`: the stores of an index held in memory, each a map with its
  invariant; `src/vec_map.rs` is the map they are built on.
- `src/fst_set.rs`, `src/sdset_ops.rs`: the calls into `fst` and `sdset`,
  with the contracts the library relies on.
- `app/`: a batch that notifies the update loop through a `crossbeam-channel`
  sender once it is recorded.
