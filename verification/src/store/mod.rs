//! The stores of an index, held in memory: each keeps its entries with the
//! invariant that makes it a map, and states its operations over that map.

pub mod docs_words;
pub mod documents_fields;
pub mod main;
pub mod postings_lists;
pub mod updates;
pub mod updates_results;
