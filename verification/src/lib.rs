//! Deletion of documents from a MeiliDB index.
//!
//! The index is held in memory by the stores of [`store`]; the logic that
//! removes a batch of documents from every store lives in
//! [`update::documents_deletion`].

pub mod ranked_map;
pub mod types;
pub mod update;
pub mod vec_map;
pub mod fst_set;
pub mod sdset_ops;
pub mod store;
