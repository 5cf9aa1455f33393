//! Verified core logic of the Chronicle permanode: value encodings, chunked
//! batching, ledger-update stream assembly, sync bookkeeping and analytics.

pub mod analytics;
pub mod bson;
pub mod chunks;
pub mod collections;
pub mod cone;
pub mod config;
pub mod doc_path;
pub mod document;
pub mod gaps;
pub mod indexer;
pub mod inx;
pub mod ledger;
pub mod measurement;
pub mod milestone;
pub mod types;
pub mod stream;
pub mod sync;
