//! A deterministic, content-addressed, versioned page storage for smart
//! contracts, together with the small byte-level helpers of the runtime
//! around it.
//!
//! Every contract owns a fixed number of pages. The pages are persisted in a
//! flat key-value store under the digest of their content, and the digests of
//! all pages of a contract are summarised by one state root. Opening a
//! storage at a state root reconstructs the pages of that moment.

pub mod app_storage;
pub mod buffer;
pub mod bytes;
pub mod common;
pub mod contract_store;
pub mod error;
pub mod hasher;
pub mod helpers;
pub mod kv;
pub mod laws;
pub mod merkle_page_storage;
pub mod nibble;
pub mod page;
pub mod page_slice_cache;
pub mod runtime;
pub mod template_builder;
pub mod testing;
pub mod types;
pub mod value;
