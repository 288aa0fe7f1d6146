//! A small content-addressed object store.
//!
//! Uploads are streamed into a staging file while a 128-bit fingerprint is
//! computed, then committed under their content hash; downloads are served
//! with HTTP range and conditional-caching semantics. The decision logic —
//! what a response contains for given headers, how a request path is jailed
//! under a base directory, and how a content hash is derived — is verified;
//! sockets, routing and the event loop live outside this crate.

pub mod context;
pub mod hashing;
pub mod range;
pub mod static_files;

use vstd::prelude::*;

verus! {

/// Why a storage operation failed.
#[derive(Clone, Copy, Debug, PartialEq, Eq, Structural)]
pub enum StoreError {
    /// An unexpected filesystem error; surfaced as HTTP 500, never retried.
    StorageIo,
}

} // verus!
