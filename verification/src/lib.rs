//! Backend core of a small note-taking shell: a filename sanitizer, a
//! sandboxed text-document store, a single-slot user session, and the
//! decision logic of the host file-dialog bridge.
//!
//! All filesystem and host-dialog work lives outside this crate; the
//! functions here compute over plain values and carry their full contracts.

pub mod bridge;
pub mod errors;
pub mod listing;
pub mod order;
pub mod sanitize;
pub mod session;
pub mod store;
