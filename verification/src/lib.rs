//! A single-user, file-persisted task tracker core.
//!
//! The store owns the task collection and its id-issuance counter; the codec
//! turns a store into its durable textual form and back. File handling and
//! command-line plumbing live outside the library and exchange plain values
//! with it.

pub mod codec;
pub mod digits;
pub mod news;
pub mod parse;
pub mod roundtrip;
pub mod store;
pub mod text;
