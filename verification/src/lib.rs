//! A content-addressable object store: canonical typed-object encoding,
//! SHA-1 addressing, zlib-compressed on-disk form, and decoding of tree
//! (directory-listing) objects into ordered entries.
//!
//! The library is pure computation on byte vectors: callers at the
//! filesystem boundary hand in raw file bytes and take back encoded bytes,
//! digests and parsed objects.

pub mod bytes;
pub mod cli;
pub mod codec;
pub mod decimal;
pub mod digest;
pub mod errors;
pub mod hashing;
pub mod kind;
pub mod store;
pub mod tree;
pub mod zlib;
