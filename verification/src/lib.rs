//! A content-addressable object store and commit-graph reader.
//!
//! Objects are blobs, trees, commits and tags. Each is stored as the zlib
//! stream of its framed form, in a file named by the SHA-1 hash of that
//! form. References name hashes, directly or through other references. The
//! library works on a snapshot of the file tree held in memory, and keeps
//! the changes that it makes in order, so that they can be written back.
pub mod checkout;
pub mod codec;
pub mod config;
pub mod digest;
pub mod files;
pub mod hex;
pub mod kvlm;
pub mod logscreen;
pub mod number;
pub mod objects;
pub mod refs;
pub mod repository;
pub mod show;
pub mod store;
pub mod table;
pub mod text;
pub mod tree;
