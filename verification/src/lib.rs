//! A key-value store that keeps every key in a file of its own and mirrors
//! all of them in memory.
//!
//! The crate holds the decisions of such a store: how a column and a key
//! name a file, which directory entries hold a key, what a transaction asks
//! of the disk, and what it does to the mirror that serves every read. The
//! caller performs the file operations themselves.
//!
//! A store is opened from the files that a scan of its column directories
//! found ([`disk::holds_key`] says which entries count). A write has two
//! halves: [`InFile::plan`] gives the steps on disk, and [`InFile::write`]
//! brings the mirror up to date once the caller has performed them.

pub mod bytes;
pub mod disk;
pub mod hex_codec;
pub mod listing;
pub mod mirror;
pub mod ops;
pub mod path_codec;
pub mod store;
pub mod sync;

pub use crate::disk::DiskAction;
pub use crate::ops::Op;
pub use crate::store::{InFile, StoreError, StoredFile};
