//! File-name search over the file table of an NTFS volume.
//!
//! The library keeps every file and directory of a volume in an in-memory
//! index, answers queries on names, extensions and paths, follows the
//! volume's change journal, and reads and writes the index's cache files.
//! It does no I/O itself: a caller hands it the records of the file table,
//! the records of the journal and the bytes of the cache files.
//!
//! - [`entry`], [`store`]: the entries and the index with its three
//!   secondary indexes.
//! - [`mft`], [`builder`]: from the records of the file table to a store.
//! - [`usn`], [`journal`]: reading and applying the change journal.
//! - [`cache_format`], [`retention`]: the cache files and their versions.
//! - [`pattern`], [`query`], [`validation`], [`render`]: queries.
//! - [`mft_cache`]: the engine of one volume.
//! - [`file_types`], [`types`], [`ipc`], [`text`]: document classes, the
//!   values of the transport, its frames, and text helpers.

pub mod builder;
pub mod cache_format;
pub mod entry;
pub mod file_types;
pub mod ipc;
pub mod journal;
pub mod mft;
pub mod mft_cache;
pub mod pattern;
pub mod query;
pub mod render;
pub mod retention;
pub mod store;
pub mod text;
pub mod types;
pub mod usn;
pub mod validation;
