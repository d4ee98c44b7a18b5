//! An in-memory cache of text files keyed by path, together with the
//! filtering rules of a recursive directory walk that fills it.
//!
//! The cache maps each path to the decoded text of the file that was read
//! for it; a key is written once and never rewritten. Lookups by file name
//! are case-insensitive. The directory walk itself is I/O and lives with
//! the caller; this crate holds and verifies everything the walk decides:
//! which paths are skipped, what enters the cache, and what each lookup
//! returns.

pub mod cache;
pub mod text;
pub mod walk;
