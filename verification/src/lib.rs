//! A directory-listing library: a model of file-entry metadata
//! (kind, permissions, size, ownership, modification time) and a
//! rendering pipeline that turns an ordered collection of entries
//! into a single textual output.
use vstd::prelude::*;

pub mod files;
pub mod laws;
pub mod parser;
pub mod text;

verus! {

/// The widest modification timestamp, in seconds since the Unix epoch,
/// that an entry may carry (the last second of year 9999).
pub const MAX_MTIME_SECS: u64 = 253402300799;

} // verus!
