//! Content-based duplicate detection over a set of hashed files.
//!
//! A scan walks a directory tree, records every regular file with the digest
//! of its content, keeps the records whose digest occurs more than once, and
//! reports them group by group. This library holds each of these steps as a
//! function on plain values; reading the tree and the files, and printing the
//! report, is left to the caller.

pub mod cell;
pub mod digest;
pub mod filters;
pub mod group;
pub mod laws;
pub mod order;
pub mod record;
pub mod report;
pub mod scan;

pub use crate::record::File;
