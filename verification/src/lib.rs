//! Reader for a content-addressed, deduplicating backup repository.
//!
//! The repository consists of framed, partly compressed files: index files
//! mapping chunk identifiers to the bundles that store them, bundle files
//! holding compressed runs of chunks, and backup descriptors whose
//! instruction streams reconstruct the archived byte stream.

use vstd::prelude::*;

pub mod bundle;
pub mod bytemap;
pub mod errors;
pub mod messages;
pub mod randaccess;
pub mod repo;
pub mod state;
pub mod tar;
pub mod times;
pub mod wbspack;
pub mod wire;

pub use errors::TfError;
pub use randaccess::RandomAccess;
pub use repo::ZBackup;

verus! {

/// Fixed width, in bytes, of chunk and bundle identifiers.
pub const ID_BYTES: usize = 24;

} // verus!
