//! The storage sink capability.
//!
//! A backend (an object store, a local copy) is selected once at startup
//! and used for every upload of a persistence pass. The methods do I/O, so
//! no backend can live in this crate: implementations are supplied by the
//! surrounding program, and the dispatcher here only plans uploads and
//! applies their outcomes (see the persistence module).

use vstd::prelude::*;

verus! {

/// A destination for persisted frames.
pub trait StorageEngine {
    /// Prepares the destination named by `identifier` and returns the path
    /// it can be addressed under.
    fn create_destination(&mut self, identifier: &str) -> Result<String, &'static str>;

    /// Sends the local file at `local_path` to `destination`. `Ok` means
    /// the frame is durably stored and its local copy may be deleted.
    fn store(&self, local_path: &str, destination: &str) -> Result<(), String>;
}

} // verus!
