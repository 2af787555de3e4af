//! Core of a local media-file catalog: a registry of watched
//! directories, reconciliation of scan results and change batches with
//! the catalog, a debounced change-watcher state machine, and a
//! bounded action log with undo/redo stack discipline.

use vstd::prelude::*;

pub mod action_log;
pub mod catalog;
pub mod media;
pub mod text;
pub mod validate;
pub mod watcher;

verus! {

/// Errors raised by the catalog and the action log.
#[derive(Clone, Copy, Debug, PartialEq, Eq, Structural)]
pub enum CoreError {
    /// The given path does not name an existing directory.
    NotADirectory,
    /// No row carries the given id.
    NotFound,
}

impl CoreError {
    /// A short human-readable description of the error.
    pub fn message(&self) -> (m: String)
        ensures
            *self == CoreError::NotADirectory ==> m@ == "not a directory"@,
            *self == CoreError::NotFound ==> m@ == "not found"@,
    {
        match self {
            CoreError::NotADirectory => "not a directory".to_owned(),
            CoreError::NotFound => "not found".to_owned(),
        }
    }
}

} // verus!
