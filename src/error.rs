use vstd::prelude::*;

use crate::table::StoreError;

verus! {

/// Why a command failed.
#[derive(PartialEq, Eq, Structural, Clone, Copy, Debug)]
pub enum CommandError {
    /// A lookup by identifier found no row.
    NotFound,
    /// The store refused a write.
    Storage(StoreError),
    /// A path has no file name.
    NoFileName,
    /// A project file's series list could not be read or written as a JSON
    /// list of strings.
    InvalidSeriesList,
}

} // verus!
