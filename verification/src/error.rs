//! The ways in which a filesystem operation fails.

use vstd::prelude::*;

verus! {

/// Why an operation did not succeed.
#[derive(Clone, Copy, Debug, PartialEq, Eq, Structural)]
pub enum FsError {
    /// No node has the inode number, or no child has the name.
    NotFound,
    /// The bus refused or failed a publish or a subscribe.
    TransportFailure,
}

} // verus!
