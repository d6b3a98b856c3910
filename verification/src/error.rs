//! The failures of a synchronisation pass.

use vstd::prelude::*;

verus! {

/// Why the predecessor of one release could not be resolved. Such a failure
/// concerns that release alone; the pass goes on with the next one.
#[derive(Clone, Copy, Debug, PartialEq, Eq, Structural)]
pub enum ResolveError {
    /// The registry could not be reached, answered without success, or sent a
    /// payload of another shape than a list of versions.
    RegistryUnavailable,
    /// The history that the registry reported does not hold the release's
    /// own version.
    VersionNotFound,
}

/// Why a synchronisation pass ended before its last release.
#[derive(Clone, Copy, Debug, PartialEq, Eq, Structural)]
pub enum SyncError {
    /// The source catalog holds no release, so no window can be anchored.
    NoData,
    /// The window's start lies before the earliest moment that a timestamp
    /// can express.
    MalformedWindow,
    /// The store or the catalog failed to carry out a request.
    Storage,
    /// The caller answered a command with an event that does not belong to it.
    UnexpectedEvent,
}

} // verus!
