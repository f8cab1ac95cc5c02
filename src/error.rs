//! What can go wrong while synchronising.
use vstd::prelude::*;

verus! {

/// The failures of the synchronisation engine. Each is contained where it
/// happens: it drops one event, one peer's push or one payload.
#[derive(Debug, Clone, Copy, PartialEq, Eq, Structural)]
pub enum SyncError {
    /// A changed path does not lie under the watched root.
    PathResolution,
    /// The changed file could not be read any more.
    FileUnavailable,
    /// A request to a peer failed.
    Transport,
    /// A received registry or timestamp payload does not parse.
    MalformedWireData,
    /// A requested file is absent.
    NotFound,
}

} // verus!
