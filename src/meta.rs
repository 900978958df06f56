//! Repository metadata: the versions of an artifact and the files of a snapshot.
use vstd::prelude::*;

mod maven_metadata;
mod snapshot_metadata;

pub use maven_metadata::{DeployMetadata, StableVersioning, StableVersions};
pub use snapshot_metadata::{Snapshot, SnapshotMetadata, SnapshotVersion, SnapshotVersioning, SnapshotVersions};

verus! {

/// A date and time, carried through as read.
#[verifier::external_type_specification]
#[verifier::external_body]
pub struct ExNaiveDateTime(chrono::NaiveDateTime);

} // verus!
