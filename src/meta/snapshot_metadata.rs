use vstd::prelude::*;

use chrono::NaiveDateTime;

use crate::editor::utils::optional_view;
use crate::extension::{extension_text, MavenFileExtension};

verus! {

/// The metadata of a snapshot version of an artifact.
#[derive(Debug, Clone)]
pub struct SnapshotMetadata {
    pub group_id: String,
    pub artifact_id: String,
    pub version: String,
    pub versioning: SnapshotVersioning,
}

#[derive(Debug, Clone, Default)]
pub struct SnapshotVersioning {
    pub snapshot: Option<Snapshot>,
    pub snapshot_versions: Option<SnapshotVersions>,
    pub last_updated: Option<NaiveDateTime>,
}

#[derive(Debug, Clone, Default)]
pub struct SnapshotVersions {
    pub snapshot_version: Vec<SnapshotVersion>,
}

#[derive(Debug, Clone)]
pub struct Snapshot {
    pub timestamp: Option<NaiveDateTime>,
    pub build_number: String,
}

/// One file of a snapshot.
#[derive(Debug, Clone)]
pub struct SnapshotVersion {
    pub classifier: Option<String>,
    pub extension: String,
    pub value: String,
    pub updated: Option<NaiveDateTime>,
}

impl SnapshotVersion {
    /// Same extension and classifier.
    pub open spec fn matches_extension(&self, other: MavenFileExtension) -> bool {
        self.extension@ == other.file_extension@ && optional_view(self.classifier) == optional_view(other.classifier)
    }

    pub fn eq_extension(&self, other: &MavenFileExtension) -> (r: bool)
        ensures
            r == self.matches_extension(*other),
    {
        let same_classifier = match (&self.classifier, &other.classifier) {
            (Some(a), Some(b)) => crate::utils::str_eq(a.as_str(), b.as_str()),
            (None, None) => true,
            _ => false,
        };
        self.extension == other.file_extension && same_classifier
    }
}

/// The index of the first of `versions` that matches `extension`.
pub open spec fn first_matching(versions: Seq<SnapshotVersion>, extension: MavenFileExtension, from: int) -> Option<int>
    decreases versions.len() - from,
{
    if from < 0 || from >= versions.len() {
        None
    } else if versions[from].matches_extension(extension) {
        Some(from)
    } else {
        first_matching(versions, extension, from + 1)
    }
}

impl SnapshotMetadata {
    /// The file name of the first snapshot file with this extension and classifier:
    /// `{artifact}-{value}{extension}`.
    pub fn get_latest_artifact_name(&self, extension: MavenFileExtension) -> (r: Option<String>)
        ensures
            match self.versioning.snapshot_versions {
                None => r is None,
                Some(vs) => match first_matching(vs.snapshot_version@, extension, 0) {
                    None => r is None,
                    Some(i) => r matches Some(s) && s@ == self.artifact_id@ + "-"@ + vs.snapshot_version@[i].value@
                        + extension_text(extension.classifier, extension.file_extension@, extension.hash),
                },
            },
    {
        let Some(versions) = &self.versioning.snapshot_versions else {
            return None;
        };
        let list = &versions.snapshot_version;
        let mut i: usize = 0;
        while i < list.len()
            invariant
                self.versioning.snapshot_versions == Some(*versions),
                *list == versions.snapshot_version,
                i <= list.len(),
                first_matching(list@, extension, 0) == first_matching(list@, extension, i as int),
            decreases list.len() - i,
        {
            if list[i].eq_extension(&extension) {
                let mut name = self.artifact_id.clone();
                name.append("-");
                name.append(list[i].value.as_str());
                let ext = extension.to_string();
                name.append(ext.as_str());
                return Some(name);
            }
            i = i + 1;
        }
        None
    }
}

} // verus!
