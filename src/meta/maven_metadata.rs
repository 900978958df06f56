use vstd::prelude::*;

use chrono::NaiveDateTime;

use crate::extension::{extension_text, MavenFileExtension};

verus! {

/// The metadata of a released artifact.
#[derive(Debug, Clone)]
pub struct DeployMetadata {
    pub group_id: String,
    pub artifact_id: String,
    pub versioning: StableVersioning,
}

#[derive(Debug, Clone, Default)]
pub struct StableVersioning {
    pub release: Option<String>,
    pub latest: Option<String>,
    pub versions: StableVersions,
    pub last_updated: Option<NaiveDateTime>,
}

#[derive(Debug, Clone, Default)]
pub struct StableVersions {
    pub version: Vec<String>,
}

impl DeployMetadata {
    /// The latest version, else the release, else the first version listed.
    pub open spec fn latest_version(&self) -> Option<String> {
        if self.versioning.latest is Some {
            self.versioning.latest
        } else if self.versioning.release is Some {
            self.versioning.release
        } else if self.versioning.versions.version.len() > 0 {
            Some(self.versioning.versions.version[0])
        } else {
            None
        }
    }

    pub fn get_latest_version(&self) -> (r: Option<&String>)
        ensures
            match self.latest_version() {
                Some(v) => r matches Some(s) && *s == v,
                None => r is None,
            },
    {
        if let Some(latest) = &self.versioning.latest {
            Some(latest)
        } else if let Some(release) = &self.versioning.release {
            Some(release)
        } else if self.versioning.versions.version.len() > 0 {
            Some(&self.versioning.versions.version[0])
        } else {
            None
        }
    }

    /// `{artifact}-{version}{extension}`
    pub fn get_artifact_name(&self, version: &str, extension: MavenFileExtension) -> (r: String)
        ensures
            r@ == self.artifact_id@ + "-"@ + version@ + extension_text(
                extension.classifier,
                extension.file_extension@,
                extension.hash,
            ),
    {
        let mut s = self.artifact_id.clone();
        s.append("-");
        s.append(version);
        let ext = extension.to_string();
        s.append(ext.as_str());
        s
    }

    /// The latest version and the file name of the artifact in that version.
    pub fn get_latest_artifact_name(&self, extension: MavenFileExtension) -> (r: Option<(&str, String)>)
        ensures
            match self.latest_version() {
                Some(v) => r matches Some(p) && p.0@ == v@ && p.1@ == self.artifact_id@ + "-"@ + v@
                    + extension_text(extension.classifier, extension.file_extension@, extension.hash),
                None => r is None,
            },
    {
        match self.get_latest_version() {
            Some(value) => {
                let name = self.get_artifact_name(value.as_str(), extension);
                Some((value.as_str(), name))
            },
            None => None,
        }
    }
}

} // verus!
