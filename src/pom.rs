//! The records of a project descriptor and how they are read from and written to elements.
use vstd::prelude::*;

pub mod plugins;
mod properties;
pub mod editor;
pub mod depend;
pub mod developers;
mod distribution_management;
mod parent;
pub mod repositories;
mod scm;

pub use plugins::{Build, Plugin, Plugins, first_text};
pub use depend::{
    Dependencies, Dependency, DependencyParseError, is_missing, is_invalid_formatted, optional_rendered,
    property_read, property_fails,
};
pub use developers::Developer;
pub use distribution_management::{
    DistributionRepository, DistributionRepositoryRepository, DistributionRepositorySnapshotRepository,
};
pub use parent::Parent;
pub use properties::{Properties, entries_of, entries_view, insert_entry};
pub use repositories::{
    ChecksumPolicy, Repositories, Repository, RepositoryLayout, SubRepositoryRules, UpdatePolicy, is_same_named,
    repository_fields_synced, update_repository_fields, rules_synced,
    same_named,
};
pub use scm::{Scm, SCMError};

use crate::editor::utils::optional_view;

verus! {

/// The inspected fields of a project descriptor.
#[derive(Debug, Clone)]
pub struct Pom {
    pub group_id: Option<String>,
    pub artifact_id: String,
    pub parent: Option<Parent>,
    pub version: Option<String>,
    pub name: Option<String>,
    pub description: Option<String>,
    pub url: Option<String>,
    pub scm: Option<Scm>,
}

/// The developers of a project.
#[derive(Debug, Clone, Default)]
pub struct Developers {
    pub developer: Vec<Developer>,
}

/// The project's own value, else the parent's.
pub open spec fn own_or_parent(own: Option<String>, inherited: Option<String>) -> Option<Seq<char>> {
    match own {
        Some(v) => Some(v@),
        None => optional_view(inherited),
    }
}

pub open spec fn str_view(r: Option<&str>) -> Option<Seq<char>> {
    match r {
        Some(s) => Some(s@),
        None => None,
    }
}

impl Pom {
    /// The group id, inherited from the parent when the project has none.
    pub fn get_group_id(&self) -> (r: Option<&str>)
        ensures
            str_view(r) == own_or_parent(self.group_id, match self.parent {
                Some(p) => p.group_id,
                None => None,
            }),
    {
        if let Some(g) = &self.group_id {
            return Some(g.as_str());
        }
        match &self.parent {
            Some(p) => match &p.group_id {
                Some(g) => Some(g.as_str()),
                None => None,
            },
            None => None,
        }
    }

    /// The version, inherited from the parent when the project has none.
    pub fn get_version(&self) -> (r: Option<&str>)
        ensures
            str_view(r) == own_or_parent(self.version, match self.parent {
                Some(p) => p.version,
                None => None,
            }),
    {
        if let Some(v) = &self.version {
            return Some(v.as_str());
        }
        match &self.parent {
            Some(p) => match &p.version {
                Some(v) => Some(v.as_str()),
                None => None,
            },
            None => None,
        }
    }
}

} // verus!
