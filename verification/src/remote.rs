use vstd::prelude::*;
use crate::game::{GameLoader, GameVersion};
use crate::lnk::ProjectLnk;
use crate::project::ProjectDependencyType;

verus! {

/// A dependency of a version as the remote service reports it.
#[derive(Debug, Clone)]
pub struct RTProjectDependency {
    pub project: ProjectLnk,
    pub dependency_type: ProjectDependencyType,
    pub version_id: Option<String>,
}

/// A version of a project as the remote service reports it.
#[derive(Debug, Clone)]
pub struct RTProjectVersion {
    pub version_id: String,
    pub version_name: String,
    pub artifact_id: String,
    /// sha1 of the artifact
    pub artifact_hash: String,
    pub channel: String,
    pub depended_on: Vec<RTProjectDependency>,
}

/// The metadata of a project as the remote service reports it.
#[derive(Debug, Clone)]
pub struct RTProjectData {
    pub slug: String,
    pub name: String,
    pub description: String,
    pub author: String,
    pub icon_url: String,
    pub download_count: u32,
    pub supported_versions: Vec<GameVersion>,
    pub supported_loaders: Vec<GameLoader>,
}

} // verus!
