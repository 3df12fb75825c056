use vstd::prelude::*;
use crate::config::AppConfig;
use crate::game::{GameLoader, GameVersion};
use crate::lnk::{ListGroupLnk, ListLnk, ProjectLnk};
use crate::project::ProjectVersion;
use crate::project_list::ProjectList;
use crate::remote::RTProjectData;
use crate::resource_type::ResourceType;
use crate::state::FolderImportCandidate;

verus! {

/// What the state needs to know of an event that it only hands on: whether it is one
/// after which what was found on disk is out of date.
#[derive(Clone, Copy, Debug, PartialEq, Eq, Structural)]
pub enum EventKind {
    ArtifactDeleted,
    ProjectFileArchived,
    ProjectFileUnarchived,
    ProjectVersionSelected,
    ListSaved,
    Other,
}

/// An event coming back from the work done outside, for the state to take in.
#[derive(Debug)]
pub enum InternalEvent {
    /// An event the state only hands on, of the given kind.
    Standard(EventKind),
    ConnectivityChanged { offline: bool },
    Initialized {
        config: AppConfig,
        lists: Vec<ProjectList>,
        default_download_dir_by_type: Vec<(ResourceType, String)>,
        offline_mode: bool,
    },
    Reinitialize,
    ListCreated {
        name: String,
        resource_type: ResourceType,
        version: GameVersion,
        loader: GameLoader,
        download_dir: String,
        projects: Vec<String>,
        list_lnk: ListLnk,
        list: ProjectList,
    },
    ListDuplicated { list_lnk: ListLnk, dup_lnk: ListLnk, dup_list: ProjectList, target_parent: Option<ListGroupLnk> },
    ListDeleted { list: ListLnk },
    ListImported { list_lnk: ListLnk, list: ProjectList, path: String },
    LegacyListImported {
        path: String,
        list_lnk: ListLnk,
        list_data: ProjectList,
        version: GameVersion,
        loader: GameLoader,
        download_dir: String,
        unresolved: Vec<String>,
    },
    FilesFound { directory: String, file_extension: Vec<String>, files: Vec<(String, String)> },
    ProjectVersionSelected {
        list_lnk: ListLnk,
        project: ProjectLnk,
        version: ProjectVersion,
        dependency_data: Vec<(ProjectLnk, ResourceType, RTProjectData)>,
    },
    /// The files of a folder were read; `default_version` and `default_loader` are the
    /// first game version and loader that the remote service knows, for when nothing
    /// was suggested.
    FolderImportScanned {
        path: String,
        resource_type: ResourceType,
        candidates: Vec<FolderImportCandidate>,
        suggested_version: Option<GameVersion>,
        suggested_loader: Option<GameLoader>,
        default_version: Option<GameVersion>,
        default_loader: Option<GameLoader>,
    },
    FailedFolderScan { path: String, resource_type: ResourceType, error: String },
    FolderImportProgress { total: usize, current: usize, message: String },
    FolderImportCandidatesFound { results: Vec<(String, Vec<(ProjectLnk, String)>)> },
}

/// What the state reports after taking in an event.
#[derive(Debug)]
pub enum Event {
    /// The event the state was given is handed on as it is.
    Forwarded,
    Initialized {
        config: AppConfig,
        lists: Vec<ListLnk>,
        default_download_dir_by_type: Vec<(ResourceType, String)>,
    },
    ListCreated {
        name: String,
        resource_type: ResourceType,
        version: GameVersion,
        loader: GameLoader,
        download_dir: String,
        projects: Vec<String>,
        list: ListLnk,
    },
    ListDuplicated { list: ListLnk, dup_list: ListLnk },
    ListDeleted { list: ListLnk },
    ListImported { list: ListLnk, path: String },
    LegacyListImported {
        path: String,
        version: GameVersion,
        loader: GameLoader,
        download_dir: String,
        list: ListLnk,
        unresolved: Vec<String>,
    },
    FilesFound { directory: String, file_extension: Vec<String>, files: Vec<(String, String)> },
    ProjectVersionSelected { list: ListLnk, project: ProjectLnk, version_id: String },
    FolderImportProgress { total: usize, current: usize, message: String },
    FolderImportScanned {
        path: String,
        resource_type: ResourceType,
        candidates: Vec<FolderImportCandidate>,
        suggested_version: Option<GameVersion>,
        suggested_loader: Option<GameLoader>,
    },
    FailedFolderScan { path: String, resource_type: ResourceType, error: String },
    FolderImportCandidatesFound { results: Vec<(String, Vec<(ProjectLnk, String)>)> },
}

/// The events after which what was found on disk is out of date.
pub open spec fn refreshes(k: EventKind) -> bool {
    k != EventKind::Other
}

} // verus!
