use vstd::prelude::*;
use crate::config::{AppConfig, ConfigModel, opt_group_view};
use crate::game::{GameLoader, GameVersion, GameVersionModel, LoaderModel};
use crate::lnk::{ListGroupLnk, ListLnk, ProjectLnk};
use crate::resource_type::ResourceType;

verus! {

/// Work that the state asks the outside world to do: each one is carried out later,
/// in the order it was asked for, by the code that runs the application.
#[derive(Debug)]
pub enum Effect {
    Initialize,
    PingConnectivity,
    SaveConfig { config: AppConfig },
    CreateList {
        name: String,
        resource_type: ResourceType,
        version: GameVersion,
        loader: GameLoader,
        download_dir: String,
        projects: Vec<String>,
    },
    SaveList { list: ListLnk },
    DuplicateList { list: ListLnk, target_parent: Option<ListGroupLnk> },
    DeleteList { list: ListLnk },
    ImportList { path: String },
    ExportList { list: ListLnk, path: String },
    SelectProjectVersion { list: ListLnk, project: ProjectLnk, version_id: String },
    FindFiles { directory: String, file_extension: Vec<String> },
    DownloadProjectArtifact {
        project: ProjectLnk,
        resource_type: ResourceType,
        version_id: String,
        artifact_id: String,
        target_destination: String,
    },
    ArchiveProjectFile { path: String, filename: String },
    UnarchiveProjectFile { path: String, filename: String },
    DeleteArtifact { path: String, filename: String },
    /// The files of a project taken out of a list: its file in `path` and the archived
    /// copy beside it, each to be deleted where it exists.
    DeleteProjectFiles { path: String, project: ProjectLnk },
    /// The file of a project in `path`, to be moved to its archived name where it exists.
    ArchiveProjectFiles { path: String, project: ProjectLnk },
    /// The archived file of a project in `path`, to be moved back where it exists.
    UnarchiveProjectFiles { path: String, project: ProjectLnk },
    OpenExplorer { path: String },
    ImportLegacyList {
        path: String,
        list_name: String,
        version: GameVersion,
        loader: GameLoader,
        download_dir: String,
    },
    ExportLegacyList { list: ListLnk, path: String, version: GameVersion, loader: GameLoader },
    ImportModrinthCollection { collection_id: String },
    ScanFolderImport { path: String, resource_type: ResourceType },
    SearchFolderImportCandidates {
        file_names: Vec<String>,
        resource_type: ResourceType,
        version: GameVersion,
        loader: GameLoader,
    },
    ImportFolderList {
        name: String,
        resource_type: ResourceType,
        version: GameVersion,
        loader: GameLoader,
        download_dir: String,
        projects: Vec<ProjectLnk>,
    },
    ClearFileIndexCache,
    ExportBackup { path: String },
    ImportBackup { path: String },
}

/// The abstract value of an effect.
pub enum EffectModel {
    Initialize,
    PingConnectivity,
    SaveConfig { config: ConfigModel },
    CreateList {
        name: Seq<char>,
        resource_type: ResourceType,
        version: GameVersionModel,
        loader: LoaderModel,
        download_dir: Seq<char>,
        projects: Seq<Seq<char>>,
    },
    SaveList { list: Seq<char> },
    DuplicateList { list: Seq<char>, target_parent: Option<Seq<char>> },
    DeleteList { list: Seq<char> },
    ImportList { path: Seq<char> },
    ExportList { list: Seq<char>, path: Seq<char> },
    SelectProjectVersion { list: Seq<char>, project: Seq<char>, version_id: Seq<char> },
    FindFiles { directory: Seq<char>, file_extension: Seq<Seq<char>> },
    DownloadProjectArtifact {
        project: Seq<char>,
        resource_type: ResourceType,
        version_id: Seq<char>,
        artifact_id: Seq<char>,
        target_destination: Seq<char>,
    },
    ArchiveProjectFile { path: Seq<char>, filename: Seq<char> },
    UnarchiveProjectFile { path: Seq<char>, filename: Seq<char> },
    DeleteArtifact { path: Seq<char>, filename: Seq<char> },
    DeleteProjectFiles { path: Seq<char>, project: Seq<char> },
    ArchiveProjectFiles { path: Seq<char>, project: Seq<char> },
    UnarchiveProjectFiles { path: Seq<char>, project: Seq<char> },
    OpenExplorer { path: Seq<char> },
    ImportLegacyList {
        path: Seq<char>,
        list_name: Seq<char>,
        version: GameVersionModel,
        loader: LoaderModel,
        download_dir: Seq<char>,
    },
    ExportLegacyList { list: Seq<char>, path: Seq<char>, version: GameVersionModel, loader: LoaderModel },
    ImportModrinthCollection { collection_id: Seq<char> },
    ScanFolderImport { path: Seq<char>, resource_type: ResourceType },
    SearchFolderImportCandidates {
        file_names: Seq<Seq<char>>,
        resource_type: ResourceType,
        version: GameVersionModel,
        loader: LoaderModel,
    },
    ImportFolderList {
        name: Seq<char>,
        resource_type: ResourceType,
        version: GameVersionModel,
        loader: LoaderModel,
        download_dir: Seq<char>,
        projects: Seq<Seq<char>>,
    },
    ClearFileIndexCache,
    ExportBackup { path: Seq<char> },
    ImportBackup { path: Seq<char> },
}

pub open spec fn strings_model(v: Seq<String>) -> Seq<Seq<char>> {
    v.map_values(|s: String| s@)
}

pub open spec fn lnks_model(v: Seq<ProjectLnk>) -> Seq<Seq<char>> {
    v.map_values(|p: ProjectLnk| p@)
}

impl View for Effect {
    type V = EffectModel;

    open spec fn view(&self) -> EffectModel {
        match self {
            Effect::Initialize => EffectModel::Initialize,
            Effect::PingConnectivity => EffectModel::PingConnectivity,
            Effect::SaveConfig { config } => EffectModel::SaveConfig { config: config@ },
            Effect::CreateList { name, resource_type, version, loader, download_dir, projects } =>
                EffectModel::CreateList {
                name: name@,
                resource_type: *resource_type,
                version: version@,
                loader: loader@,
                download_dir: download_dir@,
                projects: strings_model(projects@),
            },
            Effect::SaveList { list } => EffectModel::SaveList { list: list@ },
            Effect::DuplicateList { list, target_parent } => EffectModel::DuplicateList {
                list: list@,
                target_parent: opt_group_view(*target_parent),
            },
            Effect::DeleteList { list } => EffectModel::DeleteList { list: list@ },
            Effect::ImportList { path } => EffectModel::ImportList { path: path@ },
            Effect::ExportList { list, path } => EffectModel::ExportList { list: list@, path: path@ },
            Effect::SelectProjectVersion { list, project, version_id } => EffectModel::SelectProjectVersion {
                list: list@,
                project: project@,
                version_id: version_id@,
            },
            Effect::FindFiles { directory, file_extension } => EffectModel::FindFiles {
                directory: directory@,
                file_extension: strings_model(file_extension@),
            },
            Effect::DownloadProjectArtifact {
                project,
                resource_type,
                version_id,
                artifact_id,
                target_destination,
            } => EffectModel::DownloadProjectArtifact {
                project: project@,
                resource_type: *resource_type,
                version_id: version_id@,
                artifact_id: artifact_id@,
                target_destination: target_destination@,
            },
            Effect::ArchiveProjectFile { path, filename } => EffectModel::ArchiveProjectFile {
                path: path@,
                filename: filename@,
            },
            Effect::UnarchiveProjectFile { path, filename } => EffectModel::UnarchiveProjectFile {
                path: path@,
                filename: filename@,
            },
            Effect::DeleteArtifact { path, filename } => EffectModel::DeleteArtifact {
                path: path@,
                filename: filename@,
            },
            Effect::DeleteProjectFiles { path, project } => EffectModel::DeleteProjectFiles {
                path: path@,
                project: project@,
            },
            Effect::ArchiveProjectFiles { path, project } => EffectModel::ArchiveProjectFiles {
                path: path@,
                project: project@,
            },
            Effect::UnarchiveProjectFiles { path, project } => EffectModel::UnarchiveProjectFiles {
                path: path@,
                project: project@,
            },
            Effect::OpenExplorer { path } => EffectModel::OpenExplorer { path: path@ },
            Effect::ImportLegacyList { path, list_name, version, loader, download_dir } =>
                EffectModel::ImportLegacyList {
                path: path@,
                list_name: list_name@,
                version: version@,
                loader: loader@,
                download_dir: download_dir@,
            },
            Effect::ExportLegacyList { list, path, version, loader } => EffectModel::ExportLegacyList {
                list: list@,
                path: path@,
                version: version@,
                loader: loader@,
            },
            Effect::ImportModrinthCollection { collection_id } => EffectModel::ImportModrinthCollection {
                collection_id: collection_id@,
            },
            Effect::ScanFolderImport { path, resource_type } => EffectModel::ScanFolderImport {
                path: path@,
                resource_type: *resource_type,
            },
            Effect::SearchFolderImportCandidates { file_names, resource_type, version, loader } =>
                EffectModel::SearchFolderImportCandidates {
                file_names: strings_model(file_names@),
                resource_type: *resource_type,
                version: version@,
                loader: loader@,
            },
            Effect::ImportFolderList { name, resource_type, version, loader, download_dir, projects } =>
                EffectModel::ImportFolderList {
                name: name@,
                resource_type: *resource_type,
                version: version@,
                loader: loader@,
                download_dir: download_dir@,
                projects: lnks_model(projects@),
            },
            Effect::ClearFileIndexCache => EffectModel::ClearFileIndexCache,
            Effect::ExportBackup { path } => EffectModel::ExportBackup { path: path@ },
            Effect::ImportBackup { path } => EffectModel::ImportBackup { path: path@ },
        }
    }
}

pub open spec fn effects_view(v: Seq<Effect>) -> Seq<EffectModel> {
    v.map_values(|e: Effect| e@)
}

} // verus!
