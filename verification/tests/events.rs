use resource_downloader::events::{Event, InternalEvent};
use resource_downloader::game::GameVersion;
use resource_downloader::lnk::{ListLnk, ProjectLnk};
use resource_downloader::project::{ProjectDependency, ProjectDependencyType, ProjectVersion};
use resource_downloader::project_list::ProjectList;
use resource_downloader::state::RDState;

fn state_with_list(id: &str) -> RDState {
    let mut s = RDState::new();
    s.lists.push(ProjectList::new(id.to_string(), id.to_uppercase(), GameVersion::release("1.21".to_string())));
    s
}

#[test]
fn connectivity_changes_only_the_offline_flag() {
    let mut s = state_with_list("a");
    let r = s.next_event(InternalEvent::ConnectivityChanged { offline: true });
    assert!(r.is_none());
    assert!(s.offline_mode);
    assert_eq!(s.lists.len(), 1);
}

#[test]
fn deleted_lists_leave_the_state() {
    let mut s = state_with_list("a");
    let r = s.next_event(InternalEvent::ListDeleted { list: ListLnk::new("a".to_string()) });
    assert!(matches!(r, Some(Event::ListDeleted { .. })));
    assert!(s.lists.is_empty());
}

#[test]
fn files_found_are_recorded_under_their_directory() {
    let mut s = RDState::new();
    s.find_files("C:\\mods".to_string(), "jar".to_string());
    let r = s.next_event(InternalEvent::FilesFound {
        directory: "C:\\mods".to_string(),
        file_extension: vec!["jar".to_string()],
        files: vec![("sodium.jar".to_string(), "abc".to_string())],
    });
    assert!(matches!(r, Some(Event::FilesFound { .. })));
    assert_eq!(s.found_files.len(), 1);
    assert_eq!(s.found_files[0].0, "C:/mods");
    assert!(s.active_scans.is_empty());
}

#[test]
fn a_version_needing_a_missing_project_is_refused() {
    let mut s = state_with_list("a");
    let mut l = ProjectList::new("b".to_string(), "B".to_string(), GameVersion::release("1.21".to_string()));
    l.add_project(resource_downloader::project::Project::new(
        "app".to_string(),
        resource_downloader::resource_type::ResourceType::Mod,
        true,
        "app".to_string(),
        String::new(),
        String::new(),
    ));
    s.lists.push(l);
    let dep = ProjectDependency::new(ProjectLnk::from_id(&"ghost".to_string()), ProjectDependencyType::Required, None, None);
    let v = ProjectVersion::new(false, "v".to_string(), "app.jar".to_string(), "h".to_string(), "release".to_string(), vec![dep]);
    let e = InternalEvent::ProjectVersionSelected {
        list_lnk: ListLnk::new("b".to_string()),
        project: ProjectLnk::from_id(&"app".to_string()),
        version: v,
        dependency_data: Vec::new(),
    };
    assert!(!s.accepts_event(&e));
    let ok = InternalEvent::ListDeleted { list: ListLnk::new("b".to_string()) };
    assert!(s.accepts_event(&ok));
}
