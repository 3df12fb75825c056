use resource_downloader::game::GameVersion;
use resource_downloader::lnk::ProjectLnk;
use resource_downloader::project::{Project, ProjectVersion};
use resource_downloader::project_list::ProjectList;
use resource_downloader::project_status::{any_update_available, missing_projects, should_select_latest};
use resource_downloader::resource_type::ResourceType;

fn lnk(id: &str) -> ProjectLnk {
    ProjectLnk::from_id(&id.to_string())
}

fn project(id: &str) -> Project {
    Project::new(id.to_string(), ResourceType::Mod, true, id.to_string(), String::new(), String::new())
}

fn version(id: &str, hash: &str) -> ProjectVersion {
    ProjectVersion::new(false, id.to_string(), format!("{id}.jar"), hash.to_string(), "release".to_string(), vec![])
}

fn sample_list() -> ProjectList {
    let mut list = ProjectList::new("l".to_string(), "L".to_string(), GameVersion::release("1.21".to_string()));
    list.add_project(project("app"));
    list.add_version(&lnk("app"), version("v1", "h1"));
    list.add_project(project("lib"));
    let mut old = project("old");
    old.set_archived(true);
    list.add_project(old);
    list
}

#[test]
fn missing_projects_skip_downloaded_and_archived_ones() {
    let list = sample_list();
    let wanted = vec![lnk("app"), lnk("lib"), lnk("old"), lnk("absent")];
    let missing = missing_projects(&list, &wanted, &vec!["h1".to_string()]);
    assert_eq!(missing.len(), 1);
    assert!(missing[0] == lnk("lib"));
    let missing = missing_projects(&list, &wanted, &vec![]);
    assert_eq!(missing.len(), 2);
    assert!(missing[0] == lnk("app"));
    assert!(missing[1] == lnk("lib"));
}

#[test]
fn an_update_is_a_newer_file_or_a_missing_version() {
    let list = sample_list();
    assert!(!any_update_available(&list, &vec![(lnk("app"), "h1".to_string())]));
    assert!(any_update_available(&list, &vec![(lnk("app"), "h2".to_string())]));
    assert!(any_update_available(&list, &vec![(lnk("lib"), "x".to_string())]));
    assert!(!any_update_available(&list, &vec![(lnk("absent"), "x".to_string())]));
    assert!(!any_update_available(&list, &vec![]));
}

#[test]
fn the_latest_version_is_selected_when_missing_or_updating() {
    let list = sample_list();
    let app = list.get_project(&lnk("app")).unwrap();
    let lib = list.get_project(&lnk("lib")).unwrap();
    assert!(should_select_latest(lib, "v9", false));
    assert!(!should_select_latest(app, "v1", true));
    assert!(!should_select_latest(app, "v2", false));
    assert!(should_select_latest(app, "v2", true));
}
