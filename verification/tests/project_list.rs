use resource_downloader::game::GameVersion;
use resource_downloader::lnk::ProjectLnk;
use resource_downloader::mutation::MutationOutcome;
use resource_downloader::project::{Project, ProjectDependency, ProjectDependencyType, ProjectVersion};
use resource_downloader::project_list::ProjectList;
use resource_downloader::resource_type::ResourceType;

fn project(id: &str, manual: bool) -> Project {
    Project::new(id.to_string(), ResourceType::Mod, manual, id.to_string(), String::new(), String::new())
}

fn version_needing(id: &str, deps: &[&str]) -> ProjectVersion {
    let depended_on = deps
        .iter()
        .map(|d| {
            ProjectDependency::new(
                ProjectLnk::from_id(&d.to_string()),
                ProjectDependencyType::Required,
                None,
                None,
            )
        })
        .collect();
    ProjectVersion::new(false, format!("{id}-v1"), format!("{id}.jar"), "hash".to_string(), "release".to_string(), depended_on)
}

fn list() -> ProjectList {
    ProjectList::new("list_a".to_string(), "A".to_string(), GameVersion::release("1.21".to_string()))
}

#[test]
fn added_project_is_present_and_adding_again_changes_nothing() {
    let mut l = list();
    let a = ProjectLnk::from_id(&"sodium".to_string());
    let r = l.add_project(project("sodium", true));
    assert_eq!(r.outcome, MutationOutcome::ProjectAdded);
    assert_eq!(r.target, Some(a.clone()));
    assert_eq!(r.added_projects, vec![a.clone()]);
    assert!(l.has_project(&a));
    assert_eq!(l.project_count(), 1);
    let again = l.add_project(project("sodium", true));
    assert_eq!(again.outcome, MutationOutcome::AlreadyExists);
    assert_eq!(l.project_count(), 1);
}

#[test]
fn adding_a_manual_copy_promotes_a_dependency() {
    let mut l = list();
    l.add_project(project("lib", false));
    let r = l.add_project(project("lib", true));
    assert_eq!(r.outcome, MutationOutcome::ProjectPromoted);
    assert!(l.get_project(&ProjectLnk::from_id(&"lib".to_string())).unwrap().is_manual());
}

#[test]
fn removing_a_project_removes_its_orphaned_dependencies() {
    let mut l = list();
    let app = ProjectLnk::from_id(&"app".to_string());
    let lib = ProjectLnk::from_id(&"lib".to_string());
    l.add_project(project("app", true));
    l.add_project(project("lib", false));
    let r = l.add_version(&app, version_needing("app", &["lib"]));
    assert_eq!(r.outcome, MutationOutcome::VersionAdded);
    assert!(l.get_project(&lib).unwrap().has_dependent(&app));
    let removed = l.remove_project(&app);
    assert_eq!(removed.outcome, MutationOutcome::ProjectRemoved);
    assert!(!l.has_project(&app));
    assert!(!l.has_project(&lib));
    assert!(removed.removed_projects.contains(&app));
    assert!(removed.removed_projects.contains(&lib));
    assert_eq!(l.project_count(), 0);
}

#[test]
fn removing_a_depended_on_project_demotes_it() {
    let mut l = list();
    let app = ProjectLnk::from_id(&"app".to_string());
    let lib = ProjectLnk::from_id(&"lib".to_string());
    l.add_project(project("app", true));
    l.add_project(project("lib", true));
    l.add_version(&app, version_needing("app", &["lib"]));
    let r = l.remove_project(&lib);
    assert_eq!(r.outcome, MutationOutcome::ProjectDemoted);
    assert!(l.has_project(&lib));
    assert!(!l.get_project(&lib).unwrap().is_manual());
}

#[test]
fn missing_projects_are_reported() {
    let mut l = list();
    let ghost = ProjectLnk::from_id(&"ghost".to_string());
    assert_eq!(l.remove_project(&ghost).outcome, MutationOutcome::NotFound);
    assert_eq!(l.add_version(&ghost, version_needing("ghost", &[])).outcome, MutationOutcome::NotFound);
}

#[test]
fn add_then_remove_gives_back_the_projects() {
    let mut l = list();
    l.add_project(project("keep", true));
    let before: Vec<String> = l.get_target_projects().iter().map(|p| p.get_id().to_string()).collect();
    let x = ProjectLnk::from_id(&"temp".to_string());
    l.add_project(project("temp", true));
    l.remove_project(&x);
    let after: Vec<String> = l.get_target_projects().iter().map(|p| p.get_id().to_string()).collect();
    assert_eq!(before, after);
}
