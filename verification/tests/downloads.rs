use resource_downloader::downloads::plan_downloads;
use resource_downloader::game::{GameLoader, GameVersion};
use resource_downloader::lnk::ProjectLnk;
use resource_downloader::project::{Project, ProjectDependency, ProjectDependencyType, ProjectVersion};
use resource_downloader::project_list::{ProjectList, ProjectTypeConfig};
use resource_downloader::remote::{RTProjectDependency, RTProjectVersion};
use resource_downloader::resource_type::ResourceType;
use resource_downloader::state::RDState;

fn lnk(id: &str) -> ProjectLnk {
    ProjectLnk::from_id(&id.to_string())
}

fn sample_list() -> ProjectList {
    let mut list = ProjectList::new("l".to_string(), "L".to_string(), GameVersion::release("1.21".to_string()));
    list.set_resource_type(
        ResourceType::Mod,
        ProjectTypeConfig::new(GameLoader { id: "fabric".to_string(), name: "Fabric".to_string() }, "/mods".to_string()),
    );
    list.add_project(Project::new("app".to_string(), ResourceType::Mod, true, "App".to_string(), String::new(), String::new()));
    list.add_project(Project::new("lib".to_string(), ResourceType::Mod, false, "Lib".to_string(), String::new(), String::new()));
    list.add_version(&lnk("lib"), ProjectVersion::new(false, "l1".to_string(), "lib.jar".to_string(), "h2".to_string(), "release".to_string(), vec![]));
    let dep = ProjectDependency::new(lnk("lib"), ProjectDependencyType::Required, None, None);
    list.add_version(&lnk("app"), ProjectVersion::new(false, "a1".to_string(), "app.jar".to_string(), "h1".to_string(), "release".to_string(), vec![dep]));
    list
}

fn remote(id: &str, hash: &str, deps: &[&str]) -> RTProjectVersion {
    RTProjectVersion {
        version_id: id.to_string(),
        version_name: id.to_string(),
        artifact_id: format!("{id}.jar"),
        artifact_hash: hash.to_string(),
        channel: "release".to_string(),
        depended_on: deps
            .iter()
            .map(|d| RTProjectDependency { project: lnk(d), dependency_type: ProjectDependencyType::Required, version_id: None })
            .collect(),
    }
}

#[test]
fn a_version_is_downloaded_with_its_required_dependencies_once() {
    let state = RDState::new();
    let list = sample_list();
    let versions = vec![(lnk("app"), vec![remote("a2", "h3", &["lib"]), remote("a1", "h1", &["lib"])])];
    let plan = plan_downloads(&state, &list, &vec![(lnk("app"), None), (lnk("lib"), None)], &versions, &vec![]);
    assert_eq!(plan.len(), 2);
    assert!(plan[0].project == lnk("app"));
    assert_eq!(plan[0].version_id, "a1");
    assert_eq!(plan[0].directory, "/mods");
    assert!(plan[1].project == lnk("lib"));
    assert_eq!(plan[1].artifact_hash, "h2");
}

#[test]
fn found_files_and_unknown_versions_are_not_downloaded() {
    let state = RDState::new();
    let list = sample_list();
    let plan = plan_downloads(&state, &list, &vec![(lnk("app"), None)], &vec![], &vec!["h2".to_string()]);
    assert!(plan.is_empty());
    let plan = plan_downloads(&state, &list, &vec![(lnk("app"), Some(remote("a9", "h9", &["lib"])))], &vec![], &vec!["h2".to_string()]);
    assert_eq!(plan.len(), 1);
    assert_eq!(plan[0].version_id, "a9");
}

use resource_downloader::effect::Effect;
use resource_downloader::lnk::ListLnk;
use resource_downloader::project_actions::ProjectActions;

fn selections(state: &RDState) -> Vec<(String, String)> {
    state
        .effects
        .iter()
        .filter_map(|e| match e {
            Effect::SelectProjectVersion { project, version_id, .. } => Some((project.to_string(), version_id.clone())),
            _ => None,
        })
        .collect()
}

#[test]
fn only_projects_with_a_newer_file_get_the_newest_version() {
    let mut state = RDState::new();
    state.lists.push(sample_list());
    let versions = vec![(lnk("app"), vec![remote("a2", "h3", &[])]), (lnk("lib"), vec![remote("l1", "h2", &[])])];
    ProjectActions::update_version_for_projects(&mut state, &ListLnk::new("l".to_string()), vec![lnk("app"), lnk("lib")], &versions);
    assert_eq!(selections(&state), vec![("app".to_string(), "a2".to_string())]);
}

#[test]
fn updating_all_projects_skips_archived_ones() {
    let mut state = RDState::new();
    let mut list = sample_list();
    list.projects[0].set_archived(true);
    state.lists.push(list);
    let versions = vec![(lnk("app"), vec![remote("a2", "h3", &[])]), (lnk("lib"), vec![remote("l2", "h5", &[])])];
    ProjectActions::update_version_for_all_projects(&mut state, &ListLnk::new("l".to_string()), &versions);
    assert_eq!(selections(&state), vec![("lib".to_string(), "l2".to_string())]);
}
