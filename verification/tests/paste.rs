use resource_downloader::effect::Effect;
use resource_downloader::game::{GameLoader, GameVersion};
use resource_downloader::project_actions::ProjectActions;
use resource_downloader::lnk::{ListLnk, ProjectLnk};
use resource_downloader::project::{Project, ProjectDependency, ProjectDependencyType, ProjectVersion};
use resource_downloader::project_list::{ProjectList, ProjectTypeConfig};
use resource_downloader::resource_type::ResourceType;
use resource_downloader::state::RDState;

fn project(id: &str, manual: bool) -> Project {
    Project::new(id.to_string(), ResourceType::Mod, manual, id.to_string(), String::new(), String::new())
}

fn lnk(id: &str) -> ProjectLnk {
    ProjectLnk::from_id(&id.to_string())
}

fn state_with_two_lists() -> RDState {
    let mut s = RDState::new();
    let mut a = ProjectList::new("a".to_string(), "A".to_string(), GameVersion::release("1.21".to_string()));
    a.add_project(project("app", true));
    a.add_project(project("lib", false));
    let dep = ProjectDependency::new(lnk("lib"), ProjectDependencyType::Required, None, None);
    let v = ProjectVersion::new(false, "v1".to_string(), "app.jar".to_string(), "h".to_string(), "release".to_string(), vec![dep]);
    a.add_version(&lnk("app"), v);
    let b = ProjectList::new("b".to_string(), "B".to_string(), GameVersion::release("1.21".to_string()));
    s.lists.push(a);
    s.lists.push(b);
    s
}

fn list<'a>(s: &'a RDState, id: &str) -> &'a ProjectList {
    s.lists.iter().find(|l| l.list_id == id).unwrap()
}

#[test]
fn copy_brings_dependencies_along() {
    let mut s = state_with_two_lists();
    s.set_clipboard(ListLnk::new("a".to_string()), vec![lnk("app")], false);
    s.paste_clipboard(ListLnk::new("b".to_string()));
    let b = list(&s, "b");
    assert!(b.has_project(&lnk("app")));
    assert!(b.has_project(&lnk("lib")));
    assert!(b.get_project(&lnk("app")).unwrap().is_manual());
    assert!(!b.get_project(&lnk("lib")).unwrap().is_manual());
    assert!(list(&s, "a").has_project(&lnk("app")));
    assert!(s.clipboard.is_some());
}

#[test]
fn cut_moves_projects_out_of_the_source() {
    let mut s = state_with_two_lists();
    s.set_clipboard(ListLnk::new("a".to_string()), vec![lnk("app")], true);
    s.paste_clipboard(ListLnk::new("b".to_string()));
    assert!(list(&s, "b").has_project(&lnk("app")));
    assert!(!list(&s, "a").has_project(&lnk("app")));
    assert!(!list(&s, "a").has_project(&lnk("lib")));
    assert!(s.clipboard.is_none());
}

#[test]
fn paste_into_a_missing_list_does_nothing() {
    let mut s = state_with_two_lists();
    s.set_clipboard(ListLnk::new("a".to_string()), vec![lnk("app")], true);
    s.paste_clipboard(ListLnk::new("nowhere".to_string()));
    assert!(list(&s, "a").has_project(&lnk("app")));
    assert!(s.clipboard.is_some());
}

#[test]
fn paste_between_lists_of_one_game_version_keeps_versions() {
    let mut s = state_with_two_lists();
    s.set_clipboard(ListLnk::new("a".to_string()), vec![lnk("app")], false);
    s.paste_clipboard(ListLnk::new("b".to_string()));
    let b = list(&s, "b");
    let app = b.get_project(&lnk("app")).unwrap();
    assert_eq!(app.get_version_id(), Some("v1"));
    let v = app.get_version().unwrap();
    assert_eq!(v.depended_on.len(), 1);
    assert!(b.get_project(&lnk("lib")).unwrap().get_version().is_none());
}

#[test]
fn paste_to_another_game_version_drops_versions() {
    let mut s = state_with_two_lists();
    s.lists[1] = ProjectList::new("b".to_string(), "B".to_string(), GameVersion::release("1.20".to_string()));
    s.set_clipboard(ListLnk::new("a".to_string()), vec![lnk("app")], false);
    s.paste_clipboard(ListLnk::new("b".to_string()));
    let b = list(&s, "b");
    assert!(b.has_project(&lnk("lib")));
    assert!(b.get_project(&lnk("app")).unwrap().get_version().is_none());
    assert!(b.get_project(&lnk("app")).unwrap().is_manual());
}

#[test]
fn paste_keeps_a_held_project_and_its_version() {
    let mut s = state_with_two_lists();
    s.lists[1].add_project(project("lib", false));
    let v = ProjectVersion::new(false, "old".to_string(), "lib.jar".to_string(), "h2".to_string(), "release".to_string(), vec![]);
    s.lists[1].add_version(&lnk("lib"), v);
    s.set_clipboard(ListLnk::new("a".to_string()), vec![lnk("lib")], false);
    s.paste_clipboard(ListLnk::new("b".to_string()));
    let lib = list(&s, "b").get_project(&lnk("lib")).unwrap();
    assert_eq!(lib.get_version_id(), Some("old"));
    assert!(lib.is_manual());
}

fn mods_config(dir: &str) -> ProjectTypeConfig {
    ProjectTypeConfig::new(GameLoader { id: "fabric".to_string(), name: "Fabric".to_string() }, dir.to_string())
}

#[test]
fn removing_projects_asks_to_delete_their_files_before_saving() {
    let mut s = state_with_two_lists();
    s.lists[0].set_resource_type(ResourceType::Mod, mods_config("/mods"));
    ProjectActions::remove_projects(&mut s, ListLnk::new("a".to_string()), vec![lnk("app")]);
    assert!(!list(&s, "a").has_project(&lnk("lib")));
    let del = |id: &str| {
        s.effects.iter().position(|e| {
            matches!(e, Effect::DeleteProjectFiles { path, project } if path == "/mods" && *project == lnk(id))
        })
    };
    let save = s.effects.iter().position(|e| matches!(e, Effect::SaveList { .. })).unwrap();
    assert!(del("app").unwrap() < save);
    assert!(del("lib").unwrap() < save);
}

#[test]
fn removing_projects_without_type_settings_deletes_no_files() {
    let mut s = state_with_two_lists();
    ProjectActions::remove_projects(&mut s, ListLnk::new("a".to_string()), vec![lnk("app")]);
    assert!(!s.effects.iter().any(|e| matches!(e, Effect::DeleteProjectFiles { .. })));
    assert!(s.effects.iter().any(|e| matches!(e, Effect::SaveList { .. })));
}

#[test]
fn pasting_an_archived_project_asks_to_archive_its_file() {
    let mut s = state_with_two_lists();
    let mut old = project("old", true);
    old.set_archived(true);
    s.lists[0].add_project(old);
    s.lists[1].set_resource_type(ResourceType::Mod, mods_config("/b/mods"));
    s.set_clipboard(ListLnk::new("a".to_string()), vec![lnk("old")], false);
    s.paste_clipboard(ListLnk::new("b".to_string()));
    assert!(s.effects.iter().any(|e| {
        matches!(e, Effect::ArchiveProjectFiles { path, project } if path == "/b/mods" && *project == lnk("old"))
    }));
    assert!(!s.effects.iter().any(|e| matches!(e, Effect::UnarchiveProjectFiles { .. })));
}
