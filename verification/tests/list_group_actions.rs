use resource_downloader::config::{AppConfig, InstanceSettings, ListGroup};
use resource_downloader::effect::Effect;
use resource_downloader::project_list::ProjectList;
use resource_downloader::game::GameVersion;
use resource_downloader::list_group_actions::ListGroupActions;
use resource_downloader::lnk::{ListGroupLnk, ListLnk, SidebarItem};
use resource_downloader::resource_type::ResourceType;
use resource_downloader::state::RDState;

fn setup_test_state() -> RDState {
    let mut state = RDState::new();
    let mut config = AppConfig::default();
    config.list_groups = vec![
        ListGroup {
            lnk: ListGroupLnk::new("group_1".to_string()),
            name: "Group 1".to_string(),
            collapsed: false,
            parent_id: None,
            is_instance: false,
            instance_settings: None,
        },
        ListGroup {
            lnk: ListGroupLnk::new("group_2".to_string()),
            name: "Group 2".to_string(),
            collapsed: true,
            parent_id: None,
            is_instance: true,
            instance_settings: Some(InstanceSettings {
                download_directory: "/test/dir".to_string(),
                game_version: GameVersion::release("1.20.1".to_string()),
            }),
        },
    ];
    config.sidebar_ui_order = vec![
        SidebarItem::ListGroup(ListGroupLnk::new("group_1".to_string())),
        SidebarItem::ListGroup(ListGroupLnk::new("group_2".to_string())),
    ];
    state.config = config;
    state
}

fn find_group<'a>(state: &'a RDState, lnk: &ListGroupLnk) -> &'a ListGroup {
    state.config.list_groups.iter().find(|g| g.lnk == *lnk).unwrap()
}

fn group_of_list(state: &RDState, list: &ListLnk) -> Option<ListGroupLnk> {
    state.config.list_group_assignments.iter().find(|(l, _)| l == list).map(|(_, g)| g.clone())
}

#[test]
fn test_create_list_group_with_parent() {
    let mut state = setup_test_state();
    let parent_id = Some(ListGroupLnk::new("group_1".to_string()));
    let new_lg_id =
        ListGroupActions::create_list_group_with_parent(&mut state, "New Group".to_string(), parent_id.clone());
    let created_group = state.config.list_groups.iter().find(|g| g.lnk == new_lg_id);
    assert!(created_group.is_some());
    let group = created_group.unwrap();
    assert_eq!(group.name, "New Group");
    assert_eq!(group.parent_id, parent_id);
    assert!(!group.collapsed);
    assert!(!group.is_instance);
}

#[test]
fn test_rename_list_group() {
    let mut state = setup_test_state();
    let lg_lnk = ListGroupLnk::new("group_1".to_string());
    ListGroupActions::rename_list_group(&mut state, lg_lnk.clone(), "Renamed Group".to_string());
    assert_eq!(find_group(&state, &lg_lnk).name, "Renamed Group");
}

#[test]
fn test_toggle_list_group_collapsed() {
    let mut state = setup_test_state();
    let lg_lnk = ListGroupLnk::new("group_1".to_string());
    assert!(!find_group(&state, &lg_lnk).collapsed);
    ListGroupActions::toggle_list_group_collapsed(&mut state, lg_lnk.clone());
    assert!(find_group(&state, &lg_lnk).collapsed);
    ListGroupActions::toggle_list_group_collapsed(&mut state, lg_lnk.clone());
    assert!(!find_group(&state, &lg_lnk).collapsed);
}

#[test]
fn test_move_list_to_list_group() {
    let mut state = setup_test_state();
    let list_id = ListLnk::new("list_1".to_string());
    let lg_lnk = ListGroupLnk::new("group_1".to_string());
    ListGroupActions::move_list_to_list_group(&mut state, list_id.clone(), Some(lg_lnk.clone()));
    assert_eq!(group_of_list(&state, &list_id), Some(lg_lnk.clone()));
    ListGroupActions::move_list_to_list_group(&mut state, list_id.clone(), None);
    assert_eq!(group_of_list(&state, &list_id), None);
}

#[test]
fn test_is_instance_mode() {
    let state = setup_test_state();
    let lg_lnk_1 = ListGroupLnk::new("group_1".to_string());
    let lg_lnk_2 = ListGroupLnk::new("group_2".to_string());
    assert!(!ListGroupActions::is_instance_mode(&state, lg_lnk_1));
    assert!(ListGroupActions::is_instance_mode(&state, lg_lnk_2));
}

#[test]
fn test_toggle_instance_mode() {
    let mut state = setup_test_state();
    let lg_lnk = ListGroupLnk::new("group_1".to_string());
    state.default_dirs.push((ResourceType::Mod, "/default/mods".to_string()));
    assert!(!ListGroupActions::is_instance_mode(&state, lg_lnk.clone()));
    ListGroupActions::toggle_instance_mode(&mut state, lg_lnk.clone());
    {
        let group = find_group(&state, &lg_lnk);
        assert!(group.is_instance);
        assert!(group.instance_settings.is_some());
    }
    ListGroupActions::toggle_instance_mode(&mut state, lg_lnk.clone());
    assert!(!find_group(&state, &lg_lnk).is_instance);
}

#[test]
fn test_update_instance_settings() {
    let mut state = setup_test_state();
    let lg_lnk = ListGroupLnk::new("group_2".to_string());
    let new_dir = "/new/test/dir".to_string();
    let new_version = GameVersion::release("1.21".to_string());
    ListGroupActions::update_instance_settings(&mut state, lg_lnk.clone(), new_dir.clone(), new_version.clone());
    let group = find_group(&state, &lg_lnk);
    assert!(group.instance_settings.is_some());
    let settings = group.instance_settings.as_ref().unwrap();
    assert_eq!(settings.download_directory, new_dir);
    assert_eq!(settings.game_version.name, new_version.name);
}

#[test]
fn test_toggle_open_group_list() {
    let mut state = setup_test_state();
    let lg_lnk = ListGroupLnk::new("group_1".to_string());
    assert!(state.open_list_group.is_none());
    ListGroupActions::toggle_open_group_list(&mut state, &lg_lnk);
    assert_eq!(state.open_list_group, Some(lg_lnk.clone()));
    ListGroupActions::toggle_open_group_list(&mut state, &lg_lnk);
    assert!(state.open_list_group.is_none());
}

#[test]
fn test_duplicate_list_group_creates_copy() {
    let mut state = setup_test_state();
    let lg_lnk = ListGroupLnk::new("group_1".to_string());
    let original_count = state.config.list_groups.len();
    ListGroupActions::duplicate_list_group(&mut state, lg_lnk.clone());
    assert_eq!(state.config.list_groups.len(), original_count + 1);
    let duplicated = state.config.list_groups.iter().find(|g| g.name == "Group 1 (Copy)");
    assert!(duplicated.is_some());
    let dup = duplicated.unwrap();
    assert_ne!(dup.lnk, lg_lnk);
    assert_eq!(dup.name, "Group 1 (Copy)");
}

#[test]
fn test_generate_list_group_id_is_unique() {
    let id1 = ListGroupActions::generate_list_group_id();
    let start = std::time::Instant::now();
    while start.elapsed() < std::time::Duration::from_millis(1) {}
    let id2 = ListGroupActions::generate_list_group_id();
    assert_ne!(id1, id2);
}

#[test]
fn duplicating_a_group_copies_its_lists_and_children() {
    let mut state = setup_test_state();
    let g1 = ListGroupLnk::new("group_1".to_string());
    state.config.list_groups.push(ListGroup {
        lnk: ListGroupLnk::new("child".to_string()),
        name: "Child".to_string(),
        collapsed: false,
        parent_id: Some(g1.clone()),
        is_instance: false,
        instance_settings: None,
    });
    state.lists.push(ProjectList::new("l1".to_string(), "L1".to_string(), GameVersion::release("1.21".to_string())));
    state.config.list_group_assignments.push((ListLnk::new("l1".to_string()), g1.clone()));
    ListGroupActions::duplicate_list_group(&mut state, g1.clone());
    assert_eq!(state.config.list_groups.len(), 5);
    let copy = state.config.list_groups[3].lnk.clone();
    assert_eq!(state.config.list_groups[3].name, "Group 1 (Copy)");
    assert_eq!(state.config.list_groups[4].name, "Child (Copy)");
    assert_eq!(state.config.list_groups[4].parent_id, Some(copy.clone()));
    assert!(state.effects.iter().any(|e| matches!(e,
        Effect::DuplicateList { list, target_parent: Some(p) } if *list == ListLnk::new("l1".to_string()) && *p == copy)));
    let pos = state.config.sidebar_ui_order.iter().position(|i| *i == SidebarItem::ListGroup(g1.clone())).unwrap();
    assert_eq!(state.config.sidebar_ui_order[pos + 1], SidebarItem::ListGroup(copy));
    let child_copy = state.config.list_groups[4].lnk.clone();
    assert_eq!(state.pending_sidebar_scroll, Some(SidebarItem::ListGroup(child_copy)));
}
