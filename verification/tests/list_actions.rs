use resource_downloader::config::{AppConfig, InstanceSettings, ListGroup};
use resource_downloader::game::{GameLoader, GameVersion};
use resource_downloader::list_actions::ListActions;
use resource_downloader::lnk::{ListGroupLnk, ListLnk, SidebarItem};
use resource_downloader::project_list::{ProjectList, ProjectTypeConfig};
use resource_downloader::resource_type::ResourceType;
use resource_downloader::state::RDState;

fn setup_test_state() -> RDState {
    let mut state = RDState::new();
    let list_group_lnk = ListGroupLnk::new("test_group".to_string());
    let mut config = AppConfig::default();
    config.list_groups = vec![ListGroup {
        lnk: list_group_lnk.clone(),
        name: "Test Group".to_string(),
        collapsed: false,
        parent_id: None,
        is_instance: true,
        instance_settings: Some(InstanceSettings {
            download_directory: "/test/instance".to_string(),
            game_version: GameVersion::release("1.21".to_string()),
        }),
    }];
    state.config = config;
    state.default_dirs.push((ResourceType::Mod, "/default/mods".to_string()));
    state
}

fn create_test_list(name: &str, resource_type: ResourceType) -> ProjectList {
    let mut list = ProjectList::new(
        format!("list_{}", name),
        name.to_string(),
        GameVersion::release("1.20.1".to_string()),
    );
    list.set_resource_type(
        resource_type,
        ProjectTypeConfig::new(
            GameLoader { id: "fabric".to_string(), name: "Fabric".to_string() },
            "/test/mods".to_string(),
        ),
    );
    list
}

fn assign(state: &mut RDState, list: &ListLnk, group: &ListGroupLnk) {
    state.config.list_group_assignments.push((list.clone(), group.clone()));
}

#[test]
fn test_get_list_resource_type_default() {
    let state = setup_test_state();
    let list_lnk = ListLnk::new("nonexistent_list".to_string());
    let rt = ListActions::get_list_resource_type(&state, &list_lnk);
    assert_eq!(rt, ResourceType::Mod);
}

#[test]
fn test_get_list_target_resource_type() {
    let list = create_test_list("test", ResourceType::Shader);
    let rt = ListActions::get_list_target_resource_type(&list);
    assert_eq!(rt, ResourceType::Shader);
}

#[test]
fn test_get_list_target_resource_type_default() {
    let list = ProjectList::new(
        "empty_list".to_string(),
        "Empty".to_string(),
        GameVersion::release("1.20.1".to_string()),
    );
    let rt = ListActions::get_list_target_resource_type(&list);
    assert_eq!(rt, ResourceType::Mod);
}

#[test]
fn test_get_effective_game_version_without_instance() {
    let state = setup_test_state();
    let original_version = GameVersion::release("1.20.1".to_string());
    let list_lnk = ListLnk::new("test_list".to_string());
    let effective_version = ListActions::get_effective_game_version(&state, &list_lnk, &original_version);
    assert_eq!(effective_version.name, "1.20.1");
}

#[test]
fn test_get_effective_game_version_with_instance() {
    let mut state = setup_test_state();
    let list_lnk = ListLnk::new("test_list".to_string());
    let list_group_lnk = ListGroupLnk::new("test_group".to_string());
    assign(&mut state, &list_lnk, &list_group_lnk);
    let original_version = GameVersion::release("1.20.1".to_string());
    let effective_version = ListActions::get_effective_game_version(&state, &list_lnk, &original_version);
    assert_eq!(effective_version.name, "1.21");
}

#[test]
fn test_toggle_open_list() {
    let mut state = setup_test_state();
    let list_lnk = ListLnk::new("test_list".to_string());
    assert!(state.open_list.is_none());
    ListActions::toggle_open_list(&mut state, &list_lnk);
    assert_eq!(state.open_list, Some(list_lnk.clone()));
    ListActions::toggle_open_list(&mut state, &list_lnk);
    assert!(state.open_list.is_none());
}

#[test]
fn test_rename_list_nonexistent() {
    let mut state = setup_test_state();
    let list_lnk = ListLnk::new("nonexistent".to_string());
    ListActions::rename_list(&mut state, list_lnk.clone(), "New Name".to_string());
}

#[test]
fn test_set_sidebar_ui_order() {
    let mut state = setup_test_state();
    let item1 = SidebarItem::List(ListLnk::new("list1".to_string()));
    let item2 = SidebarItem::ListGroup(ListGroupLnk::new("group1".to_string()));
    let new_order = vec![item1.clone(), item2.clone()];
    ListActions::set_sidebar_ui_order(&mut state, new_order.clone());
    assert_eq!(state.config.sidebar_ui_order.len(), 2);
    assert!(state.config.sidebar_ui_order.contains(&item1));
    assert!(state.config.sidebar_ui_order.contains(&item2));
}

#[test]
fn test_delete_list_removes_from_config() {
    let mut state = setup_test_state();
    let list_lnk = ListLnk::new("test_list".to_string());
    state.config.sidebar_ui_order.push(SidebarItem::List(list_lnk.clone()));
    ListActions::delete_list(&mut state, list_lnk.clone());
    assert!(!state.config.sidebar_ui_order.iter().any(|item| item.match_list(&list_lnk)));
}

#[test]
fn test_delete_list_closes_if_open() {
    let mut state = setup_test_state();
    let list_lnk = ListLnk::new("test_list".to_string());
    state.open_list = Some(list_lnk.clone());
    assert!(state.open_list.is_some());
    ListActions::delete_list(&mut state, list_lnk.clone());
    assert!(state.open_list.is_none());
}

#[test]
fn test_delete_list_group_reassigns_children() {
    let mut state = setup_test_state();
    let parent_group = ListGroupLnk::new("parent".to_string());
    let child_group = ListGroupLnk::new("child".to_string());
    let grandchild_group = ListGroupLnk::new("grandchild".to_string());
    state.config.list_groups.push(ListGroup {
        lnk: parent_group.clone(),
        name: "Parent".to_string(),
        collapsed: false,
        parent_id: None,
        is_instance: false,
        instance_settings: None,
    });
    state.config.list_groups.push(ListGroup {
        lnk: child_group.clone(),
        name: "Child".to_string(),
        collapsed: false,
        parent_id: Some(parent_group.clone()),
        is_instance: false,
        instance_settings: None,
    });
    state.config.list_groups.push(ListGroup {
        lnk: grandchild_group.clone(),
        name: "Grandchild".to_string(),
        collapsed: false,
        parent_id: Some(child_group.clone()),
        is_instance: false,
        instance_settings: None,
    });
    ListActions::delete_items(&mut state, vec![SidebarItem::ListGroup(child_group.clone())]);
    let grandchild = state.config.list_groups.iter().find(|g| g.lnk == grandchild_group).unwrap();
    assert_eq!(grandchild.parent_id, Some(parent_group));
}

#[test]
fn test_get_effective_download_dir_without_instance() {
    let state = setup_test_state();
    let list_lnk = ListLnk::new("test_list".to_string());
    let original_dir = "/original/mods";
    let effective_dir = ListActions::get_effective_download_dir(&state, &list_lnk, ResourceType::Mod, original_dir);
    assert_eq!(effective_dir, original_dir);
}

#[test]
fn test_get_effective_download_dir_with_instance() {
    let mut state = setup_test_state();
    let list_lnk = ListLnk::new("test_list".to_string());
    let list_group_lnk = ListGroupLnk::new("test_group".to_string());
    assign(&mut state, &list_lnk, &list_group_lnk);
    let original_dir = "/original/mods";
    let effective_dir = ListActions::get_effective_download_dir(&state, &list_lnk, ResourceType::Mod, original_dir);
    assert!(effective_dir.contains("/test/instance"));
    assert!(effective_dir.contains("mods"));
}

#[test]
fn test_get_effective_download_dir_instance_only_for_supported_types() {
    let mut state = setup_test_state();
    let list_lnk = ListLnk::new("test_list".to_string());
    let list_group_lnk = ListGroupLnk::new("test_group".to_string());
    assign(&mut state, &list_lnk, &list_group_lnk);
    let original_dir = "/original/datapacks";
    let effective_dir =
        ListActions::get_effective_download_dir(&state, &list_lnk, ResourceType::Datapack, original_dir);
    assert_eq!(effective_dir, original_dir);
}

#[test]
fn test_get_effective_download_dir_shader_uses_instance() {
    let mut state = setup_test_state();
    let list_lnk = ListLnk::new("test_list".to_string());
    let list_group_lnk = ListGroupLnk::new("test_group".to_string());
    assign(&mut state, &list_lnk, &list_group_lnk);
    let original_dir = "/original/shaderpacks";
    let effective_dir = ListActions::get_effective_download_dir(&state, &list_lnk, ResourceType::Shader, original_dir);
    assert!(effective_dir.contains("/test/instance"));
    assert!(effective_dir.contains("shaderpacks"));
}

#[test]
fn test_delete_multiple_items() {
    let mut state = setup_test_state();
    let list1 = ListLnk::new("list1".to_string());
    let list2 = ListLnk::new("list2".to_string());
    let group1 = ListGroupLnk::new("group1".to_string());
    state.config.sidebar_ui_order.push(SidebarItem::List(list1.clone()));
    state.config.sidebar_ui_order.push(SidebarItem::List(list2.clone()));
    state.config.sidebar_ui_order.push(SidebarItem::ListGroup(group1.clone()));
    state.config.list_groups.push(ListGroup {
        lnk: group1.clone(),
        name: "Group 1".to_string(),
        collapsed: false,
        parent_id: None,
        is_instance: false,
        instance_settings: None,
    });
    let items = vec![SidebarItem::List(list1.clone()), SidebarItem::ListGroup(group1.clone())];
    ListActions::delete_items(&mut state, items);
    assert!(!state.config.sidebar_ui_order.iter().any(|item| item.match_list(&list1)));
    assert!(!state.config.sidebar_ui_order.iter().any(|item| item.match_list_group(&group1)));
    assert!(state.config.sidebar_ui_order.iter().any(|item| item.match_list(&list2)));
}
