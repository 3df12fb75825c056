use resource_downloader::config::ListGroup;
use resource_downloader::folder_actions::FolderActions;
use resource_downloader::lnk::{ListGroupLnk, ListLnk, SidebarItem};
use resource_downloader::sidebar::{DropPosition, DropTarget, SidebarActions, parse_payload, normalize_drop_target};
use resource_downloader::state::RDState;

fn group(id: &str, parent: Option<&str>) -> ListGroup {
    ListGroup {
        lnk: ListGroupLnk::new(id.to_string()),
        name: id.to_string(),
        collapsed: false,
        parent_id: parent.map(|p| ListGroupLnk::new(p.to_string())),
        is_instance: false,
        instance_settings: None,
    }
}

fn list(id: &str) -> SidebarItem {
    SidebarItem::List(ListLnk::new(id.to_string()))
}

fn grp(id: &str) -> SidebarItem {
    SidebarItem::ListGroup(ListGroupLnk::new(id.to_string()))
}

fn state() -> RDState {
    let mut s = RDState::new();
    s.config.list_groups.push(group("g", None));
    s.config.list_groups.push(group("h", Some("g")));
    s.config.sidebar_ui_order = vec![list("a"), list("b"), grp("g"), grp("h")];
    s
}

#[test]
fn payloads_and_drop_zones() {
    assert_eq!(parse_payload("list_group:g"), ("g".to_string(), true));
    assert_eq!(parse_payload("a"), ("a".to_string(), false));
    assert_eq!(normalize_drop_target("g_inside_end"), ("g".to_string(), true));
    assert_eq!(normalize_drop_target("a_after"), ("a".to_string(), false));
    assert_eq!(normalize_drop_target("a"), ("a".to_string(), false));
}

#[test]
fn list_dropped_inside_a_group_lands_in_it() {
    let mut s = state();
    let target = DropTarget { dnd_id: "g_inside_end".to_string(), parent_id: None, position: DropPosition::Before };
    SidebarActions::apply_drop(&mut s, &target, "a");
    assert_eq!(s.config.item_parent(&list("a")), Some(ListGroupLnk::new("g".to_string())));
    assert_eq!(s.config.sidebar_ui_order.iter().filter(|i| **i == list("a")).count(), 1);
    let in_g = s.config.items_in_parent(&Some(ListGroupLnk::new("g".to_string())));
    assert_eq!(in_g.last(), Some(&list("a")));
}

#[test]
fn list_dropped_before_another_takes_its_place() {
    let mut s = state();
    let target = DropTarget { dnd_id: "a".to_string(), parent_id: None, position: DropPosition::Before };
    SidebarActions::apply_drop(&mut s, &target, "b");
    assert_eq!(s.config.sidebar_ui_order[0], list("b"));
    assert_eq!(s.config.sidebar_ui_order[1], list("a"));
}

#[test]
fn drop_on_itself_or_in_own_subgroup_changes_nothing() {
    let mut s = state();
    let before = s.config.sidebar_ui_order.clone();
    let on_self = DropTarget { dnd_id: "a".to_string(), parent_id: None, position: DropPosition::After };
    SidebarActions::apply_drop(&mut s, &on_self, "a");
    assert_eq!(s.config.sidebar_ui_order, before);
    let into_child = DropTarget { dnd_id: "h_inside_end".to_string(), parent_id: Some(ListGroupLnk::new("g".to_string())), position: DropPosition::Before };
    SidebarActions::apply_drop(&mut s, &into_child, "list_group:g");
    assert_eq!(s.config.sidebar_ui_order, before);
    assert_eq!(s.config.item_parent(&grp("g")), None);
    assert!(s.config.is_descendant_of(&ListGroupLnk::new("h".to_string()), &grp("g")));
    assert!(!s.config.is_descendant_of(&ListGroupLnk::new("g".to_string()), &grp("h")));
}

#[test]
fn counts_lists_below_a_group() {
    let mut s = state();
    s.config.list_group_assignments.push((ListLnk::new("a".to_string()), ListGroupLnk::new("h".to_string())));
    s.config.list_group_assignments.push((ListLnk::new("b".to_string()), ListGroupLnk::new("g".to_string())));
    assert_eq!(s.config.count_lists_recursive(&ListGroupLnk::new("g".to_string()), 10), 2);
    assert_eq!(s.config.count_lists_recursive(&ListGroupLnk::new("h".to_string()), 10), 1);
}

#[test]
fn folders_toggle_twice_and_delete() {
    let mut s = RDState::new();
    let f = FolderActions::create_folder(&mut s, "Stuff".to_string());
    assert_eq!(s.config.folders.len(), 1);
    let collapsed = s.config.folders[0].collapsed;
    FolderActions::toggle_folder_collapsed(&mut s, f.clone());
    assert_eq!(s.config.folders[0].collapsed, !collapsed);
    FolderActions::toggle_folder_collapsed(&mut s, f.clone());
    assert_eq!(s.config.folders[0].collapsed, collapsed);
    FolderActions::move_list_to_folder(&mut s, "l1".to_string(), Some(f.clone()));
    assert_eq!(s.config.folder_assignments, vec![("l1".to_string(), f.id().clone())]);
    FolderActions::duplicate_folder(&mut s, f.clone());
    assert_eq!(s.config.folders.len(), 2);
    assert_eq!(s.config.folders[1].name, "Stuff (Copy)");
    FolderActions::delete_folder(&mut s, f.clone());
    assert_eq!(s.config.folders.len(), 1);
    assert!(s.config.folder_assignments.is_empty());
    assert!(!s.config.folder_order.contains(f.id()));
}
