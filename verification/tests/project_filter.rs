use resource_downloader::game::GameVersion;
use resource_downloader::lnk::ProjectLnk;
use resource_downloader::project::Project;
use resource_downloader::project_filter::{FilterMode, OrderMode, SortMode, filtered_projects};
use resource_downloader::project_list::ProjectList;
use resource_downloader::resource_type::ResourceType;

fn lnk(id: &str) -> ProjectLnk {
    ProjectLnk::from_id(&id.to_string())
}

fn project(id: &str, rt: ResourceType, manual: bool, name: &str, author: &str, added_at: i64) -> Project {
    let mut p = Project::new(id.to_string(), rt, manual, name.to_string(), String::new(), author.to_string());
    p.added_at = added_at;
    p
}

fn sample_list() -> ProjectList {
    let mut list = ProjectList::new("l".to_string(), "L".to_string(), GameVersion::release("1.21".to_string()));
    list.add_project(project("a", ResourceType::Mod, true, "Banana", "zed", 30));
    list.add_project(project("b", ResourceType::Mod, true, "apple", "Ann", 10));
    list.add_project(project("c", ResourceType::Mod, true, "cherry", "bob", 20));
    list.add_project(project("d", ResourceType::Mod, false, "aaa", "x", 1));
    list.add_project(project("e", ResourceType::Shader, true, "Apricot", "x", 2));
    list.add_project(project("f", ResourceType::Mod, true, "Apple", "y", 5));
    list
}

fn ids(v: &[ProjectLnk]) -> Vec<String> {
    v.iter().map(|l| l.to_string()).collect()
}

fn shown(list: &ProjectList, query: &str, sort: SortMode, order: OrderMode, filter: FilterMode, compatible: &Vec<(ProjectLnk, bool)>) -> Vec<String> {
    ids(&filtered_projects(list, ResourceType::Mod, query, sort, order, filter, &vec![], compatible))
}

#[test]
fn projects_are_sorted_by_name_keeping_the_list_order_for_equal_names() {
    let list = sample_list();
    assert_eq!(shown(&list, "", SortMode::Name, OrderMode::Ascending, FilterMode::All, &vec![]), vec!["b", "f", "a", "c"]);
    assert_eq!(shown(&list, "", SortMode::Name, OrderMode::Descending, FilterMode::All, &vec![]), vec!["c", "a", "b", "f"]);
}

#[test]
fn projects_are_sorted_by_the_time_they_were_added() {
    let list = sample_list();
    assert_eq!(shown(&list, "", SortMode::DateAdded, OrderMode::Ascending, FilterMode::All, &vec![]), vec!["f", "b", "c", "a"]);
    assert_eq!(shown(&list, "", SortMode::DateAdded, OrderMode::Descending, FilterMode::All, &vec![]), vec!["a", "c", "b", "f"]);
}

#[test]
fn the_search_looks_at_names_and_authors_ignoring_case() {
    let list = sample_list();
    assert_eq!(shown(&list, "AN", SortMode::Name, OrderMode::Ascending, FilterMode::All, &vec![]), vec!["b", "a"]);
    assert_eq!(shown(&list, "nothing", SortMode::Name, OrderMode::Ascending, FilterMode::All, &vec![]), Vec::<String>::new());
}

#[test]
fn filters_pick_missing_compatible_or_incompatible_projects() {
    let mut list = sample_list();
    let known = vec![(lnk("c"), false), (lnk("a"), true)];
    assert_eq!(shown(&list, "", SortMode::Name, OrderMode::Ascending, FilterMode::CompatibleOnly, &known), vec!["b", "f", "a"]);
    assert_eq!(shown(&list, "", SortMode::Name, OrderMode::Ascending, FilterMode::IncompatibleOnly, &known), vec!["c"]);
    list.projects[0].set_archived(true);
    assert_eq!(shown(&list, "", SortMode::Name, OrderMode::Ascending, FilterMode::MissingOnly, &vec![]), vec!["b", "f", "c"]);
}
