use resource_downloader::game::{GameLoader, GameVersion};
use resource_downloader::import_matching::{MatchSelection, normalize_name};
use resource_downloader::lnk::ProjectLnk;
use resource_downloader::resource_type::ResourceType;
use resource_downloader::state::{FolderImportCandidate, FolderImportSession};

fn candidate(name: &str, results: Option<Vec<&str>>) -> FolderImportCandidate {
    FolderImportCandidate {
        original_filename: format!("{name}.jar"),
        cleaned_name: name.to_string(),
        detected_version: GameVersion::release("1.21".to_string()),
        detected_loader: GameLoader { id: "fabric".to_string(), name: "Fabric".to_string() },
        search_results: results.map(|v| {
            v.into_iter().map(|n| (ProjectLnk::from_id(&n.to_lowercase()), n.to_string())).collect()
        }),
    }
}

fn session(candidates: Vec<FolderImportCandidate>) -> FolderImportSession {
    FolderImportSession {
        path: "/mods".to_string(),
        resource_type: ResourceType::Mod,
        candidates,
        suggested_version: None,
        suggested_loader: None,
        is_scanning: false,
        scan_progress: None,
        scan_error: None,
        selected_matches: Vec::new(),
        skipped_items: Vec::new(),
        exact_matches: Vec::new(),
        manually_cleared: Vec::new(),
        show_only_unresolved: false,
    }
}

#[test]
fn names_compare_without_case_and_punctuation() {
    assert_eq!(normalize_name("Fabric API-0.92"), "fabricapi092");
    assert_eq!(normalize_name("Xaero's Minimap"), "xaerosminimap");
}

#[test]
fn exact_matches_are_picked() {
    let s = session(vec![
        candidate("sodium", Some(vec!["Sodium"])),
        candidate("iris-shaders", Some(vec!["Iris Shaders Extra", "Iris Shaders", "Other"])),
        candidate("lithium", Some(vec!["Phosphor"])),
        candidate("unknown", Some(vec!["A", "B"])),
        candidate("pending", None),
        candidate("cleared", Some(vec!["Cleared"])),
        candidate("kept", Some(vec!["Kept"])),
    ]);
    let mut sel = MatchSelection::new();
    sel.manually_cleared.insert(5);
    sel.selected_matches.insert(6, 3);
    sel.auto_select_exact_matches(&s);
    assert_eq!(sel.selected_matches.get(&0), Some(&0));
    assert!(sel.exact_matches.contains(&0));
    assert_eq!(sel.selected_matches.get(&1), Some(&1));
    assert!(sel.exact_matches.contains(&1));
    assert_eq!(sel.selected_matches.get(&2), Some(&0));
    assert!(!sel.exact_matches.contains(&2));
    assert_eq!(sel.selected_matches.get(&3), None);
    assert_eq!(sel.selected_matches.get(&4), None);
    assert_eq!(sel.selected_matches.get(&5), None);
    assert_eq!(sel.selected_matches.get(&6), Some(&3));
    assert!(!sel.exact_matches.contains(&6));
    assert_eq!(sel.selected_matches.len(), 4);
}
