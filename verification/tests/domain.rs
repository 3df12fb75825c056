use resource_downloader::cache::{CacheContext, CacheType, hex_string};
use resource_downloader::collection::parse_collection_id;
use resource_downloader::game::{GameVersion, trim_trailing_zeros};
use resource_downloader::list_actions::join_path;
use resource_downloader::list_group_actions::parent_dir;
use resource_downloader::project::ProjectDependencyType;
use resource_downloader::notifications::{FailedNotification, SuccessNotification};
use resource_downloader::registry::{CacheEntry, CacheRegistry, CacheResponse};
use resource_downloader::resource_type::ResourceType;
use resource_downloader::suggest::{is_approximately_similar, is_for_other_type, normalize};
use resource_downloader::text::with_number;

#[test]
fn release_drops_trailing_zero_components() {
    let v = GameVersion::release("1.20.0".to_string());
    assert_eq!(v.name, "1.20");
    assert_eq!(v.channel, "release");
    assert!(v.is_release());
    assert!(!v.is_snapshot());
    assert_eq!(trim_trailing_zeros(&"1.0.0".to_string()), "1");
}

#[test]
fn version_components_and_number() {
    let v = GameVersion::release("1.20.4".to_string());
    assert_eq!(v.get_components(), [1, 20, 4]);
    assert_eq!(v.as_u64(), 1_020_004);
    let w = GameVersion::release("1.19".to_string());
    assert_eq!(w.get_components(), [1, 19, 0]);
    assert_eq!(v.distance_int(&w), 1_004);
    assert_eq!(w.distance_int(&v), -1_004);
    let s = GameVersion::from_name(&"24w14a".to_string());
    assert_eq!(s.get_components(), [0, 0, 0]);
    assert_eq!(s.as_u64(), 0);
}

#[test]
fn version_channels_from_names() {
    let cases = vec![
        ("1.20.1", "release"),
        ("24w14a", "snapshot"),
        ("1.20.5-pre1", "pre-release"),
        ("1.20.5-rc1", "release-candidate"),
        ("inf-20100618", "inf-dev"),
        ("c0.30", "classic"),
        ("rd-132211", "pre-classic"),
        ("b1.7.3", "beta"),
        ("a1.2.6", "alpha"),
        ("Experimental Snapshot 1", "snapshot"),
        ("combat test 8c", "experimental"),
        ("weird", "unknown"),
    ];
    for (name, channel) in cases {
        let v = GameVersion::from_name(&name.to_string());
        assert_eq!(v.channel, channel, "channel of {}", name);
    }
    assert_eq!(GameVersion::from_name(&"1.21.0".to_string()).name, "1.21");
}

#[test]
fn version_order() {
    let a = GameVersion::release("1.20.1".to_string());
    let b = GameVersion::release("1.21".to_string());
    assert_eq!(a.compare(&b), std::cmp::Ordering::Less);
    assert_eq!(b.compare(&a), std::cmp::Ordering::Greater);
    assert_eq!(a.compare(&a.clone()), std::cmp::Ordering::Equal);
    let snap = GameVersion::from_name(&"24w14a".to_string());
    assert_eq!(snap.compare(&a), std::cmp::Ordering::Less);
    assert_eq!(snap.compare(&snap.clone()), std::cmp::Ordering::Less);
}

#[test]
fn resource_type_names() {
    assert_eq!(ResourceType::from_str("mod".to_string()), Some(ResourceType::Mod));
    assert_eq!(ResourceType::from_str("nothing".to_string()), None);
    assert_eq!(ResourceType::Shader.game_folder(), "shaderpacks");
    assert_eq!(ResourceType::Mod.game_folder(), "mods");
}

#[test]
fn collection_ids() {
    assert_eq!(parse_collection_id("  "), None);
    assert_eq!(parse_collection_id("abc123"), Some("abc123".to_string()));
    assert_eq!(
        parse_collection_id("https://modrinth.com/collection/Xy12AbCd"),
        Some("Xy12AbCd".to_string())
    );
    assert_eq!(
        parse_collection_id(" https://modrinth.com/collection/Xy12AbCd/projects?x=1 "),
        Some("Xy12AbCd".to_string())
    );
    assert_eq!(parse_collection_id("https://modrinth.com/collection/?x"), None);
}

#[test]
fn notification_texts() {
    let f = FailedNotification::new("Download", "no network");
    assert_eq!(f.get_title(), "\u{26a0} Download");
    assert_eq!(f.get_desc(), "no network");
    let s = SuccessNotification::new("Saved", "all good");
    assert_eq!(s.get_title(), "\u{2714} Saved");
    assert_eq!(s.get_desc(), "all good");
}

#[test]
fn hex_digits() {
    assert_eq!(hex_string(0), "0");
    assert_eq!(hex_string(255), "ff");
    assert_eq!(hex_string(0x1234abcd), "1234abcd");
    assert_eq!(hex_string(u64::MAX), format!("{:x}", u64::MAX));
}

#[test]
fn hashed_keys_are_hex_and_stable() {
    let ctx = CacheContext { id: Some("sodium".to_string()), resource_type: None, version: None, loader: None };
    let k1 = ctx.hashed_key(CacheType::ProjectSlug);
    let k2 = ctx.hashed_key(CacheType::ProjectSlug);
    assert_eq!(k1, k2);
    assert!(!k1.is_empty());
    assert!(k1.chars().all(|c| c.is_ascii_hexdigit() && !c.is_ascii_uppercase()));
    assert_ne!(k1, ctx.hashed_key(CacheType::ProjectMetadata));
}

#[test]
fn cache_settings_per_kind() {
    assert_eq!(CacheType::Search.config().ttl_secs, 300);
    assert_eq!(CacheType::GameLoaders.config().ttl_secs, 7 * 86400);
    assert_eq!(CacheType::ProjectIcons.config().sub_dir, "prj_icons");
    assert_eq!(CacheType::ProjectSlug.config().concurrency, 4);
}

#[test]
fn registry_reads_back_what_was_stored() {
    let mut reg: CacheRegistry<u32> = CacheRegistry::new();
    reg.record(CacheType::Search, "k".to_string(), Ok(CacheEntry { data: 7, updated_at: 1000 }));
    assert_eq!(reg.lookup(CacheType::Search, "k", 1000), Some(Ok(&7)));
    assert_eq!(reg.lookup(CacheType::Search, "k", 1299), Some(Ok(&7)));
    assert_eq!(reg.lookup(CacheType::Search, "k", 1300), None);
    assert_eq!(reg.lookup(CacheType::Search, "k", 10), Some(Ok(&7)));
    assert_eq!(reg.lookup(CacheType::GameVersions, "k", 1000), None);
    reg.record(CacheType::Search, "k".to_string(), Err("offline".to_string()));
    assert_eq!(reg.lookup(CacheType::Search, "k", 1000), Some(Err(&"offline".to_string())));
    reg.discard(CacheType::Search, "k");
    assert_eq!(reg.lookup(CacheType::Search, "k", 1000), None);
}

#[test]
fn registry_applies_responses_under_hashed_keys() {
    let mut reg: CacheRegistry<String> = CacheRegistry::new();
    let ctx = CacheContext { id: Some("iris".to_string()), resource_type: None, version: None, loader: None };
    let key = ctx.hashed_key(CacheType::ProjectMetadata);
    let same = CacheContext { id: Some("iris".to_string()), resource_type: None, version: None, loader: None };
    reg.apply_response(CacheResponse::Updated {
        ty: CacheType::ProjectMetadata,
        ctx: same,
        data: "meta".to_string(),
        ts: 50,
    });
    assert_eq!(reg.lookup(CacheType::ProjectMetadata, &key, 60), Some(Ok(&"meta".to_string())));
    reg.discard_context(CacheType::ProjectMetadata, &ctx);
    assert_eq!(reg.lookup(CacheType::ProjectMetadata, &key, 60), None);
    reg.warm(CacheType::ProjectMetadata, &ctx, "warm".to_string(), 70);
    assert_eq!(reg.lookup(CacheType::ProjectMetadata, &key, 71), Some(Ok(&"warm".to_string())));
}

#[test]
fn suggestions_for_other_types() {
    assert_eq!(normalize("Fabric API!".to_string()), "fabricapi");
    assert_eq!(is_for_other_type("Faithful".to_string(), &ResourceType::Mod), Some((ResourceType::ResourcePack, "Faithful".to_string())));
    assert_eq!(is_for_other_type("".to_string(), &ResourceType::Mod), None);
    assert_eq!(is_for_other_type("!!!".to_string(), &ResourceType::Mod), None);
    assert_eq!(is_for_other_type("zzzzqqqq".to_string(), &ResourceType::Mod), None);
    let r = is_for_other_type("Complementary".to_string(), &ResourceType::Mod);
    assert_eq!(r, Some((ResourceType::Shader, "Complementary".to_string())));
    if let Some((t, _)) = is_for_other_type("sodium".to_string(), &ResourceType::Mod) {
        assert_ne!(t, ResourceType::Mod);
    }
}

#[test]
fn approximate_similarity() {
    assert!(is_approximately_similar("sodium", "sodium"));
    assert!(is_approximately_similar("sodium", "sodiumextra"));
    assert!(is_approximately_similar("sodum", "sodium"));
    assert!(!is_approximately_similar("", "sodium"));
    assert!(!is_approximately_similar("abc", "xyz"));
    assert!(!is_approximately_similar("iris", "sodiumextraplus"));
}

#[test]
fn paths_join_and_parent() {
    assert_eq!(join_path("/test/instance", "mods"), "/test/instance/mods");
    assert_eq!(parent_dir("/default/mods"), "/default");
    assert_eq!(parent_dir("/default/mods/"), "/default");
    assert_eq!(parent_dir("/mods"), "/");
    assert_eq!(parent_dir("mods"), "");
    assert_eq!(with_number("list_group_", 42), "list_group_42");
}

#[test]
fn manual_override_never_makes_a_dependency_incompatible() {
    let required = ProjectDependencyType::Required;
    let incompatible = ProjectDependencyType::Incompatible;
    assert!(required.get_effective_type(None) == ProjectDependencyType::Required);
    assert!(required.get_effective_type(Some(true)) == ProjectDependencyType::Required);
    assert!(required.get_effective_type(Some(false)) == ProjectDependencyType::Ignored);
    assert!(incompatible.get_effective_type(Some(false)) == ProjectDependencyType::Incompatible);
    assert!(incompatible.get_effective_type(Some(true)) == ProjectDependencyType::Required);
}
