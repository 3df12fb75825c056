use resource_downloader::cache::CacheType;
use resource_downloader::game::{GameLoader, GameVersion};
use resource_downloader::lnk::ProjectLnk;
use resource_downloader::pools::{GameLoaderPool, RTProjectPool};
use resource_downloader::registry::CacheRegistry;
use resource_downloader::resource_type::ResourceType;

fn loader(id: &str) -> GameLoader {
    GameLoader { id: id.to_string(), name: id.to_uppercase() }
}

#[test]
fn each_request_is_keyed_by_what_it_asks_for() {
    let l = GameLoaderPool::prepare_request(ResourceType::Shader);
    assert!(l.id.is_none() && l.version.is_none() && l.loader.is_none());
    assert_eq!(l.resource_type, Some(ResourceType::Shader));
    let p = ProjectLnk::from_id(&"sodium".to_string());
    let m = RTProjectPool::metadata_prepare_request(&p, ResourceType::Mod);
    assert_eq!(m.id, Some("sodium".to_string()));
    assert_eq!(m.resource_type, Some(ResourceType::Mod));
    assert!(m.version.is_none() && m.loader.is_none());
    let v = RTProjectPool::versions_prepare_request(&p, ResourceType::Mod, &GameVersion::release("1.21".to_string()), &loader("fabric"));
    assert_eq!(v.id, Some("sodium".to_string()));
    assert_eq!(v.loader.unwrap().id, "fabric");
    assert_eq!(v.version.unwrap().name, "1.21");
    let s = RTProjectPool::slug_context("sodium-slug".to_string());
    assert_eq!(s.id, Some("sodium-slug".to_string()));
    assert!(s.resource_type.is_none());
}

#[test]
fn a_loader_is_found_by_its_id() {
    let loaders = vec![loader("fabric"), loader("forge"), loader("fabric")];
    assert_eq!(GameLoaderPool::find_loader_by_id(&loaders, "forge").unwrap().id, "forge");
    assert_eq!(GameLoaderPool::find_loader_by_id(&loaders, "fabric").unwrap().name, "FABRIC");
    assert!(GameLoaderPool::find_loader_by_id(&loaders, "quilt").is_none());
}

#[test]
fn warmed_metadata_reads_back_until_cleared() {
    let mut reg: CacheRegistry<u32> = CacheRegistry::new();
    let p = ProjectLnk::from_id(&"sodium".to_string());
    RTProjectPool::warm_metadata(&mut reg, &p, ResourceType::Mod, 42, 1000);
    let key = RTProjectPool::metadata_prepare_request(&p, ResourceType::Mod).hashed_key(CacheType::ProjectMetadata);
    assert_eq!(reg.lookup(CacheType::ProjectMetadata, &key, 1001), Some(Ok(&42)));
    RTProjectPool::clear_metadata(&mut reg, &p, ResourceType::Mod);
    assert_eq!(reg.lookup(CacheType::ProjectMetadata, &key, 1001), None);
    GameLoaderPool::warm_loader(&mut reg, ResourceType::Mod, 7, 1000);
    let lkey = GameLoaderPool::prepare_request(ResourceType::Mod).hashed_key(CacheType::GameLoaders);
    assert_eq!(reg.lookup(CacheType::GameLoaders, &lkey, 1001), Some(Ok(&7)));
}

#[test]
fn pools_read_back_what_was_warmed() {
    let mut reg: CacheRegistry<u32> = CacheRegistry::new();
    let p = ProjectLnk::from_id(&"sodium".to_string());
    assert_eq!(GameLoaderPool::get_loaders(&reg, ResourceType::Mod, 100), None);
    GameLoaderPool::warm_loader(&mut reg, ResourceType::Mod, 3, 100);
    assert_eq!(GameLoaderPool::get_loaders(&reg, ResourceType::Mod, 200), Some(Ok(&3)));
    assert_eq!(GameLoaderPool::get_loaders(&reg, ResourceType::Shader, 200), None);
    RTProjectPool::warm_slug(&mut reg, "sodium-slug".to_string(), 9, 100);
    assert_eq!(RTProjectPool::get_project_by_slug(&reg, "sodium-slug", 150), Some(Ok(&9)));
    RTProjectPool::warm_metadata(&mut reg, &p, ResourceType::Mod, 5, 100);
    assert_eq!(RTProjectPool::get_metadata(&reg, &p, ResourceType::Mod, 150), Some(Ok(&5)));
    RTProjectPool::clear_metadata(&mut reg, &p, ResourceType::Mod);
    assert_eq!(RTProjectPool::get_metadata(&reg, &p, ResourceType::Mod, 150), None);
    let v = GameVersion::release("1.21".to_string());
    assert_eq!(RTProjectPool::get_versions(&reg, &p, ResourceType::Mod, &v, &loader("fabric"), 150), None);
}
