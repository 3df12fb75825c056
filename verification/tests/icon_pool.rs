use resource_downloader::icon_pool::{ProjectIconPool, icon_context};
use resource_downloader::lnk::ProjectLnk;

fn lnk(id: &str) -> ProjectLnk {
    ProjectLnk::from_id(&id.to_string())
}

#[test]
fn an_icon_is_fetched_once_until_its_loading_ends() {
    let mut pool: ProjectIconPool<u32> = ProjectIconPool::new();
    assert!(pool.request_icon(&lnk("a")));
    assert!(!pool.request_icon(&lnk("a")));
    assert_eq!(pool.loading_projects().len(), 1);
    pool.finish_loading(&lnk("a"), Some(7));
    assert_eq!(pool.texture(&lnk("a")), Some(&7));
    assert!(pool.loading_projects().is_empty());
    assert!(!pool.request_icon(&lnk("a")));
}

#[test]
fn a_failed_icon_can_be_asked_for_again() {
    let mut pool: ProjectIconPool<u32> = ProjectIconPool::new();
    assert!(pool.request_icon(&lnk("b")));
    pool.finish_loading(&lnk("b"), None);
    assert!(pool.texture(&lnk("b")).is_none());
    assert!(pool.request_icon(&lnk("b")));
    pool.clear();
    assert!(pool.loading_projects().is_empty());
    assert_eq!(icon_context(&lnk("b")).id, Some("b".to_string()));
}
