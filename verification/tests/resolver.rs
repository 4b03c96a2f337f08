use asset_resolver::listfile::{FdidStage, ListfileSources, LookupNext, PathStage};
use asset_resolver::paths::{AssetResolverConfig, ResolverEnvironment};
use asset_resolver::CascListfileResolver;

fn environment() -> ResolverEnvironment {
    ResolverEnvironment {
        data_dir: None,
        shared_data_dir: None,
        cache_dir: None,
        default_source_data_root: "data".to_string(),
        default_cache_root: "/home/user/.cache".to_string(),
    }
}

#[test]
fn resolver_creation_accepts_explicit_locations() {
    let resolver = CascListfileResolver::new(
        AssetResolverConfig::new()
            .with_data_root("/tmp/resolver-data")
            .with_shared_data_root("/tmp/resolver-shared")
            .with_cache_root("/tmp/resolver-cache"),
        &environment(),
    );

    assert_eq!(resolver.paths().source_data_root(), "/tmp/resolver-data");
    assert_eq!(resolver.paths().shared_data_root(), "/tmp/resolver-shared");
    assert_eq!(resolver.paths().cache_root(), "/tmp/resolver-cache");
}

#[test]
fn resolver_opens_its_listfile_before_the_first_lookup() {
    let mut resolver = CascListfileResolver::new(
        AssetResolverConfig::new()
            .with_data_root("/src")
            .with_shared_data_root("/shared")
            .with_cache_root("/cache"),
        &environment(),
    );
    assert!(!resolver.listfile_loaded());
    let step = resolver.resolve_path(1, FdidStage::Start);
    assert!(matches!(step.next, LookupNext::LoadListfile));
    let step = resolver.lookup_path("a.lua", PathStage::Start);
    assert!(matches!(step.next, LookupNext::LoadListfile));

    let sources = ListfileSources {
        community_in_source: false,
        community_in_shared: false,
        limited_in_source: true,
        limited_in_shared: false,
    };
    resolver.load_listfile(&sources, "/shared/community.sqlite".to_string());
    assert!(resolver.listfile_loaded());
    let listfile = resolver.listfile().unwrap();
    assert_eq!(listfile.community_path(), "/src/wow-ui-sim-listfile.csv");
    assert_eq!(listfile.community_cache_path(), "/shared/community.sqlite");
    assert_eq!(listfile.local_cache_path(), "/shared/local-listfile-cache.sqlite");
    let step = resolver.resolve_path(1, FdidStage::Start);
    assert!(matches!(step.next, LookupNext::QueryLocal));

    let step = resolver.resolve_path(1, FdidStage::LocalReply(Ok(Some("A/B.lua".to_string()))));
    assert!(matches!(step.next, LookupNext::Answer(Some(ref p)) if p == "A/B.lua"));
    let step = resolver.lookup_path("a/b.LUA", PathStage::Start);
    assert!(matches!(step.next, LookupNext::Answer(Some(1))));
}
