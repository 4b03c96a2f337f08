use asset_resolver::paths::{
    casc_cache_path, default_cache_root, default_source_data_root, runtime_data_candidates,
    AssetResolverConfig, ResolverEnvironment, ResolverPaths,
};
use asset_resolver::text::join_path;

fn typical_environment() -> ResolverEnvironment {
    let candidates = runtime_data_candidates(
        Some("/home/user/project"),
        Some("/home/user/project/target/debug"),
        "/home/user/src/asset-resolver",
    );
    let checked: Vec<(String, bool)> = candidates.into_iter().map(|c| (c, false)).collect();
    ResolverEnvironment {
        data_dir: None,
        shared_data_dir: None,
        cache_dir: None,
        default_source_data_root: default_source_data_root(&checked),
        default_cache_root: default_cache_root(None, None, Some("/home/user"), "/tmp"),
    }
}

#[test]
fn explicit_config_controls_resolver_locations() {
    let config = AssetResolverConfig::new()
        .with_data_root("/tmp/asset-source-data")
        .with_shared_data_root("/tmp/asset-shared-data")
        .with_cache_root("/tmp/asset-cache");

    let paths = ResolverPaths::from_config(config, &typical_environment());

    assert_eq!(paths.source_data_root(), "/tmp/asset-source-data");
    assert_eq!(
        paths.shared_data_path("local.sqlite"),
        "/tmp/asset-shared-data/local.sqlite"
    );
    assert_eq!(
        paths.casc_cache_path("wow", "build"),
        "/tmp/asset-cache/casc/wow/build"
    );
}

#[test]
fn default_paths_do_not_reference_game_engine_repo() {
    let paths = ResolverPaths::from_config(AssetResolverConfig::default(), &typical_environment());

    assert!(!paths.source_data_root().contains("game-engine"));
    assert!(!paths.shared_data_root().contains("game-engine"));
    assert!(!paths.cache_root().contains("game-engine"));
}

#[test]
fn defaults_follow_environment_then_fallbacks() {
    let env = typical_environment();
    assert_eq!(env.default_source_data_root, "data");
    assert_eq!(env.default_cache_root, "/home/user/.cache");
    let paths = ResolverPaths::from_config(AssetResolverConfig::default(), &env);
    assert_eq!(paths.source_data_root(), "data");
    assert_eq!(paths.cache_root(), "/home/user/.cache/asset-resolver");
    assert_eq!(paths.shared_data_root(), "/home/user/.cache/asset-resolver/data");

    let env = ResolverEnvironment {
        data_dir: Some("/env/data".to_string()),
        shared_data_dir: None,
        cache_dir: Some("/env/cache".to_string()),
        default_source_data_root: "data".to_string(),
        default_cache_root: "/home/user/.cache".to_string(),
    };
    let paths = ResolverPaths::from_config(AssetResolverConfig::new().with_shared_data_root("/cfg/shared"), &env);
    assert_eq!(paths.source_data_root(), "/env/data");
    assert_eq!(paths.cache_root(), "/env/cache");
    assert_eq!(paths.shared_data_root(), "/cfg/shared");
    let paths = ResolverPaths::from_config(AssetResolverConfig::new(), &env);
    assert_eq!(paths.shared_data_root(), "/env/cache/data");
}

#[test]
fn runtime_candidates_and_first_existing() {
    let c = runtime_data_candidates(Some("/cwd"), None, "/pkg");
    assert_eq!(c, vec!["/cwd/data".to_string(), "/pkg/data".to_string()]);
    let checked = vec![("/a/data".to_string(), false), ("/b/data".to_string(), true), ("/c/data".to_string(), true)];
    assert_eq!(default_source_data_root(&checked), "/b/data");
}

#[test]
fn cache_root_fallback_order() {
    assert_eq!(default_cache_root(Some("C:/Local"), Some("/xdg"), Some("/home/u"), "/tmp"), "C:/Local");
    assert_eq!(default_cache_root(None, Some("/xdg"), Some("/home/u"), "/tmp"), "/xdg");
    assert_eq!(default_cache_root(None, None, None, "/tmp"), "/tmp");
}

#[test]
fn resolve_and_remap_data_paths() {
    let config = AssetResolverConfig::new()
        .with_data_root("/src/data")
        .with_shared_data_root("/shared")
        .with_cache_root("/cache");
    let paths = ResolverPaths::from_config(config, &typical_environment());
    assert_eq!(paths.resolve_data_path("x.csv", true), "/src/data/x.csv");
    assert_eq!(paths.resolve_data_path("x.csv", false), "/shared/x.csv");
    assert_eq!(paths.remap_to_shared_data_path("/src/data/a/b.blp"), "/shared/a/b.blp");
    assert_eq!(paths.remap_to_shared_data_path("data/a/b.blp"), "/shared/a/b.blp");
    assert_eq!(paths.remap_to_shared_data_path("/elsewhere/b.blp"), "/elsewhere/b.blp");
    assert_eq!(paths.remap_to_shared_data_path("/src/database/b.blp"), "/src/database/b.blp");
    assert_eq!(casc_cache_path(&paths, "wow", "abc"), "/cache/casc/wow/abc");
}

#[test]
fn join_follows_unix_path_rules() {
    assert_eq!(join_path("/a", "b"), "/a/b");
    assert_eq!(join_path("/a/", "b"), "/a/b");
    assert_eq!(join_path("", "b"), "b");
    assert_eq!(join_path("/a", "/etc"), "/etc");
    for (base, rel) in [("/a", "b"), ("/a/", "b/c"), ("", "x"), ("rel", "/abs"), ("a", "")] {
        let expected = std::path::Path::new(base).join(rel).to_string_lossy().into_owned();
        assert_eq!(join_path(base, rel), expected);
    }
}
