use asset_resolver::casc_cache::{
    cache_is_fresh, check_before_open, collect_content_to_encoding_keys, stale_cache_error, collect_fdid_to_content_keys,
    freshness_check, keys_from_row, resolution_metadata, resolution_paths, resolution_rows,
    DbError, DbErrorKind, EncodingEntry, FreshnessCheck, MetadataProbe, ResolutionRow,
    RootRecord, SqliteCode, SCHEMA_VERSION,
};
use asset_resolver::casc_resolver::{
    blte_payload_offset, candidate_install_paths, discover_wow_install_path,
    after_extraction, cached_file_action, casc_data_root, plan_local_access, AccessPlan,
    ExtractionFollowUp, install_path_candidates, local_archive_dir,
    missing_marker_path, wow_archive_dir, wow_data_path, CachedFileAction, InitCheck, LazyInit,
};
use asset_resolver::tvfs_cache::{collect_tvfs_resolutions, TvfsEntry};

fn rec(fdid: u32, ck: u128) -> RootRecord {
    RootRecord { file_data_id: fdid, content_key: ck }
}

#[test]
fn last_root_record_wins() {
    let m = collect_fdid_to_content_keys(&vec![rec(1, 10), rec(2, 20), rec(1, 11)]);
    assert_eq!(m.get(&1), Some(&11));
    assert_eq!(m.get(&2), Some(&20));
    assert_eq!(m.get(&3), None);
}

#[test]
fn first_encoding_key_of_last_entry_wins() {
    let entries = vec![
        EncodingEntry { content_key: 10, encoding_keys: vec![100, 101] },
        EncodingEntry { content_key: 20, encoding_keys: vec![] },
        EncodingEntry { content_key: 10, encoding_keys: vec![102] },
    ];
    let m = collect_content_to_encoding_keys(&entries);
    assert_eq!(m.get(&10), Some(&102));
    assert_eq!(m.get(&20), None);
}

#[test]
fn rows_join_both_tables_once_per_fdid() {
    let records = vec![rec(1, 10), rec(2, 20), rec(1, 11), rec(3, 30)];
    let entries = vec![
        EncodingEntry { content_key: 11, encoding_keys: vec![111] },
        EncodingEntry { content_key: 30, encoding_keys: vec![300, 301] },
        EncodingEntry { content_key: 10, encoding_keys: vec![100] },
    ];
    let rows = resolution_rows(&records, &entries);
    assert_eq!(
        rows,
        vec![
            ResolutionRow { fdid: 1, content_key: 11, encoding_key: 111 },
            ResolutionRow { fdid: 3, content_key: 30, encoding_key: 300 },
        ]
    );
}

fn sqlite_error(code: SqliteCode, message: Option<&str>) -> DbError {
    DbError {
        kind: DbErrorKind::SqliteFailure(code),
        message: message.map(|m| m.to_string()),
        text: message.unwrap_or("sqlite failure").to_string(),
    }
}

#[test]
fn metadata_freshness_rules() {
    let (r, e, v) = resolution_metadata(100, 200);
    assert_eq!(v, SCHEMA_VERSION);
    assert_eq!(cache_is_fresh("/c/resolution.sqlite", MetadataProbe::Queried(Ok((r, e, v))), 100, 200), Ok(true));
    assert_eq!(cache_is_fresh("/c/resolution.sqlite", MetadataProbe::Queried(Ok((r, e, v))), 101, 200), Ok(false));
    assert_eq!(cache_is_fresh("/c/resolution.sqlite", MetadataProbe::Queried(Ok((100, 200, 2))), 100, 200), Ok(false));
    let no_rows = DbError { kind: DbErrorKind::NoRows, message: None, text: "Query returned no rows".to_string() };
    assert_eq!(cache_is_fresh("/c/resolution.sqlite", MetadataProbe::Queried(Err(no_rows)), 1, 2), Ok(false));
    let no_table = sqlite_error(SqliteCode::Other, Some("no such table: metadata"));
    assert_eq!(cache_is_fresh("/c/resolution.sqlite", MetadataProbe::PrepareFailed(no_table), 1, 2), Ok(false));
    let corrupt = sqlite_error(SqliteCode::NotADatabase, None);
    assert_eq!(cache_is_fresh("/c/resolution.sqlite", MetadataProbe::PrepareFailed(corrupt), 1, 2), Ok(false));
    let other = sqlite_error(SqliteCode::Other, Some("disk I/O error"));
    assert_eq!(
        cache_is_fresh("/c/resolution.sqlite", MetadataProbe::PrepareFailed(other.clone()), 1, 2),
        Err("prepare metadata query: disk I/O error".to_string())
    );
    assert_eq!(
        cache_is_fresh("/c/resolution.sqlite", MetadataProbe::Queried(Err(other)), 1, 2),
        Err("query metadata: disk I/O error".to_string())
    );
}

#[test]
fn freshness_check_order() {
    assert_eq!(freshness_check(false, true, true, Some(1), Some(2)), FreshnessCheck::NotFresh);
    assert_eq!(freshness_check(true, true, false, Some(1), Some(2)), FreshnessCheck::DiscardInterrupted);
    assert_eq!(freshness_check(true, false, true, None, None), FreshnessCheck::DiscardInterrupted);
    assert_eq!(freshness_check(true, false, false, None, Some(2)), FreshnessCheck::NotFresh);
    assert_eq!(freshness_check(true, false, false, Some(1), Some(2)), FreshnessCheck::CompareMetadata(1, 2));
}

#[test]
fn row_keys_need_sixteen_bytes_each() {
    assert_eq!(keys_from_row(&vec![1u8; 16], &vec![2u8; 16]), Some(([1u8; 16], [2u8; 16])));
    assert_eq!(keys_from_row(&vec![1u8; 15], &vec![2u8; 16]), None);
    assert_eq!(keys_from_row(&vec![1u8; 16], &vec![2u8; 17]), None);
}

#[test]
fn resolution_paths_are_in_the_casc_dir() {
    let (c, r, e) = resolution_paths("/cache/casc");
    assert_eq!(c, "/cache/casc/resolution.sqlite");
    assert_eq!(r, "/cache/casc/root.bin");
    assert_eq!(e, "/cache/casc/encoding.bin");
}

#[test]
fn tvfs_entries_need_fdid_and_content_key() {
    let entries = vec![
        TvfsEntry { file_data_id: Some(1), content_key: Some(10), encoding_key: 100 },
        TvfsEntry { file_data_id: None, content_key: Some(20), encoding_key: 200 },
        TvfsEntry { file_data_id: Some(2), content_key: None, encoding_key: 300 },
        TvfsEntry { file_data_id: Some(1), content_key: Some(11), encoding_key: 110 },
    ];
    let m = collect_tvfs_resolutions(&entries);
    assert_eq!(m.get(&1), Some(&(11, 110)));
    assert_eq!(m.get(&2), None);
}

#[test]
fn install_search_order_and_choice() {
    let c = install_path_candidates(Some("/games/wow"), Some("/other/wow/Data"), Some("/home/u"));
    assert_eq!(c[0], "/games/wow");
    assert_eq!(c[1], "/other/wow");
    assert_eq!(c[2], "/syncthing/World of Warcraft");
    assert_eq!(c.len(), 10);
    assert_eq!(c[9], "/home/u/.local/share/lutris/runners/wine/World of Warcraft");
    assert_eq!(candidate_install_paths(None).len(), 4);
    let checked = vec![("/a".to_string(), false), ("/b".to_string(), true)];
    assert_eq!(discover_wow_install_path(&checked), Some("/b".to_string()));
    assert_eq!(discover_wow_install_path(&vec![]), None);
    assert_eq!(install_path_candidates(None, Some("/"), None).len(), 4);
}

#[test]
fn data_dirs_and_markers() {
    assert_eq!(wow_data_path(Some("/games/wow")), Some("/games/wow/Data".to_string()));
    assert_eq!(wow_data_path(None), None);
    assert_eq!(wow_archive_dir("/games/wow"), "/games/wow/Data/data");
    assert_eq!(missing_marker_path("/shared/a/b.blp"), "/shared/a/b.blp.missing");
    assert_eq!(missing_marker_path("/shared/a/noext"), "/shared/a/noext..missing");
}

#[test]
fn blte_offset_skips_local_header() {
    let mut raw = vec![0u8; 30];
    raw.extend_from_slice(b"BLTE");
    raw.extend_from_slice(&[1, 2, 3]);
    assert_eq!(blte_payload_offset(&raw), 30);
    assert_eq!(blte_payload_offset(b"BLTE rest"), 0);
    assert_eq!(blte_payload_offset(&raw[..33]), 0);
}

#[test]
fn open_needs_the_cache_file_and_both_mtimes() {
    assert_eq!(
        check_before_open("/c/res.sqlite", false, Ok(1), Ok(2)),
        Err("/c/res.sqlite not found (run `casc_refresh` to build it)".to_string())
    );
    assert_eq!(
        check_before_open("/c/res.sqlite", true, Err("root gone".to_string()), Err("enc gone".to_string())),
        Err("root gone".to_string())
    );
    assert_eq!(
        check_before_open("/c/res.sqlite", true, Ok(5), Err("enc gone".to_string())),
        Err("enc gone".to_string())
    );
    assert_eq!(check_before_open("/c/res.sqlite", true, Ok(5), Ok(7)), Ok((5, 7)));
    assert_eq!(
        stale_cache_error("/c/res.sqlite"),
        "/c/res.sqlite is stale (run `casc_refresh` to rebuild it)"
    );
}

#[test]
fn lazy_setup_is_tried_once_and_failure_is_kept() {
    let mut state: LazyInit<u32> = LazyInit::Uninitialized;
    assert!(matches!(state.check(), InitCheck::Attempt));
    state.record(Err("no install".to_string()));
    match state.check() {
        InitCheck::Failed(e) => assert_eq!(e, "no install"),
        _ => panic!("a failed set-up must be reported again"),
    }
    let mut ready: LazyInit<u32> = LazyInit::Uninitialized;
    ready.record(Ok(9));
    assert!(matches!(ready.check(), InitCheck::Ready));
    assert!(matches!(ready, LazyInit::Initialized(9)));
}

#[test]
fn open_and_lookup() {
    let cache_path = "/tmp/casc/resolution.sqlite";
    let content_key = [1u8; 16];
    let encoding_key = [2u8; 16];
    let (root_mtime, enc_mtime) = check_before_open(cache_path, true, Ok(1_700_000_000), Ok(1_700_000_001))
        .expect("failed to open cache");
    let (r, e, v) = resolution_metadata(root_mtime, enc_mtime);
    assert_eq!(cache_is_fresh(cache_path, MetadataProbe::Queried(Ok((r, e, v))), root_mtime, enc_mtime), Ok(true));
    let rows = resolution_rows(
        &vec![RootRecord { file_data_id: 120191, content_key: u128::from_be_bytes(content_key) }],
        &vec![EncodingEntry {
            content_key: u128::from_be_bytes(content_key),
            encoding_keys: vec![u128::from_be_bytes(encoding_key)],
        }],
    );
    assert_eq!(rows.len(), 1);
    assert_eq!(rows[0].fdid, 120191);
    let result = keys_from_row(
        &rows[0].content_key.to_be_bytes().to_vec(),
        &rows[0].encoding_key.to_be_bytes().to_vec(),
    );
    assert!(result.is_some(), "expected fdid 120191 to resolve");
    let (ck, ek) = result.unwrap();
    assert_eq!(ck, content_key);
    assert_eq!(ek, encoding_key);
}

#[test]
fn resolution_cache_is_fresh_errors_when_cache_cannot_be_opened() {
    let cache_path = "/tmp/casc/resolution.sqlite";
    assert_eq!(freshness_check(true, false, false, Some(1), Some(2)), FreshnessCheck::CompareMetadata(1, 2));
    let result = cache_is_fresh(cache_path, MetadataProbe::OpenFailed("unable to open database file".to_string()), 1, 2);
    assert!(result.is_err(), "expected open failure, got {result:?}");
    assert_eq!(result, Err("open /tmp/casc/resolution.sqlite: unable to open database file".to_string()));
}

#[test]
fn resolution_cache_is_fresh_returns_false_without_metadata_table() {
    let no_table = sqlite_error(SqliteCode::Other, Some("no such table: metadata"));
    let result = cache_is_fresh("/tmp/casc/resolution.sqlite", MetadataProbe::PrepareFailed(no_table), 1, 2);
    assert_eq!(result, Ok(false));
}

#[test]
fn resolution_cache_is_fresh_returns_false_without_metadata_row() {
    let no_rows = DbError { kind: DbErrorKind::NoRows, message: None, text: "Query returned no rows".to_string() };
    let result = cache_is_fresh("/tmp/casc/resolution.sqlite", MetadataProbe::Queried(Err(no_rows)), 1, 2);
    assert_eq!(result, Ok(false));
}

#[test]
fn cached_files_are_served_extracted_or_given_up() {
    assert_eq!(cached_file_action(true, true), CachedFileAction::UseCached);
    assert_eq!(cached_file_action(true, false), CachedFileAction::UseCached);
    assert_eq!(cached_file_action(false, true), CachedFileAction::KnownMissing);
    assert_eq!(cached_file_action(false, false), CachedFileAction::Extract);
}

#[test]
fn casc_directories_need_an_install() {
    assert_eq!(local_archive_dir(Some("/games/wow")), Ok("/games/wow/Data/data".to_string()));
    assert_eq!(
        local_archive_dir(None),
        Err("WoW install not found for local archive access".to_string())
    );
    assert_eq!(casc_data_root(Some("/games/wow")), Ok("/games/wow/Data".to_string()));
    assert_eq!(
        casc_data_root(None),
        Err("WoW install not found (set WOW_INSTALL_PATH or WOW_DATA_PATH, or place install at one of the default locations)".to_string())
    );
}

#[test]
fn extraction_outcome_serves_or_writes_the_marker() {
    match after_extraction("/shared/a/b.blp", Ok("/shared/a/b.blp".to_string())) {
        ExtractionFollowUp::Serve(p) => assert_eq!(p, "/shared/a/b.blp"),
        ExtractionFollowUp::WriteMarker(_) => panic!("a successful extraction is served"),
    }
    match after_extraction("/shared/a/b.blp", Err("missing resolution entry".to_string())) {
        ExtractionFollowUp::WriteMarker(m) => assert_eq!(m, "/shared/a/b.blp.missing"),
        ExtractionFollowUp::Serve(_) => panic!("a failed extraction is not served"),
    }
    assert_eq!(cached_file_action(false, true), CachedFileAction::KnownMissing);
}

#[test]
fn local_access_loads_once_and_a_missing_install_records_nothing() {
    let mut state: LazyInit<u32> = LazyInit::Uninitialized;
    match plan_local_access(&state, None) {
        AccessPlan::GiveError(e) => assert_eq!(e, "WoW install not found for local archive access"),
        _ => panic!("no install gives its error"),
    }
    assert!(matches!(state, LazyInit::Uninitialized));
    match plan_local_access(&state, Some("/games/wow")) {
        AccessPlan::Load(d) => assert_eq!(d, "/games/wow/Data/data"),
        _ => panic!("an unset state with an install loads"),
    }
    state.record(Err("load CASC indices: bad".to_string()));
    match plan_local_access(&state, Some("/games/wow")) {
        AccessPlan::GiveError(e) => assert_eq!(e, "load CASC indices: bad"),
        _ => panic!("a failed load is not retried"),
    }
    let mut ready: LazyInit<u32> = LazyInit::Uninitialized;
    ready.record(Ok(1));
    assert!(matches!(plan_local_access(&ready, None), AccessPlan::UseReady));
}
