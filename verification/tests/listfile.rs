use asset_resolver::casc_cache::{DbError, DbErrorKind, SqliteCode};
use asset_resolver::listfile::{
    community_listfile_path, parse_listfile_line, store_reply, StoreQuery, CachedListfile, FdidStage, Listfile, ListfileNotice, ListfileSources,
    LookupNext, PathStage,
};
use asset_resolver::paths::{AssetResolverConfig, ResolverEnvironment, ResolverPaths};

fn listfile() -> Listfile {
    Listfile::new(
        "/tmp/t/community.csv".to_string(),
        "/tmp/t/community.sqlite".to_string(),
        "/tmp/t/local.sqlite".to_string(),
    )
}

fn answer_path(next: &LookupNext<String>) -> Option<Option<String>> {
    match next {
        LookupNext::Answer(a) => Some(a.clone()),
        _ => None,
    }
}

#[test]
fn new_listfile_starts_with_empty_indexes() {
    let lf = listfile();
    assert!(lf.local().is_empty());
    assert_eq!(lf.community_path(), "/tmp/t/community.csv");
    assert_eq!(lf.community_cache_path(), "/tmp/t/community.sqlite");
    assert_eq!(lf.local_cache_path(), "/tmp/t/local.sqlite");
}

#[test]
fn new_leaves_local_maps_empty_then_lookup_fdid_loads_sqlite_row() {
    let mut lf = listfile();
    let fdid = 1_234_567;
    let local_path = "Interface/AddOns/Local.lua";
    assert!(lf.local().is_empty());

    let step = lf.lookup_fdid(fdid, FdidStage::Start);
    assert!(matches!(step.next, LookupNext::QueryLocal));
    let step = lf.lookup_fdid(fdid, FdidStage::LocalReply(Ok(Some(local_path.to_string()))));
    assert_eq!(answer_path(&step.next), Some(Some(local_path.to_string())));
    assert!(step.persist.is_none());
    assert!(step.notice.is_none());

    assert_eq!(lf.local().path_for_fdid(fdid), Some(local_path.to_string()));
    assert_eq!(lf.local().fdid_for_path(&local_path.to_ascii_lowercase()), Some(fdid));

    let step = lf.lookup_fdid(fdid, FdidStage::Start);
    assert_eq!(answer_path(&step.next), Some(Some(local_path.to_string())));
}

#[test]
fn new_leaves_local_maps_empty_then_case_insensitive_lookup_path_loads_sqlite_row() {
    let mut lf = listfile();
    let fdid = 2_345_678;
    let local_path = "Interface/AddOns/Local.lua";
    assert!(lf.local().is_empty());

    let step = lf.lookup_path("interface/addons/local.lua", PathStage::Start);
    assert!(matches!(step.next, LookupNext::QueryLocal));
    let step = lf.lookup_path(
        "interface/addons/local.lua",
        PathStage::LocalReply(Ok(Some((fdid, local_path.to_string())))),
    );
    assert!(matches!(step.next, LookupNext::Answer(Some(id)) if id == fdid));
    assert_eq!(lf.local().path_for_fdid(fdid), Some(local_path.to_string()));
    assert_eq!(lf.local().fdid_for_path("interface/addons/local.lua"), Some(fdid));
    let step = lf.lookup_path("INTERFACE/AddOns/LOCAL.lua", PathStage::Start);
    assert!(matches!(step.next, LookupNext::Answer(Some(id)) if id == fdid));
}

fn no_such_table() -> DbError {
    DbError {
        kind: DbErrorKind::SqliteFailure(SqliteCode::Other),
        message: Some("no such table: listfile".to_string()),
        text: "no such table: listfile".to_string(),
    }
}

#[test]
fn existing_sqlite_without_local_table_behaves_as_empty_cache() {
    let mut lf = listfile();
    assert!(lf.local().is_empty());
    let step = lf.lookup_fdid(3_456_789, FdidStage::Start);
    assert!(matches!(step.next, LookupNext::QueryLocal));
    let reply = store_reply::<String>("/tmp/t/local.sqlite", StoreQuery::Queried(Err(no_such_table())));
    assert_eq!(reply, Ok(None));
    let step = lf.lookup_fdid(3_456_789, FdidStage::LocalReply(reply));
    assert!(matches!(step.next, LookupNext::QueryCommunity));
    let step = lf.lookup_fdid(
        3_456_789,
        FdidStage::CommunityReply(Err("missing community listfile /tmp/t/community.csv".to_string())),
    );
    assert_eq!(answer_path(&step.next), Some(None));
    assert!(step.notice.is_none());
    let reply = store_reply::<(u32, String)>("/tmp/t/local.sqlite", StoreQuery::Queried(Err(no_such_table())));
    assert_eq!(reply, Ok(None));
    let step = lf.lookup_path("interface/addons/missing.lua", PathStage::LocalReply(reply));
    assert!(matches!(step.next, LookupNext::QueryCommunity));
    let step = lf.lookup_path("interface/addons/missing.lua", PathStage::CommunityReply(Ok(None)));
    assert!(matches!(step.next, LookupNext::Answer(None)));
    assert!(lf.local().is_empty());
}

#[test]
fn store_replies_treat_missing_file_and_table_as_empty() {
    let path = "/tmp/t/local.sqlite";
    assert_eq!(store_reply::<String>(path, StoreQuery::NoFile), Ok(None));
    assert_eq!(
        store_reply::<String>(path, StoreQuery::OpenFailed("unable to open database file".to_string())),
        Err("open /tmp/t/local.sqlite: unable to open database file".to_string())
    );
    assert_eq!(
        store_reply(path, StoreQuery::Queried(Ok(Some("A/B.lua".to_string())))),
        Ok(Some("A/B.lua".to_string()))
    );
    assert_eq!(store_reply::<String>(path, StoreQuery::Queried(Ok(None))), Ok(None));
    let other = DbError {
        kind: DbErrorKind::SqliteFailure(SqliteCode::Other),
        message: Some("disk I/O error".to_string()),
        text: "disk I/O error".to_string(),
    };
    assert_eq!(
        store_reply::<String>(path, StoreQuery::Queried(Err(other))),
        Err("query /tmp/t/local.sqlite: disk I/O error".to_string())
    );
    let not_sqlite = DbError { kind: DbErrorKind::Other, message: None, text: "no such table: x".to_string() };
    assert!(store_reply::<String>(path, StoreQuery::Queried(Err(not_sqlite))).is_err());
}

#[test]
fn answered_path_is_found_again_in_any_case() {
    let mut lf = listfile();
    let _ = lf.lookup_fdid(9, FdidStage::CommunityReply(Ok(Some("Interface/Icons/X.blp".to_string()))));
    let step = lf.lookup_fdid(9, FdidStage::Start);
    assert_eq!(answer_path(&step.next), Some(Some("Interface/Icons/X.blp".to_string())));
    for spelling in ["Interface/Icons/X.blp", "INTERFACE/ICONS/X.BLP", "interface/icons/x.blp"] {
        let step = lf.lookup_path(spelling, PathStage::Start);
        assert!(matches!(step.next, LookupNext::Answer(Some(9))), "spelling {spelling}");
        assert!(step.persist.is_none() && step.notice.is_none());
    }
}

#[test]
fn path_lookups_differing_in_case_answer_alike() {
    let replies = |stage: usize| -> PathStage {
        match stage {
            0 => PathStage::Start,
            1 => PathStage::LocalReply(Ok(None)),
            _ => PathStage::CommunityReply(Ok(Some((12, "World/A.m2".to_string())))),
        }
    };
    let mut a = listfile();
    let mut b = listfile();
    for i in 0..3 {
        let sa = a.lookup_path("World/A.M2", replies(i));
        let sb = b.lookup_path("world/a.m2", replies(i));
        assert_eq!(format!("{:?}", sa.persist), format!("{:?}", sb.persist));
        match (sa.next, sb.next) {
            (LookupNext::Answer(x), LookupNext::Answer(y)) => assert_eq!(x, y),
            (LookupNext::QueryLocal, LookupNext::QueryLocal) => {}
            (LookupNext::QueryCommunity, LookupNext::QueryCommunity) => {}
            _ => panic!("the two spellings took different steps"),
        }
    }
    assert_eq!(a.local().fdid_for_path("WORLD/a.M2"), Some(12));
    assert_eq!(b.local().fdid_for_path("WORLD/a.M2"), Some(12));
}

#[test]
fn local_sqlite_row_wins_over_conflicting_community_cache_row() {
    let mut lf = listfile();
    let fdid = 4_567_890;
    let step = lf.lookup_fdid(fdid, FdidStage::Start);
    assert!(matches!(step.next, LookupNext::QueryLocal));
    let step = lf.lookup_fdid(fdid, FdidStage::LocalReply(Ok(Some("Interface/AddOns/Local.lua".to_string()))));
    assert_eq!(answer_path(&step.next), Some(Some("Interface/AddOns/Local.lua".to_string())));
    let step = lf.lookup_fdid(fdid, FdidStage::Start);
    assert_eq!(answer_path(&step.next), Some(Some("Interface/AddOns/Local.lua".to_string())));
    // A community reply for the same id keeps the remembered local path.
    let _ = lf.lookup_fdid(fdid, FdidStage::CommunityReply(Ok(Some("Interface/AddOns/Community.lua".to_string()))));
    assert_eq!(lf.local().path_for_fdid(fdid), Some("Interface/AddOns/Local.lua".to_string()));
}

#[test]
fn community_row_is_persisted_unless_already_cached() {
    let mut lf = listfile();
    let step = lf.lookup_fdid(7, FdidStage::CommunityReply(Ok(Some("World/X.m2".to_string()))));
    assert_eq!(answer_path(&step.next), Some(Some("World/X.m2".to_string())));
    assert_eq!(step.persist, Some((7, "World/X.m2".to_string())));
    let step = lf.lookup_fdid(7, FdidStage::CommunityReply(Ok(Some("World/X.m2".to_string()))));
    assert!(step.persist.is_none());
    let step = lf.lookup_path("world/y.m2", PathStage::CommunityReply(Ok(Some((8, "World/Y.m2".to_string())))));
    assert!(matches!(step.next, LookupNext::Answer(Some(8))));
    assert_eq!(step.persist, Some((8, "World/Y.m2".to_string())));
}

#[test]
fn failures_are_reported_once_per_kind() {
    let mut lf = listfile();
    let step = lf.lookup_fdid(1, FdidStage::LocalReply(Err("disk I/O error".to_string())));
    assert!(matches!(step.next, LookupNext::QueryCommunity));
    assert!(matches!(step.notice, Some(ListfileNotice::LocalUnavailable(ref e)) if e == "disk I/O error"));
    let step = lf.lookup_fdid(1, FdidStage::LocalReply(Err("disk I/O error".to_string())));
    assert!(step.notice.is_none());
    let step = lf.lookup_path("a", PathStage::CommunityReply(Err("bad csv".to_string())));
    assert!(matches!(step.notice, Some(ListfileNotice::CommunityUnavailable(ref e)) if e == "bad csv"));
    let step = lf.lookup_path("a", PathStage::CommunityReply(Err("bad csv".to_string())));
    assert!(step.notice.is_none());
}

#[test]
fn cache_in_memory_keeps_first_entries() {
    let mut cache = CachedListfile::default();
    let (p, already) = cache.cache_in_memory(1, "A/B.lua".to_string());
    assert_eq!(p, "A/B.lua");
    assert!(!already);
    let (p, already) = cache.cache_in_memory(1, "C/D.lua".to_string());
    assert_eq!(p, "A/B.lua");
    assert!(!already);
    let (_, already) = cache.cache_in_memory(1, "a/b.LUA".to_string());
    assert!(already);
    assert_eq!(cache.fdid_for_path("c/d.lua"), Some(1));
}

#[test]
fn community_listfile_choice_prefers_full_listfile() {
    let env = ResolverEnvironment {
        data_dir: None,
        shared_data_dir: None,
        cache_dir: None,
        default_source_data_root: "data".to_string(),
        default_cache_root: "/tmp".to_string(),
    };
    let paths = ResolverPaths::from_config(
        AssetResolverConfig::new().with_data_root("/src").with_shared_data_root("/shared"),
        &env,
    );
    let s = |a, b, c, d| ListfileSources {
        community_in_source: a,
        community_in_shared: b,
        limited_in_source: c,
        limited_in_shared: d,
    };
    assert_eq!(community_listfile_path(&paths, &s(true, true, true, true)), "/src/community-listfile.csv");
    assert_eq!(community_listfile_path(&paths, &s(false, true, true, true)), "/shared/community-listfile.csv");
    assert_eq!(community_listfile_path(&paths, &s(false, false, false, true)), "/shared/wow-ui-sim-listfile.csv");
    assert_eq!(community_listfile_path(&paths, &s(false, false, false, false)), "/shared/community-listfile.csv");
}

#[test]
fn listfile_lines_split_at_the_first_separator() {
    assert_eq!(
        parse_listfile_line("123;World/Maps/a;b.blp"),
        Some((123, "World/Maps/a;b.blp".to_string()))
    );
    assert_eq!(parse_listfile_line("7;"), Some((7, String::new())));
    assert_eq!(parse_listfile_line("+8;x.m2"), Some((8, "x.m2".to_string())));
    assert_eq!(parse_listfile_line("no separator"), None);
    assert_eq!(parse_listfile_line("abc;x.m2"), None);
    assert_eq!(parse_listfile_line(";x.m2"), None);
    assert_eq!(parse_listfile_line("4294967296;x.m2"), None);
}

#[test]
fn successive_lookups_in_either_case_agree() {
    let mut lf = listfile();
    let local = Ok(Some((21u32, "World/B.m2".to_string())));
    let mut answers = Vec::new();
    for spelling in ["World/B.M2", "WORLD/b.m2"] {
        let mut stage = PathStage::Start;
        loop {
            let step = lf.lookup_path(spelling, stage);
            stage = match step.next {
                LookupNext::Answer(a) => {
                    answers.push(a);
                    break;
                }
                LookupNext::QueryLocal => PathStage::LocalReply(local.clone()),
                LookupNext::QueryCommunity => PathStage::CommunityReply(Ok(None)),
                LookupNext::LoadListfile => panic!("a listfile is open"),
            };
        }
    }
    assert_eq!(answers, vec![Some(21), Some(21)]);
}
