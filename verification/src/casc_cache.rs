//! The CASC resolution cache: how the FileDataID to content key to encoding
//! key tables are built from the root and encoding files, which rows the
//! cache holds, and when a cache on disk is fresh.

use vstd::prelude::*;
use vstd::hash_map::HashMapWithView;
use vstd::hash_set::HashSetWithView;

use crate::text::{append_str, join_path, joined, owned};

verus! {

broadcast use vstd::std_specs::hash::group_hash_axioms;

/// The version of the cache's table layout; a cache written with another
/// version is stale.
pub const SCHEMA_VERSION: i64 = 1;

/// One record of the root file: a FileDataID and its content key.
#[derive(Clone, Copy, Debug, PartialEq, Eq)]
pub struct RootRecord {
    pub file_data_id: u32,
    pub content_key: u128,
}

/// One content entry of the encoding file: a content key and the encoding
/// keys stored for it, in file order.
#[derive(Clone, Debug)]
pub struct EncodingEntry {
    pub content_key: u128,
    pub encoding_keys: Vec<u128>,
}

/// One row of the resolution table.
#[derive(Clone, Copy, Debug, PartialEq, Eq)]
pub struct ResolutionRow {
    pub fdid: u32,
    pub content_key: u128,
    pub encoding_key: u128,
}

/// The content key of each FileDataID: records are taken in order and a
/// later record for the same FileDataID replaces an earlier one.
pub open spec fn fdid_content_keys(records: Seq<RootRecord>) -> Map<u32, u128>
    decreases records.len(),
{
    if records.len() == 0 {
        Map::empty()
    } else {
        fdid_content_keys(records.drop_last()).insert(
            records.last().file_data_id,
            records.last().content_key,
        )
    }
}

/// The encoding key of each content key: the first encoding key of its
/// entry; entries without encoding keys are passed over, and a later entry
/// for the same content key replaces an earlier one.
pub open spec fn content_encoding_keys(entries: Seq<EncodingEntry>) -> Map<u128, u128>
    decreases entries.len(),
{
    if entries.len() == 0 {
        Map::empty()
    } else {
        let rest = content_encoding_keys(entries.drop_last());
        let e = entries.last();
        if e.encoding_keys@.len() > 0 {
            rest.insert(e.content_key, e.encoding_keys@[0])
        } else {
            rest
        }
    }
}

/// Whether some record of `records` names `fdid`.
pub open spec fn names_fdid(records: Seq<RootRecord>, fdid: u32) -> bool {
    exists|j: int| 0 <= j < records.len() && (#[trigger] records[j]).file_data_id == fdid
}

/// Law: a FileDataID has a content key exactly when some record names it,
/// and its key is that of the last such record.
pub proof fn lemma_last_record_wins(records: Seq<RootRecord>, fdid: u32)
    ensures
        fdid_content_keys(records).contains_key(fdid) <==> names_fdid(records, fdid),
        names_fdid(records, fdid) ==> exists|j: int| {
            &&& 0 <= j < records.len()
            &&& (#[trigger] records[j]).file_data_id == fdid
            &&& fdid_content_keys(records)[fdid] == records[j].content_key
            &&& forall|k: int| j < k < records.len() ==> (#[trigger] records[k]).file_data_id != fdid
        },
    decreases records.len(),
{
    if records.len() > 0 {
        let rest = records.drop_last();
        lemma_last_record_wins(rest, fdid);
        if records.last().file_data_id == fdid {
            let j = records.len() - 1;
            assert(records[j].file_data_id == fdid);
        } else {
            if names_fdid(records, fdid) {
                let j = choose|j: int| 0 <= j < records.len() && (#[trigger] records[j]).file_data_id == fdid;
                assert(rest[j] == records[j]);
                assert(names_fdid(rest, fdid));
                let i = choose|i: int| {
                    &&& 0 <= i < rest.len()
                    &&& (#[trigger] rest[i]).file_data_id == fdid
                    &&& fdid_content_keys(rest)[fdid] == rest[i].content_key
                    &&& forall|k: int| i < k < rest.len() ==> (#[trigger] rest[k]).file_data_id != fdid
                };
                assert(records[i] == rest[i]);
                assert forall|k: int| i < k < records.len() implies (#[trigger] records[k]).file_data_id != fdid by {
                    if k < rest.len() {
                        assert(records[k] == rest[k]);
                    }
                }
            }
            if names_fdid(rest, fdid) {
                let j = choose|j: int| 0 <= j < rest.len() && (#[trigger] rest[j]).file_data_id == fdid;
                assert(records[j] == rest[j]);
            }
        }
    }
}

/// Whether entry `e` gives content key `ck` an encoding key.
pub open spec fn keys_content(e: EncodingEntry, ck: u128) -> bool {
    e.content_key == ck && e.encoding_keys@.len() > 0
}

/// Law: a content key has an encoding key exactly when some entry for it
/// lists encoding keys, and its encoding key is the first one listed by the
/// last such entry.
pub proof fn lemma_last_entry_with_keys_wins(entries: Seq<EncodingEntry>, ck: u128)
    ensures
        content_encoding_keys(entries).contains_key(ck) <==> exists|j: int| 0 <= j < entries.len() && keys_content(#[trigger] entries[j], ck),
        content_encoding_keys(entries).contains_key(ck) ==> exists|j: int| {
            &&& 0 <= j < entries.len()
            &&& keys_content(#[trigger] entries[j], ck)
            &&& content_encoding_keys(entries)[ck] == entries[j].encoding_keys@[0]
            &&& forall|k: int| j < k < entries.len() ==> !keys_content(#[trigger] entries[k], ck)
        },
    decreases entries.len(),
{
    if entries.len() > 0 {
        let rest = entries.drop_last();
        lemma_last_entry_with_keys_wins(rest, ck);
        assert forall|j: int| 0 <= j < rest.len() implies rest[j] == entries[j] by {}
        if keys_content(entries.last(), ck) {
            let j = entries.len() - 1;
            assert(keys_content(entries[j], ck));
        } else {
            if exists|j: int| 0 <= j < entries.len() && keys_content(#[trigger] entries[j], ck) {
                let j = choose|j: int| 0 <= j < entries.len() && keys_content(#[trigger] entries[j], ck);
                assert(j < entries.len() - 1);
                assert(keys_content(rest[j], ck));
            }
            if content_encoding_keys(rest).contains_key(ck) {
                let i = choose|i: int| {
                    &&& 0 <= i < rest.len()
                    &&& keys_content(#[trigger] rest[i], ck)
                    &&& content_encoding_keys(rest)[ck] == rest[i].encoding_keys@[0]
                    &&& forall|k: int| i < k < rest.len() ==> !keys_content(#[trigger] rest[k], ck)
                };
                assert(keys_content(entries[i], ck));
                assert forall|k: int| i < k < entries.len() implies !keys_content(#[trigger] entries[k], ck) by {
                    if k < rest.len() {
                        assert(entries[k] == rest[k]);
                    }
                }
            }
            if exists|j: int| 0 <= j < rest.len() && keys_content(#[trigger] rest[j], ck) {
                let j = choose|j: int| 0 <= j < rest.len() && keys_content(#[trigger] rest[j], ck);
                assert(keys_content(entries[j], ck));
            }
        }
    }
}

/// Maps each FileDataID to its content key, the last record winning.
pub fn collect_fdid_to_content_keys(records: &Vec<RootRecord>) -> (res: HashMapWithView<u32, u128>)
    ensures
        res@ == fdid_content_keys(records@),
{
    let mut map: HashMapWithView<u32, u128> = HashMapWithView::new();
    let mut i: usize = 0;
    while i < records.len()
        invariant
            i <= records.len(),
            map@ == fdid_content_keys(records@.subrange(0, i as int)),
        decreases records.len() - i,
    {
        let r = records[i];
        map.insert(r.file_data_id, r.content_key);
        assert(records@.subrange(0, i + 1).drop_last() =~= records@.subrange(0, i as int));
        i = i + 1;
    }
    assert(records@.subrange(0, i as int) =~= records@);
    map
}

/// Maps each content key to the first encoding key of its entry, the last
/// entry with encoding keys winning.
pub fn collect_content_to_encoding_keys(entries: &Vec<EncodingEntry>) -> (res: HashMapWithView<u128, u128>)
    ensures
        res@ == content_encoding_keys(entries@),
{
    let mut map: HashMapWithView<u128, u128> = HashMapWithView::new();
    let mut i: usize = 0;
    while i < entries.len()
        invariant
            i <= entries.len(),
            map@ == content_encoding_keys(entries@.subrange(0, i as int)),
        decreases entries.len() - i,
    {
        let e = &entries[i];
        assert(entries@.subrange(0, i + 1).drop_last() =~= entries@.subrange(0, i as int));
        assert(entries@.subrange(0, i + 1).last() == *e);
        if e.encoding_keys.len() > 0 {
            map.insert(e.content_key, e.encoding_keys[0]);
        }
        i = i + 1;
    }
    assert(entries@.subrange(0, i as int) =~= entries@);
    map
}

/// The resolution table: each FileDataID whose content key has an encoding
/// key, with both keys.
pub open spec fn resolution_table(fdid_keys: Map<u32, u128>, encoding_keys: Map<u128, u128>) -> Map<u32, (u128, u128)> {
    Map::new(
        |fdid: u32| fdid_keys.contains_key(fdid) && encoding_keys.contains_key(fdid_keys[fdid]),
        |fdid: u32| (fdid_keys[fdid], encoding_keys[fdid_keys[fdid]]),
    )
}

/// The table that a list of rows holds, each row keyed by its FileDataID.
pub open spec fn rows_table(rows: Seq<ResolutionRow>) -> Map<u32, (u128, u128)>
    decreases rows.len(),
{
    if rows.len() == 0 {
        Map::empty()
    } else {
        rows_table(rows.drop_last()).insert(
            rows.last().fdid,
            (rows.last().content_key, rows.last().encoding_key),
        )
    }
}

/// Law: the resolution table holds a FileDataID exactly when it has a
/// content key that has an encoding key, and then holds both keys.
pub proof fn lemma_resolution_table_is_join(fdid_keys: Map<u32, u128>, encoding_keys: Map<u128, u128>, fdid: u32)
    ensures
        resolution_table(fdid_keys, encoding_keys).contains_key(fdid) <==> (fdid_keys.contains_key(fdid)
            && encoding_keys.contains_key(fdid_keys[fdid])),
        resolution_table(fdid_keys, encoding_keys).contains_key(fdid) ==> resolution_table(fdid_keys, encoding_keys)[fdid]
            == (fdid_keys[fdid], encoding_keys[fdid_keys[fdid]]),
{
}

/// Whether no two rows share a FileDataID.
pub open spec fn distinct_fdids(rows: Seq<ResolutionRow>) -> bool {
    forall|a: int, b: int| 0 <= a < b < rows.len() ==> (#[trigger] rows[a]).fdid != (#[trigger] rows[b]).fdid
}

/// Law: the table that rows hold has an entry for a FileDataID exactly when
/// some row names it.
pub proof fn lemma_rows_table_dom(rows: Seq<ResolutionRow>, fdid: u32)
    ensures
        rows_table(rows).contains_key(fdid) <==> exists|j: int| 0 <= j < rows.len() && (#[trigger] rows[j]).fdid == fdid,
    decreases rows.len(),
{
    if rows.len() > 0 {
        lemma_rows_table_dom(rows.drop_last(), fdid);
        if exists|j: int| 0 <= j < rows.len() && (#[trigger] rows[j]).fdid == fdid {
            let j = choose|j: int| 0 <= j < rows.len() && (#[trigger] rows[j]).fdid == fdid;
            if j < rows.len() - 1 {
                assert(rows.drop_last()[j] == rows[j]);
            }
        }
        if exists|j: int| 0 <= j < rows.drop_last().len() && (#[trigger] rows.drop_last()[j]).fdid == fdid {
            let j = choose|j: int| 0 <= j < rows.drop_last().len() && (#[trigger] rows.drop_last()[j]).fdid == fdid;
            assert(rows[j] == rows.drop_last()[j]);
        }
    }
}

proof fn lemma_distinct_rows_count(rows: Seq<ResolutionRow>)
    requires
        distinct_fdids(rows),
    ensures
        rows_table(rows).dom().finite(),
        rows_table(rows).dom().len() == rows.len(),
    decreases rows.len(),
{
    if rows.len() > 0 {
        let rest = rows.drop_last();
        assert forall|a: int, b: int| 0 <= a < b < rest.len() implies (#[trigger] rest[a]).fdid != (#[trigger] rest[b]).fdid by {
            assert(rest[a] == rows[a] && rest[b] == rows[b]);
        }
        lemma_distinct_rows_count(rest);
        lemma_rows_table_dom(rest, rows.last().fdid);
        if rows_table(rest).contains_key(rows.last().fdid) {
            let j = choose|j: int| 0 <= j < rest.len() && (#[trigger] rest[j]).fdid == rows.last().fdid;
            assert(rows[j] == rest[j]);
            assert(rows[j].fdid != rows[rows.len() - 1].fdid);
        }
    }
}

/// The rows to write to the resolution table: one per FileDataID whose
/// content key has an encoding key, holding both keys.
pub fn resolution_rows(records: &Vec<RootRecord>, entries: &Vec<EncodingEntry>) -> (rows: Vec<ResolutionRow>)
    ensures
        rows_table(rows@) == resolution_table(fdid_content_keys(records@), content_encoding_keys(entries@)),
        distinct_fdids(rows@),
        rows@.len() == resolution_table(fdid_content_keys(records@), content_encoding_keys(entries@)).dom().len(),
{
    let fdid_to_ck = collect_fdid_to_content_keys(records);
    let ck_to_ek = collect_content_to_encoding_keys(entries);
    let ghost fk = fdid_content_keys(records@);
    let ghost table = resolution_table(fk, content_encoding_keys(entries@));
    let mut seen: HashSetWithView<u32> = HashSetWithView::new();
    let mut rows: Vec<ResolutionRow> = Vec::new();
    let mut i: usize = 0;
    while i < records.len()
        invariant
            i <= records.len(),
            fdid_to_ck@ == fk,
            fk == fdid_content_keys(records@),
            ck_to_ek@ == content_encoding_keys(entries@),
            table == resolution_table(fk, ck_to_ek@),
            forall|k: u32| #[trigger] seen@.contains(k) <==> names_fdid(records@.subrange(0, i as int), k),
            forall|j: int| 0 <= j < rows@.len() ==> seen@.contains((#[trigger] rows@[j]).fdid),
            distinct_fdids(rows@),
            rows_table(rows@) == table.restrict(seen@),
        decreases records.len() - i,
    {
        let ghost prev = records@.subrange(0, i as int);
        let ghost next = records@.subrange(0, i + 1);
        let fdid = records[i].file_data_id;
        assert(next[i as int] == records@[i as int]);
        assert forall|k: u32| names_fdid(next, k) <==> names_fdid(prev, k) || k == fdid by {
            if names_fdid(next, k) {
                let j = choose|j: int| 0 <= j < next.len() && (#[trigger] next[j]).file_data_id == k;
                if j < i {
                    assert(prev[j] == next[j]);
                }
            }
            if names_fdid(prev, k) {
                let j = choose|j: int| 0 <= j < prev.len() && (#[trigger] prev[j]).file_data_id == k;
                assert(next[j] == prev[j]);
            }
        }
        if !seen.contains(&fdid) {
            proof {
                lemma_last_record_wins(records@, fdid);
                assert(records@[i as int].file_data_id == fdid);
                assert(names_fdid(records@, fdid));
            }
            seen.insert(fdid);
            let ck = *fdid_to_ck.get(&fdid).unwrap();
            match ck_to_ek.get(&ck) {
                Some(ek) => {
                    let row = ResolutionRow { fdid, content_key: ck, encoding_key: *ek };
                    let ghost old_rows = rows@;
                    rows.push(row);
                    proof {
                        assert(rows@.drop_last() == old_rows);
                        assert forall|a: int, b: int| 0 <= a < b < rows@.len() implies (#[trigger] rows@[a]).fdid != (#[trigger] rows@[b]).fdid by {
                            if b == rows@.len() - 1 {
                                assert(seen@.contains(old_rows[a].fdid) || old_rows[a].fdid != fdid);
                            }
                        }
                    }
                },
                None => {},
            }
            assert(rows_table(rows@) =~= table.restrict(seen@));
        }
        i = i + 1;
    }
    assert(records@.subrange(0, i as int) =~= records@);
    proof {
        assert forall|k: u32| table.contains_key(k) implies seen@.contains(k) by {
            lemma_last_record_wins(records@, k);
        }
    }
    assert(table.restrict(seen@) =~= table);
    proof {
        lemma_distinct_rows_count(rows@);
    }
    rows
}


/// The three files of a CASC cache directory: the resolution cache, the root
/// file and the encoding file.
pub fn resolution_paths(casc_dir: &str) -> (res: (String, String, String))
    ensures
        res.0@ == joined(casc_dir@, "resolution.sqlite"@),
        res.1@ == joined(casc_dir@, "root.bin"@),
        res.2@ == joined(casc_dir@, "encoding.bin"@),
{
    (
        join_path(casc_dir, "resolution.sqlite"),
        join_path(casc_dir, "root.bin"),
        join_path(casc_dir, "encoding.bin"),
    )
}

/// The metadata row a cache is written with: the modification times of the
/// root and encoding files it was built from, and the layout version.
pub open spec fn metadata_row(root_mtime: i64, enc_mtime: i64) -> (i64, i64, i64) {
    (root_mtime, enc_mtime, SCHEMA_VERSION)
}

/// Gives the metadata row to write for a cache built from files with these
/// modification times.
pub fn resolution_metadata(root_mtime: i64, enc_mtime: i64) -> (res: (i64, i64, i64))
    ensures
        res == metadata_row(root_mtime, enc_mtime),
{
    (root_mtime, enc_mtime, SCHEMA_VERSION)
}

/// The SQLite result codes that matter to the cache: those of a damaged
/// database, and all others.
#[derive(Clone, Copy, Debug, PartialEq, Eq)]
pub enum SqliteCode {
    DatabaseCorrupt,
    NotADatabase,
    Other,
}

/// The kinds of database error the cache tells apart.
#[derive(Clone, Copy, Debug, PartialEq, Eq)]
pub enum DbErrorKind {
    /// SQLite itself failed with this code.
    SqliteFailure(SqliteCode),
    /// A query for one row found none.
    NoRows,
    /// Any other error.
    Other,
}

/// A database error: its kind, SQLite's own message if it gave one, and the
/// error's text.
#[derive(Clone, Debug)]
pub struct DbError {
    pub kind: DbErrorKind,
    pub message: Option<String>,
    pub text: String,
}

/// What reading the metadata row gave.
pub enum MetadataProbe {
    /// The cache file could not be opened; the error's text.
    OpenFailed(String),
    /// Preparing the metadata query failed.
    PrepareFailed(DbError),
    /// The query ran: the row, or the error it ended with.
    Queried(Result<(i64, i64, i64), DbError>),
}

/// Whether a code says that the cache file is damaged or not a database.
pub open spec fn is_corrupt(code: SqliteCode) -> bool {
    code is DatabaseCorrupt || code is NotADatabase
}

/// Whether a SQLite code says that the cache file is damaged or not a database.
pub fn is_corrupt_cache_error(code: SqliteCode) -> (res: bool)
    ensures
        res == is_corrupt(code),
{
    match code {
        SqliteCode::DatabaseCorrupt => true,
        SqliteCode::NotADatabase => true,
        SqliteCode::Other => false,
    }
}

/// Whether `needle` occurs in `hay`.
pub open spec fn contains_text(hay: Seq<char>, needle: Seq<char>) -> bool {
    exists|i: int| 0 <= i && i + needle.len() <= hay.len() && #[trigger] hay.subrange(i, i + needle.len()) == needle
}

fn matches_at(hay: &str, needle: &str, i: usize, hay_len: usize, needle_len: usize) -> (res: bool)
    requires
        hay_len == hay@.len(),
        needle_len == needle@.len(),
        i + needle_len <= hay_len,
    ensures
        res == (hay@.subrange(i as int, i + needle_len) == needle@),
{
    let mut j: usize = 0;
    while j < needle_len
        invariant
            hay_len == hay@.len(),
            needle_len == needle@.len(),
            i + needle_len <= hay_len,
            j <= needle_len,
            forall|k: int| 0 <= k < j ==> hay@[i + k] == needle@[k],
        decreases needle_len - j,
    {
        if hay.get_char(i + j) != needle.get_char(j) {
            assert(hay@.subrange(i as int, i + needle_len)[j as int] != needle@[j as int]);
            return false;
        }
        j = j + 1;
    }
    assert(hay@.subrange(i as int, i + needle_len) =~= needle@);
    true
}

/// Whether `needle` occurs in `hay`.
pub fn contains_str(hay: &str, needle: &str) -> (res: bool)
    ensures
        res == contains_text(hay@, needle@),
{
    let hay_len = hay.unicode_len();
    let needle_len = needle.unicode_len();
    if needle_len > hay_len {
        return false;
    }
    let mut i: usize = 0;
    let last = hay_len - needle_len;
    while i < last
        invariant
            hay_len == hay@.len(),
            needle_len == needle@.len(),
            last == hay_len - needle_len,
            i <= last,
            forall|k: int| 0 <= k < i ==> #[trigger] hay@.subrange(k, k + needle_len) != needle@,
        decreases last - i,
    {
        if matches_at(hay, needle, i, hay_len, needle_len) {
            return true;
        }
        i = i + 1;
    }
    matches_at(hay, needle, last, hay_len, needle_len)
}

/// Law: text occurs in any text built around it, and never in shorter text.
pub proof fn lemma_contains_text_shape(a: Seq<char>, needle: Seq<char>, b: Seq<char>, hay: Seq<char>)
    ensures
        contains_text(a + needle + b, needle),
        contains_text(hay, needle) ==> needle.len() <= hay.len(),
{
    assert((a + needle + b).subrange(a.len() as int, (a.len() + needle.len()) as int) =~= needle);
}

/// Whether a database error says that a table is missing: SQLite failed with
/// a message that holds `no such table`.
pub open spec fn is_missing_table(e: DbError) -> bool {
    e.kind is SqliteFailure && (e.message matches Some(m) && contains_text(m@, "no such table"@))
}

/// Tells whether a database error says that a table is missing.
pub fn missing_table(e: &DbError) -> (res: bool)
    ensures
        res == is_missing_table(*e),
{
    match (&e.kind, &e.message) {
        (DbErrorKind::SqliteFailure(_), Some(m)) => contains_str(m.as_str(), "no such table"),
        _ => false,
    }
}

/// Whether the metadata of the cache at `cache_path` matches the files it
/// must reflect, or the error that reading it gave. A cache that cannot be
/// opened is an error; a missing metadata table or row, or a damaged
/// database, means the cache is not fresh; a row is fresh when it holds the
/// given modification times and the current layout version.
pub open spec fn freshness(cache_path: Seq<char>, probe: MetadataProbe, root_mtime: i64, enc_mtime: i64) -> Result<bool, Seq<char>> {
    match probe {
        MetadataProbe::OpenFailed(e) => Err("open "@ + cache_path + ": "@ + e@),
        MetadataProbe::PrepareFailed(e) => {
            if is_missing_table(e) {
                Ok(false)
            } else if e.kind matches DbErrorKind::SqliteFailure(code) && is_corrupt(code) {
                Ok(false)
            } else {
                Err("prepare metadata query: "@ + e.text@)
            }
        },
        MetadataProbe::Queried(Ok(row)) => Ok(
            row.0 == root_mtime && row.1 == enc_mtime && row.2 == SCHEMA_VERSION,
        ),
        MetadataProbe::Queried(Err(e)) => {
            if e.kind is NoRows {
                Ok(false)
            } else if e.kind matches DbErrorKind::SqliteFailure(code) && is_corrupt(code) {
                Ok(false)
            } else {
                Err("query metadata: "@ + e.text@)
            }
        },
    }
}

/// A result with its error by its characters.
pub open spec fn result_chars(r: Result<bool, String>) -> Result<bool, Seq<char>> {
    match r {
        Ok(b) => Ok(b),
        Err(e) => Err(e@),
    }
}

/// Decides from the metadata row, or the error reading it gave, whether the
/// cache is fresh for root and encoding files with these modification times.
pub fn cache_is_fresh(cache_path: &str, probe: MetadataProbe, root_mtime: i64, enc_mtime: i64) -> (res: Result<bool, String>)
    ensures
        result_chars(res) == freshness(cache_path@, probe, root_mtime, enc_mtime),
{
    match probe {
        MetadataProbe::OpenFailed(e) => {
            let mut msg = owned("open ");
            append_str(&mut msg, cache_path);
            append_str(&mut msg, ": ");
            append_str(&mut msg, e.as_str());
            Err(msg)
        },
        MetadataProbe::PrepareFailed(e) => {
            if missing_table(&e) {
                return Ok(false);
            }
            let corrupt = match e.kind {
                DbErrorKind::SqliteFailure(code) => is_corrupt_cache_error(code),
                _ => false,
            };
            if corrupt {
                return Ok(false);
            }
            let mut msg = owned("prepare metadata query: ");
            append_str(&mut msg, e.text.as_str());
            Err(msg)
        },
        MetadataProbe::Queried(Ok(row)) => Ok(
            row.0 == root_mtime && row.1 == enc_mtime && row.2 == SCHEMA_VERSION,
        ),
        MetadataProbe::Queried(Err(e)) => {
            let quiet = match e.kind {
                DbErrorKind::NoRows => true,
                DbErrorKind::SqliteFailure(code) => is_corrupt_cache_error(code),
                DbErrorKind::Other => false,
            };
            if quiet {
                return Ok(false);
            }
            let mut msg = owned("query metadata: ");
            append_str(&mut msg, e.text.as_str());
            Err(msg)
        },
    }
}

/// Law: a cache reads back as fresh exactly for the files it was written
/// from. The metadata row written for modification times `(root, enc)` is
/// judged fresh for `(root2, enc2)` exactly when they are the same times.
pub proof fn lemma_written_metadata_is_fresh(cache_path: Seq<char>, root: i64, enc: i64, root2: i64, enc2: i64)
    ensures
        freshness(cache_path, MetadataProbe::Queried(Ok(metadata_row(root, enc))), root2, enc2) == Ok::<bool, Seq<char>>(
            root == root2 && enc == enc2,
        ),
{
}

/// Law: a cache is judged fresh only when its metadata row holds exactly the
/// given modification times and layout version 1, and always then. A cache
/// that cannot be opened, and any error other than a missing table, a missing
/// row or a damaged database, is an error, never a verdict.
pub proof fn lemma_fresh_only_for_matching_row(
    cache_path: Seq<char>,
    probe: MetadataProbe,
    root_mtime: i64,
    enc_mtime: i64,
)
    ensures
        freshness(cache_path, probe, root_mtime, enc_mtime) == Ok::<bool, Seq<char>>(true) ==> probe
            == MetadataProbe::Queried(Ok((root_mtime, enc_mtime, 1i64))),
        probe == MetadataProbe::Queried(Ok((root_mtime, enc_mtime, 1i64))) ==> freshness(
            cache_path,
            probe,
            root_mtime,
            enc_mtime,
        ) == Ok::<bool, Seq<char>>(true),
        probe is OpenFailed ==> freshness(cache_path, probe, root_mtime, enc_mtime) is Err,
        probe matches MetadataProbe::Queried(Err(e)) ==> (e.kind is Other ==> freshness(
            cache_path,
            probe,
            root_mtime,
            enc_mtime,
        ) is Err),
        probe matches MetadataProbe::Queried(Err(e)) ==> (e.kind is NoRows ==> freshness(
            cache_path,
            probe,
            root_mtime,
            enc_mtime,
        ) == Ok::<bool, Seq<char>>(false)),
{
}

/// What to do about a cache before reading its metadata.
#[derive(Clone, Copy, Debug, PartialEq, Eq)]
pub enum FreshnessCheck {
    /// The cache is not fresh.
    NotFresh,
    /// A write was interrupted: the cache and its journal files are to be
    /// removed, and the cache is not fresh.
    DiscardInterrupted,
    /// Read the metadata and compare it with these modification times.
    CompareMetadata(i64, i64),
}

/// What the state of the cache directory calls for: a missing cache is not
/// fresh; a rollback journal or write-ahead log beside it means an
/// interrupted write; a root or encoding file whose modification time
/// cannot be read makes the cache not fresh; otherwise the metadata decides.
pub open spec fn freshness_check_for(
    cache_exists: bool,
    journal_exists: bool,
    wal_exists: bool,
    root_mtime: Option<i64>,
    enc_mtime: Option<i64>,
) -> FreshnessCheck {
    if !cache_exists {
        FreshnessCheck::NotFresh
    } else if journal_exists || wal_exists {
        FreshnessCheck::DiscardInterrupted
    } else {
        match (root_mtime, enc_mtime) {
            (Some(r), Some(e)) => FreshnessCheck::CompareMetadata(r, e),
            _ => FreshnessCheck::NotFresh,
        }
    }
}

/// Law: a missing cache is never fresh; an interrupted write (a journal or
/// write-ahead log beside the cache) is discarded; the metadata is compared,
/// with both modification times, only when the cache exists, no write was
/// interrupted and both times were read.
pub proof fn lemma_freshness_check_order(
    cache_exists: bool,
    journal_exists: bool,
    wal_exists: bool,
    root_mtime: Option<i64>,
    enc_mtime: Option<i64>,
)
    ensures
        !cache_exists ==> freshness_check_for(cache_exists, journal_exists, wal_exists, root_mtime, enc_mtime)
            == FreshnessCheck::NotFresh,
        cache_exists && (journal_exists || wal_exists) ==> freshness_check_for(
            cache_exists,
            journal_exists,
            wal_exists,
            root_mtime,
            enc_mtime,
        ) == FreshnessCheck::DiscardInterrupted,
        match freshness_check_for(cache_exists, journal_exists, wal_exists, root_mtime, enc_mtime) {
            FreshnessCheck::CompareMetadata(r, e) => cache_exists && !journal_exists && !wal_exists && root_mtime == Some(r)
                && enc_mtime == Some(e),
            _ => true,
        },
        cache_exists && !journal_exists && !wal_exists && root_mtime is Some && enc_mtime is Some
            ==> freshness_check_for(cache_exists, journal_exists, wal_exists, root_mtime, enc_mtime) is CompareMetadata,
{
}

/// Decides what the state of the cache directory calls for.
pub fn freshness_check(
    cache_exists: bool,
    journal_exists: bool,
    wal_exists: bool,
    root_mtime: Option<i64>,
    enc_mtime: Option<i64>,
) -> (res: FreshnessCheck)
    ensures
        res == freshness_check_for(cache_exists, journal_exists, wal_exists, root_mtime, enc_mtime),
{
    if !cache_exists {
        FreshnessCheck::NotFresh
    } else if journal_exists || wal_exists {
        FreshnessCheck::DiscardInterrupted
    } else {
        match (root_mtime, enc_mtime) {
            (Some(r), Some(e)) => FreshnessCheck::CompareMetadata(r, e),
            _ => FreshnessCheck::NotFresh,
        }
    }
}

fn key_from_bytes(bytes: &Vec<u8>) -> (res: [u8; 16])
    requires
        bytes.len() == 16,
    ensures
        res@ == bytes@,
{
    let mut key = [0u8; 16];
    let mut i: usize = 0;
    while i < 16
        invariant
            bytes.len() == 16,
            i <= 16,
            forall|k: int| 0 <= k < i ==> key@[k] == bytes@[k],
        decreases 16 - i,
    {
        key[i] = bytes[i];
        i = i + 1;
    }
    assert(key@ =~= bytes@);
    key
}

/// The content and encoding keys of a resolution row, when both are exactly
/// sixteen bytes long.
pub fn keys_from_row(content_key: &Vec<u8>, encoding_key: &Vec<u8>) -> (res: Option<([u8; 16], [u8; 16])>)
    ensures
        res is Some <==> content_key.len() == 16 && encoding_key.len() == 16,
        res matches Some((ck, ek)) ==> ck@ == content_key@ && ek@ == encoding_key@,
{
    if content_key.len() == 16 && encoding_key.len() == 16 {
        Some((key_from_bytes(content_key), key_from_bytes(encoding_key)))
    } else {
        None
    }
}


/// The checks made before a resolution cache is opened for reading: the cache
/// file must exist, and the modification times of the root and encoding files
/// must be readable (their errors are passed on as they are).
pub open spec fn open_checks(
    cache_path: Seq<char>,
    cache_exists: bool,
    root_mtime: Result<i64, String>,
    enc_mtime: Result<i64, String>,
) -> Result<(i64, i64), Seq<char>> {
    if !cache_exists {
        Err(cache_path + " not found (run `casc_refresh` to build it)"@)
    } else {
        match (root_mtime, enc_mtime) {
            (Err(e), _) => Err(e@),
            (Ok(_), Err(e)) => Err(e@),
            (Ok(r), Ok(e)) => Ok((r, e)),
        }
    }
}

/// Law: opening needs the cache file, then the root file's time, then the
/// encoding file's time; the first of these missing gives the error, and
/// with all three the times are passed on unchanged.
pub proof fn lemma_open_checks_order(
    cache_path: Seq<char>,
    cache_exists: bool,
    root_mtime: Result<i64, String>,
    enc_mtime: Result<i64, String>,
)
    ensures
        !cache_exists ==> open_checks(cache_path, cache_exists, root_mtime, enc_mtime)
            == Err::<(i64, i64), Seq<char>>(cache_path + " not found (run `casc_refresh` to build it)"@),
        cache_exists ==> (root_mtime matches Err(e) ==> open_checks(cache_path, cache_exists, root_mtime, enc_mtime)
            == Err::<(i64, i64), Seq<char>>(e@)),
        cache_exists && root_mtime is Ok ==> (enc_mtime matches Err(e) ==> open_checks(cache_path, cache_exists, root_mtime, enc_mtime)
            == Err::<(i64, i64), Seq<char>>(e@)),
        cache_exists ==> (root_mtime matches Ok(r) ==> (enc_mtime matches Ok(e) ==> open_checks(
            cache_path,
            cache_exists,
            root_mtime,
            enc_mtime,
        ) == Ok::<(i64, i64), Seq<char>>((r, e)))),
{
}

/// Makes the checks before a resolution cache is opened, giving the
/// modification times to compare its metadata with.
pub fn check_before_open(
    cache_path: &str,
    cache_exists: bool,
    root_mtime: Result<i64, String>,
    enc_mtime: Result<i64, String>,
) -> (res: Result<(i64, i64), String>)
    ensures
        match res {
            Ok(t) => open_checks(cache_path@, cache_exists, root_mtime, enc_mtime) == Ok::<(i64, i64), Seq<char>>(t),
            Err(e) => open_checks(cache_path@, cache_exists, root_mtime, enc_mtime) == Err::<(i64, i64), Seq<char>>(e@),
        },
{
    if !cache_exists {
        let mut msg = owned(cache_path);
        append_str(&mut msg, " not found (run `casc_refresh` to build it)");
        return Err(msg);
    }
    let r = match root_mtime {
        Ok(r) => r,
        Err(e) => return Err(e),
    };
    let e = match enc_mtime {
        Ok(e) => e,
        Err(err) => return Err(err),
    };
    Ok((r, e))
}

/// The error for a cache whose metadata does not match its source files.
pub fn stale_cache_error(cache_path: &str) -> (res: String)
    ensures
        res@ == cache_path@ + " is stale (run `casc_refresh` to rebuild it)"@,
{
    let mut msg = owned(cache_path);
    append_str(&mut msg, " is stale (run `casc_refresh` to rebuild it)");
    msg
}

} // verus!
