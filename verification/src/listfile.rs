//! The listfile: the in-memory indexes between FileDataIDs and asset paths,
//! and the order in which a lookup consults memory, the local SQLite cache
//! and the community listfile.
//!
//! A lookup is a sequence of steps. Each step takes what the storage layer
//! answered to the previous one and says what to do next: answer, query the
//! local cache, or query the community listfile. A step may also ask for a
//! notice to be printed or for an entry to be written to the local cache.

use vstd::prelude::*;
use vstd::hash_map::{HashMapWithView, StringHashMap};

use crate::casc_cache::{is_missing_table, missing_table, DbError};
use crate::paths::{ResolverPaths, PathsView};
use crate::text::{append_str, joined, lemma_lowercase_idempotent, lemma_same_lowercase_only_by_case, lowercase, same_ignoring_ascii_case, owned, parse_u32, parsed_u32, to_ascii_lowercase};

verus! {

broadcast use vstd::std_specs::hash::group_hash_axioms;

/// The in-memory indexes of a listfile, by their contents.
pub struct CachedListfileView {
    /// FileDataID to the path it was first remembered with.
    pub by_fdid: Map<u32, Seq<char>>,
    /// Lowercased path to the FileDataID it was first remembered with.
    pub by_path: Map<Seq<char>, u32>,
}

/// The key under which a path is indexed: its ASCII lowercase form.
pub open spec fn path_key(path: Seq<char>) -> Seq<char> {
    lowercase(path)
}

/// The indexes after remembering that `fdid` has `path`. Neither index
/// overwrites an entry it already holds.
pub open spec fn remember(v: CachedListfileView, fdid: u32, path: Seq<char>) -> CachedListfileView {
    CachedListfileView {
        by_fdid: if v.by_fdid.contains_key(fdid) {
            v.by_fdid
        } else {
            v.by_fdid.insert(fdid, path)
        },
        by_path: if v.by_path.contains_key(path_key(path)) {
            v.by_path
        } else {
            v.by_path.insert(path_key(path), fdid)
        },
    }
}

/// Whether both indexes already hold an entry for `fdid` and for `path`.
pub open spec fn already_cached(v: CachedListfileView, fdid: u32, path: Seq<char>) -> bool {
    v.by_fdid.contains_key(fdid) && v.by_path.contains_key(path_key(path))
}

/// Whether the two indexes agree: the path remembered for each FileDataID is
/// also in the path index, each path-index entry names a FileDataID that is
/// remembered, and every key of the path index is in lowercase.
pub open spec fn indexes_agree(v: CachedListfileView) -> bool {
    &&& forall|k: Seq<char>| #[trigger] v.by_path.contains_key(k) ==> path_key(k) == k
    &&& forall|f: u32| v.by_fdid.contains_key(f) ==> v.by_path.contains_key(path_key(#[trigger] v.by_fdid[f]))
    &&& forall|k: Seq<char>| v.by_path.contains_key(k) ==> v.by_fdid.contains_key(#[trigger] v.by_path[k])
}

/// Law: remembering an entry keeps the two indexes in agreement.
pub proof fn lemma_remember_keeps_agreement(v: CachedListfileView, fdid: u32, path: Seq<char>)
    requires
        indexes_agree(v),
    ensures
        indexes_agree(remember(v, fdid, path)),
{
    let r = remember(v, fdid, path);
    lemma_lowercase_idempotent(path);
    assert forall|f: u32| r.by_fdid.contains_key(f) implies r.by_path.contains_key(path_key(#[trigger] r.by_fdid[f])) by {
        if f != fdid || v.by_fdid.contains_key(fdid) {
            assert(v.by_fdid.contains_key(f));
            assert(v.by_path.contains_key(path_key(v.by_fdid[f])));
        }
    }
    assert forall|k: Seq<char>| r.by_path.contains_key(k) implies r.by_fdid.contains_key(#[trigger] r.by_path[k]) by {
        if k != path_key(path) || v.by_path.contains_key(path_key(path)) {
            assert(v.by_path.contains_key(k));
            assert(v.by_fdid.contains_key(v.by_path[k]));
        }
    }
}

/// The in-memory indexes between FileDataIDs and listfile paths.
pub struct CachedListfile {
    by_fdid: HashMapWithView<u32, String>,
    by_path: StringHashMap<u32>,
}

impl View for CachedListfile {
    type V = CachedListfileView;

    closed spec fn view(&self) -> CachedListfileView {
        CachedListfileView {
            by_fdid: self.by_fdid@.map_values(|s: String| s@),
            by_path: self.by_path@,
        }
    }
}

impl CachedListfile {
    #[verifier::type_invariant]
    spec fn agrees(self) -> bool {
        indexes_agree(self@)
    }
}

impl Default for CachedListfile {
    fn default() -> (res: Self)
        ensures
            res@.by_fdid == Map::<u32, Seq<char>>::empty(),
            res@.by_path == Map::<Seq<char>, u32>::empty(),
            indexes_agree(res@),
    {
        let res = CachedListfile { by_fdid: HashMapWithView::new(), by_path: StringHashMap::new() };
        assert(res@.by_fdid =~= Map::<u32, Seq<char>>::empty());
        res
    }
}

impl CachedListfile {
    /// The path remembered for `fdid`.
    pub fn path_for_fdid(&self, fdid: u32) -> (res: Option<String>)
        ensures
            match res {
                Some(p) => self@.by_fdid.contains_key(fdid) && p@ == self@.by_fdid[fdid],
                None => !self@.by_fdid.contains_key(fdid),
            },
    {
        match self.by_fdid.get(&fdid) {
            Some(p) => Some(p.clone()),
            None => None,
        }
    }

    /// The FileDataID remembered for a path, compared case-insensitively.
    pub fn fdid_for_path(&self, path: &str) -> (res: Option<u32>)
        ensures
            match res {
                Some(id) => self@.by_path.contains_key(path_key(path@)) && id == self@.by_path[path_key(path@)],
                None => !self@.by_path.contains_key(path_key(path@)),
            },
    {
        let key = to_ascii_lowercase(path);
        match self.by_path.get(key.as_str()) {
            Some(id) => Some(*id),
            None => None,
        }
    }

    /// Whether both indexes are empty.
    pub fn is_empty(&self) -> (res: bool)
        ensures
            res == (self@.by_fdid.is_empty() && self@.by_path.is_empty()),
    {
        let e1 = self.by_fdid.is_empty();
        let e2 = self.by_path.is_empty();
        proof {
            if !e1 {
                let k = choose|k: u32| self.by_fdid@.contains_key(k);
                assert(self@.by_fdid.contains_key(k));
            }
            if self@.by_fdid.is_empty() && !e1 {
                assert(false);
            }
        }
        e1 && e2
    }

    /// Remembers that `fdid` has `path` in both indexes, keeping entries
    /// that are already there. Returns the path now remembered for `fdid`
    /// and whether both entries were present before.
    pub fn cache_in_memory(&mut self, fdid: u32, path: String) -> (res: (String, bool))
        ensures
            final(self)@ == remember(old(self)@, fdid, path@),
            res.0@ == remember(old(self)@, fdid, path@).by_fdid[fdid],
            res.1 == already_cached(old(self)@, fdid, path@),
            indexes_agree(old(self)@),
            indexes_agree(final(self)@),
    {
        proof {
            use_type_invariant(&*self);
        }
        let ghost start = self@;
        let mut taken = CachedListfile::default();
        std::mem::swap(self, &mut taken);
        let CachedListfile { mut by_fdid, mut by_path } = taken;
        assert(by_fdid@.map_values(|s: String| s@) == start.by_fdid);
        assert(by_path@ == start.by_path);
        let key = to_ascii_lowercase(path.as_str());
        let has_fdid = by_fdid.contains_key(&fdid);
        let has_path = by_path.contains_key(key.as_str());
        let cached = match by_fdid.get(&fdid) {
            Some(existing) => existing.clone(),
            None => {
                let copy = path.clone();
                by_fdid.insert(fdid, path);
                copy
            },
        };
        if !has_path {
            by_path.insert(key, fdid);
        }
        let ghost after = remember(start, fdid, path@);
        assert(by_fdid@.map_values(|s: String| s@) =~= after.by_fdid);
        assert(by_path@ =~= after.by_path);
        proof {
            lemma_remember_keeps_agreement(start, fdid, path@);
        }
        *self = CachedListfile { by_fdid, by_path };
        (cached, has_fdid && has_path)
    }
}

/// What the storage layer answered to a FileDataID lookup step.
pub enum FdidStage {
    /// No storage has been asked yet.
    Start,
    /// The local SQLite cache answered: the path it holds, if any.
    LocalReply(Result<Option<String>, String>),
    /// The community listfile answered: the path it holds, if any.
    CommunityReply(Result<Option<String>, String>),
}

/// What the storage layer answered to a path lookup step.
pub enum PathStage {
    /// No storage has been asked yet.
    Start,
    /// The local SQLite cache answered: the FileDataID and stored path, if any.
    LocalReply(Result<Option<(u32, String)>, String>),
    /// The community listfile answered: the FileDataID and stored path, if any.
    CommunityReply(Result<Option<(u32, String)>, String>),
}

/// What a lookup does next.
pub enum LookupNext<T> {
    /// The lookup is over with this result.
    Answer(Option<T>),
    /// Ask the local SQLite cache, then step again with its reply.
    QueryLocal,
    /// Ask the community listfile, then step again with its reply.
    QueryCommunity,
    /// Open the listfile first, then step again from the start.
    LoadListfile,
}

/// A notice about unavailable storage, printed once per listfile and kind.
pub enum ListfileNotice {
    /// The local SQLite cache failed with this error.
    LocalUnavailable(String),
    /// The community listfile failed with this error.
    CommunityUnavailable(String),
}

/// One step of a lookup.
pub struct LookupStep<T> {
    pub next: LookupNext<T>,
    /// A notice to print.
    pub notice: Option<ListfileNotice>,
    /// An entry to write to the local SQLite cache.
    pub persist: Option<(u32, String)>,
}

/// Whether `next` answers with the path `answer`.
pub open spec fn answers_path(next: LookupNext<String>, answer: Option<Seq<char>>) -> bool {
    match next {
        LookupNext::Answer(Some(p)) => answer == Some(p@),
        LookupNext::Answer(None) => answer is None,
        _ => false,
    }
}

/// The start of the errors that report a community listfile that is not there.
pub open spec fn missing_prefix() -> Seq<char> {
    seq!['m', 'i', 's', 's', 'i', 'n', 'g', ' ']
}

/// Whether an error says that the community listfile is missing; such
/// errors are never reported.
pub open spec fn reports_missing(err: Seq<char>) -> bool {
    err.len() >= 8 && err.subrange(0, 8) == missing_prefix()
}

fn starts_with_missing(err: &str) -> (res: bool)
    ensures
        res == reports_missing(err@),
{
    let n = err.unicode_len();
    if n < 8 {
        return false;
    }
    let res = err.get_char(0) == 'm' && err.get_char(1) == 'i' && err.get_char(2) == 's'
        && err.get_char(3) == 's' && err.get_char(4) == 'i' && err.get_char(5) == 'n'
        && err.get_char(6) == 'g' && err.get_char(7) == ' ';
    proof {
        if res {
            assert(err@.subrange(0, 8) =~= missing_prefix());
        } else {
            if err@.subrange(0, 8) == missing_prefix() {
                assert(err@.subrange(0, 8)[0] == err@[0]);
                assert(err@.subrange(0, 8)[1] == err@[1]);
                assert(err@.subrange(0, 8)[2] == err@[2]);
                assert(err@.subrange(0, 8)[3] == err@[3]);
                assert(err@.subrange(0, 8)[4] == err@[4]);
                assert(err@.subrange(0, 8)[5] == err@[5]);
                assert(err@.subrange(0, 8)[6] == err@[6]);
                assert(err@.subrange(0, 8)[7] == err@[7]);
            }
        }
    }
    res
}

/// The index of the first `;` in a line, when there is one.
pub open spec fn first_separator(line: Seq<char>) -> Option<int> {
    if exists|i: int| 0 <= i < line.len() && line[i] == ';' {
        Some(choose|i: int| 0 <= i < line.len() && line[i] == ';' && forall|k: int| 0 <= k < i ==> line[k] != ';')
    } else {
        None
    }
}

/// The entry a community listfile line holds: `<fdid>;<path>`, the
/// FileDataID being the text before the first `;` read as a `u32`, and the
/// path all that follows it.
pub open spec fn listfile_line_entry(line: Seq<char>) -> Option<(u32, Seq<char>)> {
    match first_separator(line) {
        Some(i) => match parsed_u32(line.subrange(0, i)) {
            Some(fdid) => Some((fdid, line.subrange(i + 1, line.len() as int))),
            None => None,
        },
        None => None,
    }
}

/// Law: a community listfile line is split at its first `;`. When `i` is the
/// position of a `;` with none before it, the line holds an entry exactly
/// when the text before `i` reads as a `u32`, and the entry is that number
/// with all the text after `i` as its path; a line without `;` holds none.
pub proof fn lemma_line_splits_at_first_separator(line: Seq<char>, i: int)
    ensures
        0 <= i < line.len() && line[i] == ';' && (forall|k: int| 0 <= k < i ==> line[k] != ';') ==> listfile_line_entry(line)
            == match parsed_u32(line.subrange(0, i)) {
            Some(f) => Some((f, line.subrange(i + 1, line.len() as int))),
            None => None,
        },
        (forall|k: int| 0 <= k < line.len() ==> line[k] != ';') ==> listfile_line_entry(line) is None,
{
    if 0 <= i < line.len() && line[i] == ';' && (forall|k: int| 0 <= k < i ==> line[k] != ';') {
        let j = choose|j: int| 0 <= j < line.len() && line[j] == ';' && forall|k: int| 0 <= k < j ==> line[k] != ';';
        if j < i {
            assert(line[j] != ';');
        }
        if i < j {
            assert(line[i] != ';');
        }
        assert(first_separator(line) == Some(i));
    }
}

/// Reads one line of a community listfile.
pub fn parse_listfile_line(line: &str) -> (res: Option<(u32, String)>)
    ensures
        match res {
            Some((fdid, path)) => listfile_line_entry(line@) == Some((fdid, path@)),
            None => listfile_line_entry(line@) is None,
        },
{
    let n = line.unicode_len();
    let mut i: usize = 0;
    while i < n
        invariant
            n == line@.len(),
            i <= n,
            forall|k: int| 0 <= k < i ==> line@[k] != ';',
        decreases n - i,
    {
        if line.get_char(i) == ';' {
            proof {
                let j = choose|j: int| 0 <= j < line@.len() && line@[j] == ';' && forall|k: int| 0 <= k < j ==> line@[k] != ';';
                if j < i {
                    assert(line@[j] != ';');
                }
                if i < j {
                    assert(line@[i as int] != ';');
                }
                assert(first_separator(line@) == Some(i as int));
            }
            let head = line.substring_char(0, i);
            let tail = line.substring_char(i + 1, n);
            return match parse_u32(head) {
                Some(fdid) => Some((fdid, owned(tail))),
                None => None,
            };
        }
        i = i + 1;
    }
    None
}

/// What asking one of the listfile's SQLite stores gave.
pub enum StoreQuery<T> {
    /// The store's file does not exist.
    NoFile,
    /// The store's file could not be opened; the error's text.
    OpenFailed(String),
    /// The query ran: the row it found, if any, or its error.
    Queried(Result<Option<T>, DbError>),
}

/// The reply of the store at `store_path` to a lookup, by what asking it
/// gave. A missing file or a missing table is an empty store and answers
/// nothing; a failure to open the file or any other query error is an error.
pub open spec fn store_reply_for<T>(store_path: Seq<char>, query: StoreQuery<T>) -> Result<Option<T>, Seq<char>> {
    match query {
        StoreQuery::NoFile => Ok(None),
        StoreQuery::OpenFailed(e) => Err("open "@ + store_path + ": "@ + e@),
        StoreQuery::Queried(Ok(row)) => Ok(row),
        StoreQuery::Queried(Err(e)) => if is_missing_table(e) {
            Ok(None)
        } else {
            Err("query "@ + store_path + ": "@ + e.text@)
        },
    }
}

/// Law: a store whose file or table is missing answers nothing, a query's
/// row is passed on as it is, and a failure to open the file or any other
/// query error is an error.
pub proof fn lemma_store_reply_rules<T>(store_path: Seq<char>, query: StoreQuery<T>)
    ensures
        query is NoFile ==> store_reply_for(store_path, query) == Ok::<Option<T>, Seq<char>>(None),
        query is OpenFailed ==> store_reply_for(store_path, query) is Err,
        query matches StoreQuery::Queried(Ok(row)) ==> store_reply_for(store_path, query) == Ok::<Option<T>, Seq<char>>(row),
        query matches StoreQuery::Queried(Err(e)) ==> (is_missing_table(e) <==> store_reply_for(store_path, query) is Ok),
        query matches StoreQuery::Queried(Err(e)) ==> (is_missing_table(e) ==> store_reply_for(store_path, query)
            == Ok::<Option<T>, Seq<char>>(None)),
{
}

/// The reply with its error by its characters.
pub open spec fn reply_chars<T>(r: Result<Option<T>, String>) -> Result<Option<T>, Seq<char>> {
    match r {
        Ok(row) => Ok(row),
        Err(e) => Err(e@),
    }
}

/// Turns what asking a store gave into the reply a lookup step takes.
pub fn store_reply<T>(store_path: &str, query: StoreQuery<T>) -> (res: Result<Option<T>, String>)
    ensures
        reply_chars(res) == store_reply_for(store_path@, query),
{
    match query {
        StoreQuery::NoFile => Ok(None),
        StoreQuery::OpenFailed(e) => {
            let mut msg = owned("open ");
            append_str(&mut msg, store_path);
            append_str(&mut msg, ": ");
            append_str(&mut msg, e.as_str());
            Err(msg)
        },
        StoreQuery::Queried(Ok(row)) => Ok(row),
        StoreQuery::Queried(Err(e)) => {
            if missing_table(&e) {
                Ok(None)
            } else {
                let mut msg = owned("query ");
                append_str(&mut msg, store_path);
                append_str(&mut msg, ": ");
                append_str(&mut msg, e.text.as_str());
                Err(msg)
            }
        },
    }
}

/// The state of a listfile, by its contents.
pub struct ListfileView {
    pub community_path: Seq<char>,
    pub community_cache_path: Seq<char>,
    pub local_cache_path: Seq<char>,
    pub community_error_logged: bool,
    pub local_error_logged: bool,
    pub local: CachedListfileView,
}

/// A listfile: where its three stores live, its in-memory indexes, and
/// whether each kind of storage failure has been reported.
pub struct Listfile {
    community_path: String,
    community_cache_path: String,
    local_cache_path: String,
    community_error_logged: bool,
    local_error_logged: bool,
    local: CachedListfile,
}

impl View for Listfile {
    type V = ListfileView;

    closed spec fn view(&self) -> ListfileView {
        ListfileView {
            community_path: self.community_path@,
            community_cache_path: self.community_cache_path@,
            local_cache_path: self.local_cache_path@,
            community_error_logged: self.community_error_logged,
            local_error_logged: self.local_error_logged,
            local: self.local@,
        }
    }
}

/// The state after a local cache failure: it is marked as reported.
pub open spec fn after_local_error(v: ListfileView) -> ListfileView {
    ListfileView { local_error_logged: true, ..v }
}

/// The state after a community failure: marked as reported unless it only
/// says that the community listfile is missing.
pub open spec fn after_community_error(v: ListfileView, err: Seq<char>) -> ListfileView {
    ListfileView {
        community_error_logged: v.community_error_logged || !reports_missing(err),
        ..v
    }
}

/// The state after remembering an entry in memory.
pub open spec fn after_remember(v: ListfileView, fdid: u32, path: Seq<char>) -> ListfileView {
    ListfileView { local: remember(v.local, fdid, path), ..v }
}

/// Whether `notice` is the report due for a local cache failure `err`: one
/// the first time, none afterwards.
pub open spec fn local_notice(old_logged: bool, err: String, notice: Option<ListfileNotice>) -> bool {
    if old_logged {
        notice is None
    } else {
        notice == Some(ListfileNotice::LocalUnavailable(err))
    }
}

/// Whether `notice` is the report due for a community failure `err`: one the
/// first time, none afterwards, and none for a missing community listfile.
pub open spec fn community_notice(old_logged: bool, err: String, notice: Option<ListfileNotice>) -> bool {
    if old_logged || reports_missing(err@) {
        notice is None
    } else {
        notice == Some(ListfileNotice::CommunityUnavailable(err))
    }
}


/// What one step of a FileDataID lookup does: from the state `before` and the
/// storage reply `stage`, it leads to the state `after` and gives `step`.
pub open spec fn fdid_lookup_step(
    before: ListfileView,
    after: ListfileView,
    fdid: u32,
    stage: FdidStage,
    step: LookupStep<String>,
) -> bool {
    match stage {
        FdidStage::Start => {
            &&& after == before
            &&& step.notice is None
            &&& step.persist is None
            &&& if before.local.by_fdid.contains_key(fdid) {
                answers_path(step.next, Some(before.local.by_fdid[fdid]))
            } else {
                step.next is QueryLocal
            }
        },
        FdidStage::LocalReply(Ok(Some(path))) => {
            &&& after == after_remember(before, fdid, path@)
            &&& step.notice is None
            &&& step.persist is None
            &&& answers_path(step.next, Some(after.local.by_fdid[fdid]))
        },
        FdidStage::LocalReply(Ok(None)) => {
            &&& after == before
            &&& step.notice is None
            &&& step.persist is None
            &&& step.next is QueryCommunity
        },
        FdidStage::LocalReply(Err(err)) => {
            &&& after == after_local_error(before)
            &&& local_notice(before.local_error_logged, err, step.notice)
            &&& step.persist is None
            &&& step.next is QueryCommunity
        },
        FdidStage::CommunityReply(Ok(Some(path))) => {
            &&& after == after_remember(before, fdid, path@)
            &&& step.notice is None
            &&& if already_cached(before.local, fdid, path@) {
                step.persist is None
            } else {
                step.persist == Some((fdid, path))
            }
            &&& answers_path(step.next, Some(path@))
        },
        FdidStage::CommunityReply(Ok(None)) => {
            &&& after == before
            &&& step.notice is None
            &&& step.persist is None
            &&& answers_path(step.next, None)
        },
        FdidStage::CommunityReply(Err(err)) => {
            &&& after == after_community_error(before, err@)
            &&& community_notice(before.community_error_logged, err, step.notice)
            &&& step.persist is None
            &&& answers_path(step.next, None)
        },
    }
}

/// What one step of a path lookup does: from the state `before` and the
/// storage reply `stage`, it leads to the state `after` and gives `step`.
pub open spec fn path_lookup_step(
    before: ListfileView,
    after: ListfileView,
    path: Seq<char>,
    stage: PathStage,
    step: LookupStep<u32>,
) -> bool {
    match stage {
        PathStage::Start => {
            &&& after == before
            &&& step.notice is None
            &&& step.persist is None
            &&& if before.local.by_path.contains_key(path_key(path)) {
                step.next == LookupNext::Answer(Some(before.local.by_path[path_key(path)]))
            } else {
                step.next is QueryLocal
            }
        },
        PathStage::LocalReply(Ok(Some((fdid, stored)))) => {
            &&& after == after_remember(before, fdid, stored@)
            &&& step.notice is None
            &&& step.persist is None
            &&& step.next == LookupNext::Answer(Some(fdid))
        },
        PathStage::LocalReply(Ok(None)) => {
            &&& after == before
            &&& step.notice is None
            &&& step.persist is None
            &&& step.next is QueryCommunity
        },
        PathStage::LocalReply(Err(err)) => {
            &&& after == after_local_error(before)
            &&& local_notice(before.local_error_logged, err, step.notice)
            &&& step.persist is None
            &&& step.next is QueryCommunity
        },
        PathStage::CommunityReply(Ok(Some((fdid, stored)))) => {
            &&& after == after_remember(before, fdid, stored@)
            &&& step.notice is None
            &&& if already_cached(before.local, fdid, stored@) {
                step.persist is None
            } else {
                step.persist == Some((fdid, stored))
            }
            &&& step.next == LookupNext::Answer(Some(fdid))
        },
        PathStage::CommunityReply(Ok(None)) => {
            &&& after == before
            &&& step.notice is None
            &&& step.persist is None
            &&& step.next == LookupNext::<u32>::Answer(None)
        },
        PathStage::CommunityReply(Err(err)) => {
            &&& after == after_community_error(before, err@)
            &&& community_notice(before.community_error_logged, err, step.notice)
            &&& step.persist is None
            &&& step.next == LookupNext::<u32>::Answer(None)
        },
    }
}

/// The file name of the local SQLite cache under the shared data root.
pub open spec fn local_cache_file_name() -> Seq<char> {
    seq![
        'l', 'o', 'c', 'a', 'l', '-', 'l', 'i', 's', 't', 'f', 'i', 'l', 'e', '-', 'c', 'a', 'c',
        'h', 'e', '.', 's', 'q', 'l', 'i', 't', 'e',
    ]
}

/// The file name of the full community listfile.
pub open spec fn community_file_name() -> Seq<char> {
    seq![
        'c', 'o', 'm', 'm', 'u', 'n', 'i', 't', 'y', '-', 'l', 'i', 's', 't', 'f', 'i', 'l', 'e',
        '.', 'c', 's', 'v',
    ]
}

/// The file name of the smaller listfile used when the full one is absent.
pub open spec fn limited_file_name() -> Seq<char> {
    seq![
        'w', 'o', 'w', '-', 'u', 'i', '-', 's', 'i', 'm', '-', 'l', 'i', 's', 't', 'f', 'i', 'l',
        'e', '.', 'c', 's', 'v',
    ]
}

/// Which of the two community listfiles exist under which data root.
pub struct ListfileSources {
    pub community_in_source: bool,
    pub community_in_shared: bool,
    pub limited_in_source: bool,
    pub limited_in_shared: bool,
}

/// The community listfile to use: the full one where it is found (source
/// root first), else the limited one where it is found, else the full one's
/// place under the shared root.
pub open spec fn chosen_community_listfile(paths: PathsView, s: ListfileSources) -> Seq<char> {
    if s.community_in_source {
        joined(paths.source_data_root, community_file_name())
    } else if s.community_in_shared {
        joined(paths.shared_data_root, community_file_name())
    } else if s.limited_in_source {
        joined(paths.source_data_root, limited_file_name())
    } else if s.limited_in_shared {
        joined(paths.shared_data_root, limited_file_name())
    } else {
        joined(paths.shared_data_root, community_file_name())
    }
}

/// Chooses the community listfile among the full and the limited one.
pub fn community_listfile_path(paths: &ResolverPaths, sources: &ListfileSources) -> (res: String)
    ensures
        res@ == chosen_community_listfile(paths@, *sources),
        sources.community_in_source ==> res@ == joined(paths@.source_data_root, "community-listfile.csv"@),
        !sources.community_in_source && sources.community_in_shared
            ==> res@ == joined(paths@.shared_data_root, "community-listfile.csv"@),
        !sources.community_in_source && !sources.community_in_shared && sources.limited_in_source
            ==> res@ == joined(paths@.source_data_root, "wow-ui-sim-listfile.csv"@),
        !sources.community_in_source && !sources.community_in_shared && !sources.limited_in_source
            && sources.limited_in_shared ==> res@ == joined(paths@.shared_data_root, "wow-ui-sim-listfile.csv"@),
        !sources.community_in_source && !sources.community_in_shared && !sources.limited_in_source
            && !sources.limited_in_shared ==> res@ == joined(paths@.shared_data_root, "community-listfile.csv"@),
{
    proof {
        lemma_community_listfile_choice(paths@, *sources);
    }
    let community = owned("community-listfile.csv");
    let limited = owned("wow-ui-sim-listfile.csv");
    proof {
        reveal_strlit("community-listfile.csv");
        reveal_strlit("wow-ui-sim-listfile.csv");
    }
    assert(community@ =~= community_file_name());
    assert(limited@ =~= limited_file_name());
    if sources.community_in_source || sources.community_in_shared {
        paths.resolve_data_path(community.as_str(), sources.community_in_source)
    } else if sources.limited_in_source || sources.limited_in_shared {
        paths.resolve_data_path(limited.as_str(), sources.limited_in_source)
    } else {
        paths.shared_data_path(community.as_str())
    }
}

impl Listfile {
    /// A listfile over the three given stores. Nothing is read: both
    /// in-memory indexes start empty and no failure has been reported.
    pub fn new(community_path: String, community_cache_path: String, local_cache_path: String) -> (res: Self)
        ensures
            indexes_agree(res@.local),
            res@.community_path == community_path@,
            res@.community_cache_path == community_cache_path@,
            res@.local_cache_path == local_cache_path@,
            !res@.community_error_logged,
            !res@.local_error_logged,
            res@.local.by_fdid.is_empty(),
            res@.local.by_path.is_empty(),
    {
        Listfile {
            community_path,
            community_cache_path,
            local_cache_path,
            community_error_logged: false,
            local_error_logged: false,
            local: CachedListfile::default(),
        }
    }

    /// A listfile whose local cache is `local-listfile-cache.sqlite` under the
    /// shared data root.
    pub fn from_paths(paths: &ResolverPaths, community_path: String, community_cache_path: String) -> (res: Self)
        ensures
            indexes_agree(res@.local),
            res@.community_path == community_path@,
            res@.community_cache_path == community_cache_path@,
            res@.local_cache_path == joined(paths@.shared_data_root, local_cache_file_name()),
            !res@.community_error_logged,
            !res@.local_error_logged,
            res@.local.by_fdid.is_empty(),
            res@.local.by_path.is_empty(),
    {
        let name = owned("local-listfile-cache.sqlite");
        proof {
            reveal_strlit("local-listfile-cache.sqlite");
        }
        assert(name@ =~= local_cache_file_name());
        let local_cache_path = paths.shared_data_path(name.as_str());
        Listfile::new(community_path, community_cache_path, local_cache_path)
    }

    /// Where the community listfile is read from.
    pub fn community_path(&self) -> (res: &str)
        ensures
            res@ == self@.community_path,
    {
        self.community_path.as_str()
    }

    /// Where the community listfile's SQLite cache lives.
    pub fn community_cache_path(&self) -> (res: &str)
        ensures
            res@ == self@.community_cache_path,
    {
        self.community_cache_path.as_str()
    }

    /// Where the local SQLite cache lives.
    pub fn local_cache_path(&self) -> (res: &str)
        ensures
            res@ == self@.local_cache_path,
    {
        self.local_cache_path.as_str()
    }

    /// The in-memory indexes.
    pub fn local(&self) -> (res: &CachedListfile)
        ensures
            res@ == self@.local,
            indexes_agree(self@.local),
    {
        proof {
            use_type_invariant(&self.local);
        }
        &self.local
    }

    fn note_local_error(&mut self, err: String) -> (res: Option<ListfileNotice>)
        ensures
            final(self)@ == after_local_error(old(self)@),
            local_notice(old(self)@.local_error_logged, err, res),
    {
        if self.local_error_logged {
            None
        } else {
            self.local_error_logged = true;
            Some(ListfileNotice::LocalUnavailable(err))
        }
    }

    fn note_community_error(&mut self, err: String) -> (res: Option<ListfileNotice>)
        ensures
            final(self)@ == after_community_error(old(self)@, err@),
            community_notice(old(self)@.community_error_logged, err, res),
    {
        if starts_with_missing(err.as_str()) {
            return None;
        }
        if self.community_error_logged {
            None
        } else {
            self.community_error_logged = true;
            Some(ListfileNotice::CommunityUnavailable(err))
        }
    }

    /// One step of resolving a FileDataID to its path.
    ///
    /// From the start, memory answers if it holds the FileDataID; else the
    /// local cache is asked. A local hit is remembered in both indexes and
    /// answered; a local miss or failure moves on to the community listfile
    /// (a failure is reported once). A community hit is remembered, written to
    /// the local cache unless both indexes already held it, and answered with
    /// the community's path; a community miss or failure answers nothing.
    pub fn lookup_fdid(&mut self, fdid: u32, stage: FdidStage) -> (step: LookupStep<String>)
        ensures
            fdid_lookup_step(old(self)@, final(self)@, fdid, stage, step),
            indexes_agree(old(self)@.local),
            indexes_agree(final(self)@.local),
    {
        proof {
            use_type_invariant(&self.local);
        }
        match stage {
            FdidStage::Start => {
                let next = match self.local.path_for_fdid(fdid) {
                    Some(path) => LookupNext::Answer(Some(path)),
                    None => LookupNext::QueryLocal,
                };
                LookupStep { next, notice: None, persist: None }
            },
            FdidStage::LocalReply(Ok(Some(path))) => {
                let (cached, _) = self.local.cache_in_memory(fdid, path);
                LookupStep { next: LookupNext::Answer(Some(cached)), notice: None, persist: None }
            },
            FdidStage::LocalReply(Ok(None)) => {
                LookupStep { next: LookupNext::QueryCommunity, notice: None, persist: None }
            },
            FdidStage::LocalReply(Err(err)) => {
                let notice = self.note_local_error(err);
                LookupStep { next: LookupNext::QueryCommunity, notice, persist: None }
            },
            FdidStage::CommunityReply(Ok(Some(path))) => {
                let answer = path.clone();
                let stored = path.clone();
                let (_, already) = self.local.cache_in_memory(fdid, path);
                let persist = if already {
                    None
                } else {
                    Some((fdid, stored))
                };
                LookupStep { next: LookupNext::Answer(Some(answer)), notice: None, persist }
            },
            FdidStage::CommunityReply(Ok(None)) => {
                LookupStep { next: LookupNext::Answer(None), notice: None, persist: None }
            },
            FdidStage::CommunityReply(Err(err)) => {
                let notice = self.note_community_error(err);
                LookupStep { next: LookupNext::Answer(None), notice, persist: None }
            },
        }
    }

    /// One step of resolving a path to its FileDataID; paths compare
    /// case-insensitively.
    ///
    /// From the start, memory answers if it holds the lowercased path; else
    /// the local cache is asked. A local hit is remembered in both indexes and
    /// answered with its FileDataID; a local miss or failure moves on to the
    /// community listfile (a failure is reported once). A community hit is
    /// remembered, written to the local cache unless both indexes already
    /// held it, and answered; a community miss or failure answers nothing.
    pub fn lookup_path(&mut self, path: &str, stage: PathStage) -> (step: LookupStep<u32>)
        ensures
            path_lookup_step(old(self)@, final(self)@, path@, stage, step),
            indexes_agree(old(self)@.local),
            indexes_agree(final(self)@.local),
    {
        proof {
            use_type_invariant(&self.local);
        }
        match stage {
            PathStage::Start => {
                let next = match self.local.fdid_for_path(path) {
                    Some(fdid) => LookupNext::Answer(Some(fdid)),
                    None => LookupNext::QueryLocal,
                };
                LookupStep { next, notice: None, persist: None }
            },
            PathStage::LocalReply(Ok(Some((fdid, stored)))) => {
                let _ = self.local.cache_in_memory(fdid, stored);
                LookupStep { next: LookupNext::Answer(Some(fdid)), notice: None, persist: None }
            },
            PathStage::LocalReply(Ok(None)) => {
                LookupStep { next: LookupNext::QueryCommunity, notice: None, persist: None }
            },
            PathStage::LocalReply(Err(err)) => {
                let notice = self.note_local_error(err);
                LookupStep { next: LookupNext::QueryCommunity, notice, persist: None }
            },
            PathStage::CommunityReply(Ok(Some((fdid, stored)))) => {
                let kept = stored.clone();
                let (_, already) = self.local.cache_in_memory(fdid, stored);
                let persist = if already {
                    None
                } else {
                    Some((fdid, kept))
                };
                LookupStep { next: LookupNext::Answer(Some(fdid)), notice: None, persist }
            },
            PathStage::CommunityReply(Ok(None)) => {
                LookupStep { next: LookupNext::Answer(None), notice: None, persist: None }
            },
            PathStage::CommunityReply(Err(err)) => {
                let notice = self.note_community_error(err);
                LookupStep { next: LookupNext::Answer(None), notice, persist: None }
            },
        }
    }
}


/// Law: what is remembered can be read back. After remembering that `fdid`
/// has `path`, memory answers for `fdid` and for the path's key; the answer is
/// the newly remembered one unless an entry was already there, which is kept.
pub proof fn lemma_remembered_entry_is_found(v: CachedListfileView, fdid: u32, path: Seq<char>)
    ensures
        remember(v, fdid, path).by_fdid.contains_key(fdid),
        remember(v, fdid, path).by_fdid[fdid] == if v.by_fdid.contains_key(fdid) {
            v.by_fdid[fdid]
        } else {
            path
        },
        remember(v, fdid, path).by_path.contains_key(path_key(path)),
        remember(v, fdid, path).by_path[path_key(path)] == if v.by_path.contains_key(path_key(path)) {
            v.by_path[path_key(path)]
        } else {
            fdid
        },
{
}

/// Law: memory never forgets nor overwrites. Every entry of both indexes
/// survives remembering another entry, with its value.
pub proof fn lemma_remember_keeps_entries(v: CachedListfileView, fdid: u32, path: Seq<char>)
    ensures
        v.by_fdid.submap_of(remember(v, fdid, path).by_fdid),
        v.by_path.submap_of(remember(v, fdid, path).by_path),
{
}

/// Law: paths are found case-insensitively. Once a path is remembered, any
/// spelling of it that differs only in the case of ASCII letters finds the
/// same entry.
pub proof fn lemma_path_lookup_ignores_case(v: CachedListfileView, fdid: u32, path: Seq<char>, spelling: Seq<char>)
    requires
        lowercase(spelling) == lowercase(path),
    ensures
        remember(v, fdid, path).by_path.contains_key(path_key(spelling)),
        remember(v, fdid, path).by_path[path_key(spelling)] == remember(v, fdid, path).by_path[path_key(path)],
{
}

/// Law: a resolved FileDataID or path is answered from memory afterwards.
/// After any step that remembered an entry, a fresh lookup of its
/// FileDataID, or of its path in any case, finds it in memory, so neither the
/// local cache nor the community listfile is asked again.
pub proof fn lemma_second_lookup_stays_in_memory(v: ListfileView, fdid: u32, path: Seq<char>, spelling: Seq<char>)
    requires
        lowercase(spelling) == lowercase(path),
    ensures
        after_remember(v, fdid, path).local.by_fdid.contains_key(fdid),
        after_remember(v, fdid, path).local.by_path.contains_key(path_key(spelling)),
        after_remember(v, fdid, path).local_cache_path == v.local_cache_path,
        after_remember(v, fdid, path).community_path == v.community_path,
{
}

/// Law: each kind of storage failure is reported once. After a reported
/// failure, later failures of the same kind give no notice.
pub proof fn lemma_failures_reported_once(v: ListfileView, first: Seq<char>, err: String, notice: Option<ListfileNotice>)
    ensures
        local_notice(after_local_error(v).local_error_logged, err, notice) ==> notice is None,
        !reports_missing(first) ==> (community_notice(
            after_community_error(v, first).community_error_logged,
            err,
            notice,
        ) ==> notice is None),
{
}


/// Law: the order of the stores. The local cache is asked only after memory
/// missed; the community listfile only after the local cache missed or
/// failed; and a local hit is answered without asking the community listfile.
pub proof fn lemma_fdid_lookup_order(
    before: ListfileView,
    after: ListfileView,
    fdid: u32,
    stage: FdidStage,
    step: LookupStep<String>,
)
    requires
        fdid_lookup_step(before, after, fdid, stage, step),
    ensures
        step.next is QueryLocal ==> stage is Start && !before.local.by_fdid.contains_key(fdid),
        step.next is QueryCommunity ==> (stage matches FdidStage::LocalReply(r) && !(r matches Ok(Some(_)))),
        stage matches FdidStage::LocalReply(Ok(Some(_))) ==> step.next is Answer,
        !(step.next is LoadListfile),
{
}

/// Law: the order of the stores for path lookups, as for FileDataIDs.
pub proof fn lemma_path_lookup_order(
    before: ListfileView,
    after: ListfileView,
    path: Seq<char>,
    stage: PathStage,
    step: LookupStep<u32>,
)
    requires
        path_lookup_step(before, after, path, stage, step),
    ensures
        step.next is QueryLocal ==> stage is Start && !before.local.by_path.contains_key(path_key(path)),
        step.next is QueryCommunity ==> (stage matches PathStage::LocalReply(r) && !(r matches Ok(Some(_)))),
        stage matches PathStage::LocalReply(Ok(Some(_))) ==> step.next is Answer,
        !(step.next is LoadListfile),
{
}


/// Law: a path answered for a FileDataID is found again by a path lookup from
/// memory. From any state whose indexes agree, after a step that answers
/// `fdid` with the path `p`, a path lookup of any spelling of `p` that differs
/// only in ASCII case is answered from memory at its first step, without
/// asking either store. The answer is `fdid` itself unless the path index
/// already held `p` for another FileDataID.
pub proof fn lemma_answered_path_is_found_again(
    before: ListfileView,
    after: ListfileView,
    fdid: u32,
    stage: FdidStage,
    step: LookupStep<String>,
    p: Seq<char>,
    spelling: Seq<char>,
    later: ListfileView,
    second: LookupStep<u32>,
)
    requires
        indexes_agree(before.local),
        fdid_lookup_step(before, after, fdid, stage, step),
        answers_path(step.next, Some(p)),
        lowercase(spelling) == lowercase(p),
        path_lookup_step(after, later, spelling, PathStage::Start, second),
    ensures
        indexes_agree(after.local),
        later == after,
        second.next == LookupNext::Answer(Some(after.local.by_path[path_key(p)])),
        (before.local.by_path.contains_key(path_key(p)) ==> before.local.by_path[path_key(p)] == fdid)
            ==> second.next == LookupNext::Answer(Some(fdid)),
{
    let key = path_key(p);
    assert(path_key(spelling) == key);
    match stage {
        FdidStage::Start => {
            assert(before.local.by_fdid.contains_key(fdid));
            assert(p == before.local.by_fdid[fdid]);
            assert(after.local.by_path.contains_key(key));
        },
        FdidStage::LocalReply(Ok(Some(path))) => {
            lemma_remember_keeps_agreement(before.local, fdid, path@);
            lemma_remembered_entry_is_found(before.local, fdid, path@);
            assert(p == after.local.by_fdid[fdid]);
            assert(after.local.by_path.contains_key(key));
            if before.local.by_fdid.contains_key(fdid) {
                assert(before.local.by_path.contains_key(key));
                assert(after.local.by_path[key] == before.local.by_path[key]);
            }
        },
        FdidStage::CommunityReply(Ok(Some(path))) => {
            lemma_remember_keeps_agreement(before.local, fdid, path@);
            lemma_remembered_entry_is_found(before.local, fdid, path@);
            assert(p == path@);
        },
        FdidStage::LocalReply(Ok(None)) => {},
        FdidStage::LocalReply(Err(_)) => {},
        FdidStage::CommunityReply(Ok(None)) => {},
        FdidStage::CommunityReply(Err(_)) => {},
    }
}

/// Law: one path lookup step depends on the path only through its ASCII
/// lowercase form. Two spellings that differ only in ASCII case, from the
/// same state and with the same storage reply, lead to the same state and
/// the same step.
pub proof fn lemma_path_step_ignores_case(
    before: ListfileView,
    p: Seq<char>,
    q: Seq<char>,
    stage: PathStage,
    after: ListfileView,
    step: LookupStep<u32>,
)
    requires
        lowercase(p) == lowercase(q),
    ensures
        path_lookup_step(before, after, p, stage, step) <==> path_lookup_step(before, after, q, stage, step),
{
}

/// Law: one path lookup step is determined by its state, path and storage
/// reply.
pub proof fn lemma_path_step_is_determined(
    before: ListfileView,
    path: Seq<char>,
    stage: PathStage,
    after1: ListfileView,
    step1: LookupStep<u32>,
    after2: ListfileView,
    step2: LookupStep<u32>,
)
    requires
        path_lookup_step(before, after1, path, stage, step1),
        path_lookup_step(before, after2, path, stage, step2),
    ensures
        after1 == after2,
        step1 == step2,
{
}

/// A whole path lookup: the states it passes through, the storage replies it
/// was given (the first is normally `Start`) and the steps it took, each step
/// leading from one state to the next.
pub open spec fn path_lookup_run(
    states: Seq<ListfileView>,
    path: Seq<char>,
    stages: Seq<PathStage>,
    steps: Seq<LookupStep<u32>>,
) -> bool {
    &&& states.len() == stages.len() + 1
    &&& steps.len() == stages.len()
    &&& forall|i: int| 0 <= i < stages.len() ==> path_lookup_step(states[i], states[i + 1], path, #[trigger] stages[i], steps[i])
}

/// Law: whole path lookups ignore ASCII case. Two lookups of spellings that
/// differ only in ASCII case, from the same state and given the same storage
/// replies (the stores answer by the lowercased path, so unchanged stores
/// give the same replies), pass through the same states and take the same
/// steps, so they answer alike.
pub proof fn lemma_path_lookup_run_ignores_case(
    states_p: Seq<ListfileView>,
    states_q: Seq<ListfileView>,
    p: Seq<char>,
    q: Seq<char>,
    stages: Seq<PathStage>,
    steps_p: Seq<LookupStep<u32>>,
    steps_q: Seq<LookupStep<u32>>,
)
    requires
        lowercase(p) == lowercase(q),
        path_lookup_run(states_p, p, stages, steps_p),
        path_lookup_run(states_q, q, stages, steps_q),
        states_p[0] == states_q[0],
    ensures
        states_p == states_q,
        steps_p == steps_q,
    decreases stages.len(),
{
    if stages.len() > 0 {
        let n = stages.len() - 1;
        let sp = states_p.drop_last();
        let sq = states_q.drop_last();
        let st = stages.drop_last();
        let tp = steps_p.drop_last();
        let tq = steps_q.drop_last();
        assert forall|i: int| 0 <= i < st.len() implies path_lookup_step(sp[i], sp[i + 1], p, #[trigger] st[i], tp[i]) by {
            assert(stages[i] == st[i]);
        }
        assert forall|i: int| 0 <= i < st.len() implies path_lookup_step(sq[i], sq[i + 1], q, #[trigger] st[i], tq[i]) by {
            assert(stages[i] == st[i]);
        }
        lemma_path_lookup_run_ignores_case(sp, sq, p, q, st, tp, tq);
        assert(states_p[n] == sp[n] && states_q[n] == sq[n]);
        assert(path_lookup_step(states_p[n], states_p[n + 1], p, stages[n], steps_p[n]));
        assert(path_lookup_step(states_q[n], states_q[n + 1], q, stages[n], steps_q[n]));
        lemma_path_step_ignores_case(states_q[n], p, q, stages[n], states_q[n + 1], steps_q[n]);
        lemma_path_step_is_determined(states_p[n], p, stages[n], states_p[n + 1], steps_p[n], states_q[n + 1], steps_q[n]);
        assert forall|i: int| 0 <= i < states_p.len() implies states_p[i] == states_q[i] by {
            if i <= n {
                assert(states_p[i] == sp[i] && states_q[i] == sq[i]);
            }
        }
        assert forall|i: int| 0 <= i < steps_p.len() implies steps_p[i] == steps_q[i] by {
            if i < n {
                assert(steps_p[i] == tp[i] && steps_q[i] == tq[i]);
            }
        }
        assert(states_p =~= states_q);
        assert(steps_p =~= steps_q);
    } else {
        assert(states_p =~= states_q);
        assert(steps_p =~= steps_q);
    }
}


/// The reply a store gives to a path lookup.
pub type PathReply = Result<Option<(u32, String)>, String>;

/// What a whole path lookup answers for the key `key`, from the memory
/// `mem`, when the local cache replies `local` and the community listfile
/// replies `community`: memory's entry if it holds the key, else the local
/// cache's FileDataID, else the community listfile's, else nothing.
pub open spec fn path_answer(mem: CachedListfileView, key: Seq<char>, local: PathReply, community: PathReply) -> Option<u32> {
    if mem.by_path.contains_key(key) {
        Some(mem.by_path[key])
    } else {
        match local {
            Ok(Some((f, _))) => Some(f),
            _ => match community {
                Ok(Some((f, _))) => Some(f),
                _ => None,
            },
        }
    }
}

/// Whether `stage` is a step that a lookup of `key` can reach from the state
/// `v`, with the stores replying `local` and `community`: the start, the
/// local reply once memory missed, or the community reply once the local
/// cache also missed.
pub open spec fn path_phase(v: ListfileView, key: Seq<char>, stage: PathStage, local: PathReply, community: PathReply) -> bool {
    match stage {
        PathStage::Start => true,
        PathStage::LocalReply(r) => r == local && !v.local.by_path.contains_key(key),
        PathStage::CommunityReply(r) => r == community && !v.local.by_path.contains_key(key)
            && !(local matches Ok(Some(_))),
    }
}

/// A whole path lookup against stores that reply `local` and `community` to
/// this path: it starts from `Start`, each storage reply is the one the
/// previous step asked for, and only the last step answers.
pub open spec fn path_lookup_ends(
    states: Seq<ListfileView>,
    path: Seq<char>,
    stages: Seq<PathStage>,
    steps: Seq<LookupStep<u32>>,
    local: PathReply,
    community: PathReply,
) -> bool {
    &&& path_lookup_run(states, path, stages, steps)
    &&& stages.len() >= 1
    &&& stages[0] == PathStage::Start
    &&& forall|i: int| 0 <= i < stages.len() - 1 ==> {
        &&& !((#[trigger] steps[i]).next is Answer)
        &&& steps[i].next is QueryLocal ==> stages[i + 1] == PathStage::LocalReply(local)
        &&& steps[i].next is QueryCommunity ==> stages[i + 1] == PathStage::CommunityReply(community)
    }
    &&& steps[stages.len() - 1].next is Answer
}

/// Law: one reachable step keeps the answer a lookup of the same key would
/// give, answers it when it answers, and leads to a reachable next step.
pub proof fn lemma_path_step_keeps_answer(
    before: ListfileView,
    after: ListfileView,
    path: Seq<char>,
    stage: PathStage,
    step: LookupStep<u32>,
    local: PathReply,
    community: PathReply,
)
    requires
        path_lookup_step(before, after, path, stage, step),
        path_phase(before, path_key(path), stage, local, community),
    ensures
        path_answer(after.local, path_key(path), local, community) == path_answer(before.local, path_key(path), local, community),
        step.next is Answer ==> step.next == LookupNext::Answer(path_answer(before.local, path_key(path), local, community)),
        step.next is QueryLocal ==> path_phase(after, path_key(path), PathStage::LocalReply(local), local, community),
        step.next is QueryCommunity ==> path_phase(after, path_key(path), PathStage::CommunityReply(community), local, community),
{
    let key = path_key(path);
    match stage {
        PathStage::LocalReply(Ok(Some((f, stored)))) => {
            lemma_remembered_entry_is_found(before.local, f, stored@);
        },
        PathStage::CommunityReply(Ok(Some((f, stored)))) => {
            lemma_remembered_entry_is_found(before.local, f, stored@);
        },
        _ => {},
    }
}

proof fn lemma_path_lookup_tail(
    states: Seq<ListfileView>,
    path: Seq<char>,
    stages: Seq<PathStage>,
    steps: Seq<LookupStep<u32>>,
    local: PathReply,
    community: PathReply,
    i: int,
)
    requires
        path_lookup_ends(states, path, stages, steps, local, community),
        0 <= i < stages.len(),
        path_phase(states[i], path_key(path), stages[i], local, community),
    ensures
        steps[stages.len() - 1].next == LookupNext::Answer(path_answer(states[i].local, path_key(path), local, community)),
        path_answer(states[stages.len() as int].local, path_key(path), local, community)
            == path_answer(states[i].local, path_key(path), local, community),
    decreases stages.len() - i,
{
    assert(path_lookup_step(states[i], states[i + 1], path, stages[i], steps[i]));
    lemma_path_step_keeps_answer(states[i], states[i + 1], path, stages[i], steps[i], local, community);
    if i < stages.len() - 1 {
        assert(!(steps[i].next is Answer));
        lemma_path_lookup_tail(states, path, stages, steps, local, community, i + 1);
    }
}

/// Law: a whole path lookup answers `path_answer` of the memory it started
/// from, and leaves memory giving the same answer to the same key.
pub proof fn lemma_path_lookup_answer(
    states: Seq<ListfileView>,
    path: Seq<char>,
    stages: Seq<PathStage>,
    steps: Seq<LookupStep<u32>>,
    local: PathReply,
    community: PathReply,
)
    requires
        path_lookup_ends(states, path, stages, steps, local, community),
    ensures
        steps.last().next == LookupNext::Answer(path_answer(states[0].local, path_key(path), local, community)),
        path_answer(states.last().local, path_key(path), local, community)
            == path_answer(states[0].local, path_key(path), local, community),
{
    lemma_path_lookup_tail(states, path, stages, steps, local, community, 0);
}

/// Law: successive path lookups on one listfile agree. A lookup of `p`, then
/// a lookup of `q` on the state it left, where `p` and `q` differ only in
/// ASCII case and the stores have not changed (they reply alike to both, as
/// they answer by the lowercased path), give the same answer.
pub proof fn lemma_successive_path_lookups_agree(
    first_states: Seq<ListfileView>,
    first_stages: Seq<PathStage>,
    first_steps: Seq<LookupStep<u32>>,
    second_states: Seq<ListfileView>,
    second_stages: Seq<PathStage>,
    second_steps: Seq<LookupStep<u32>>,
    p: Seq<char>,
    q: Seq<char>,
    local: PathReply,
    community: PathReply,
)
    requires
        lowercase(p) == lowercase(q),
        path_lookup_ends(first_states, p, first_stages, first_steps, local, community),
        path_lookup_ends(second_states, q, second_stages, second_steps, local, community),
        second_states[0] == first_states.last(),
    ensures
        second_steps.last().next == first_steps.last().next,
{
    lemma_path_lookup_answer(first_states, p, first_stages, first_steps, local, community);
    lemma_path_lookup_answer(second_states, q, second_stages, second_steps, local, community);
}


/// Law: memory answers a path only for the spellings of a remembered path.
/// When remembering `stored` makes memory hold the key of `path`, which it
/// did not hold before, the two have the same length and differ at most in
/// the case of ASCII letters.
pub proof fn lemma_path_hit_only_by_case(v: CachedListfileView, fdid: u32, stored: Seq<char>, path: Seq<char>)
    requires
        !v.by_path.contains_key(path_key(path)),
        remember(v, fdid, stored).by_path.contains_key(path_key(path)),
    ensures
        path.len() == stored.len(),
        forall|i: int| 0 <= i < path.len() ==> same_ignoring_ascii_case(#[trigger] path[i], stored[i]),
{
    assert(path_key(path) == path_key(stored));
    lemma_same_lowercase_only_by_case(path, stored);
}

/// Law: the community listfile chosen is the first that exists of the full
/// listfile under the source root, under the shared root, the limited one
/// under the source root, under the shared root; when none exists, the full
/// listfile's place under the shared root.
pub proof fn lemma_community_listfile_choice(paths: PathsView, s: ListfileSources)
    ensures
        s.community_in_source ==> chosen_community_listfile(paths, s)
            == joined(paths.source_data_root, "community-listfile.csv"@),
        !s.community_in_source && s.community_in_shared ==> chosen_community_listfile(paths, s)
            == joined(paths.shared_data_root, "community-listfile.csv"@),
        !s.community_in_source && !s.community_in_shared && s.limited_in_source
            ==> chosen_community_listfile(paths, s) == joined(paths.source_data_root, "wow-ui-sim-listfile.csv"@),
        !s.community_in_source && !s.community_in_shared && !s.limited_in_source && s.limited_in_shared
            ==> chosen_community_listfile(paths, s) == joined(paths.shared_data_root, "wow-ui-sim-listfile.csv"@),
        !s.community_in_source && !s.community_in_shared && !s.limited_in_source && !s.limited_in_shared
            ==> chosen_community_listfile(paths, s) == joined(paths.shared_data_root, "community-listfile.csv"@),
{
    reveal_strlit("community-listfile.csv");
    reveal_strlit("wow-ui-sim-listfile.csv");
    assert("community-listfile.csv"@ =~= community_file_name());
    assert("wow-ui-sim-listfile.csv"@ =~= limited_file_name());
}

} // verus!
