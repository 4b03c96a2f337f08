//! Where the WoW installation is looked for, and the rules the CASC reader
//! follows on the bytes it reads and the files it writes.

use vstd::prelude::*;

use crate::paths::opt_str;
use crate::text::{append_str, join_path, joined, owned};

verus! {

/// What `std::path::Path::parent` gives for a path: the path without its
/// last component, or `None` for a root or an empty path.
pub uninterp spec fn path_parent(path: Seq<char>) -> Option<Seq<char>>;

/// The parent directory of a path.
///
/// Wraps `std::path::Path::parent`; the contract claims that the result, by
/// its characters, is the named outcome of that function on the argument.
#[verifier::external_body]
fn parent_of(path: &str) -> (res: Option<String>)
    ensures
        match res {
            Some(p) => path_parent(path@) == Some(p@),
            None => path_parent(path@) is None,
        },
{
    match std::path::Path::new(path).parent() {
        Some(p) => Some(p.to_string_lossy().into_owned()),
        None => None,
    }
}

/// Installation places tried on every machine, in order.
pub open spec fn fixed_install_paths() -> Seq<Seq<char>> {
    seq![
        "/syncthing/World of Warcraft"@,
        "/mnt/c/Program Files (x86)/World of Warcraft"@,
        "/mnt/c/World of Warcraft"@,
        "/Applications/World of Warcraft"@,
    ]
}

/// Installation places under the user's home directory, in order.
pub open spec fn home_install_paths(home: Seq<char>) -> Seq<Seq<char>> {
    seq![
        joined(home, "Games/world-of-warcraft/drive_c/Program Files (x86)/World of Warcraft"@),
        joined(home, ".wine/drive_c/Program Files (x86)/World of Warcraft"@),
        joined(home, ".wine/drive_c/World of Warcraft"@),
        joined(home, ".local/share/lutris/runners/wine/World of Warcraft"@),
    ]
}

/// The built-in installation places: the fixed ones, then those under the
/// home directory when it is known.
pub open spec fn builtin_install_paths(home: Option<Seq<char>>) -> Seq<Seq<char>> {
    fixed_install_paths() + match home {
        Some(h) => home_install_paths(h),
        None => Seq::empty(),
    }
}

/// The characters of each string of a list.
pub open spec fn views_of(v: Seq<String>) -> Seq<Seq<char>> {
    v.map_values(|s: String| s@)
}

/// Lists the built-in installation places.
pub fn candidate_install_paths(home: Option<&str>) -> (res: Vec<String>)
    ensures
        views_of(res@) == builtin_install_paths(opt_str(home)),
{
    let mut res: Vec<String> = Vec::new();
    res.push(owned("/syncthing/World of Warcraft"));
    res.push(owned("/mnt/c/Program Files (x86)/World of Warcraft"));
    res.push(owned("/mnt/c/World of Warcraft"));
    res.push(owned("/Applications/World of Warcraft"));
    match home {
        Some(h) => {
            res.push(join_path(h, "Games/world-of-warcraft/drive_c/Program Files (x86)/World of Warcraft"));
            res.push(join_path(h, ".wine/drive_c/Program Files (x86)/World of Warcraft"));
            res.push(join_path(h, ".wine/drive_c/World of Warcraft"));
            res.push(join_path(h, ".local/share/lutris/runners/wine/World of Warcraft"));
        },
        None => {},
    }
    assert(views_of(res@) =~= builtin_install_paths(opt_str(home)));
    res
}

/// The order in which installation places are tried: the `WOW_INSTALL_PATH`
/// variable, the parent of the `WOW_DATA_PATH` variable, then the built-in
/// places.
pub open spec fn install_search_order(
    install_var: Option<Seq<char>>,
    data_var: Option<Seq<char>>,
    home: Option<Seq<char>>,
) -> Seq<Seq<char>> {
    let first: Seq<Seq<char>> = match install_var {
        Some(p) => seq![p],
        None => Seq::empty(),
    };
    let second: Seq<Seq<char>> = match data_var {
        Some(d) => match path_parent(d) {
            Some(p) => seq![p],
            None => Seq::empty(),
        },
        None => Seq::empty(),
    };
    first + second + builtin_install_paths(home)
}

/// Law: installation places are tried in this order: the `WOW_INSTALL_PATH`
/// value when set, then the parent of the `WOW_DATA_PATH` value when it has
/// one, then the four fixed places, then, when the home directory is known,
/// the four places under it.
pub proof fn lemma_install_search_order(install_var: Option<Seq<char>>, data_var: Option<Seq<char>>, home: Option<Seq<char>>)
    ensures
        ({
            let order = install_search_order(install_var, data_var, home);
            let a: int = if install_var is Some { 1 } else { 0 };
            let b: int = if data_var matches Some(d) && path_parent(d) is Some { 1 } else { 0 };
            &&& order.len() == a + b + 4 + (if home is Some { 4int } else { 0int })
            &&& (install_var matches Some(p) ==> order[0] == p)
            &&& match data_var {
                Some(d) => match path_parent(d) {
                    Some(q) => order[a] == q,
                    None => true,
                },
                None => true,
            }
            &&& order[a + b] == "/syncthing/World of Warcraft"@
            &&& order[a + b + 1] == "/mnt/c/Program Files (x86)/World of Warcraft"@
            &&& order[a + b + 2] == "/mnt/c/World of Warcraft"@
            &&& order[a + b + 3] == "/Applications/World of Warcraft"@
            &&& (home matches Some(h) ==> order[a + b + 4] == joined(h, "Games/world-of-warcraft/drive_c/Program Files (x86)/World of Warcraft"@)
                && order[a + b + 7] == joined(h, ".local/share/lutris/runners/wine/World of Warcraft"@))
        }),
{
    let order = install_search_order(install_var, data_var, home);
    let first: Seq<Seq<char>> = match install_var {
        Some(p) => seq![p],
        None => Seq::empty(),
    };
    let second: Seq<Seq<char>> = match data_var {
        Some(d) => match path_parent(d) {
            Some(p) => seq![p],
            None => Seq::empty(),
        },
        None => Seq::empty(),
    };
    let bi = builtin_install_paths(home);
    let a: int = if install_var is Some { 1 } else { 0 };
    let b: int = if data_var matches Some(d) && path_parent(d) is Some { 1 } else { 0 };
    assert(order == first + second + bi);
    assert(first.len() == a);
    assert(second.len() == b);
    assert forall|i: int| 0 <= i < bi.len() implies order[a + b + i] == bi[i] by {
        assert((first + second + bi)[a + b + i] == bi[i]);
    }
    if let Some(h) = home {
        assert(bi == fixed_install_paths() + home_install_paths(h));
        assert(bi[4] == home_install_paths(h)[0]);
        assert(bi[7] == home_install_paths(h)[3]);
        assert(order[a + b + 4] == bi[4]);
        assert(order[a + b + 7] == bi[7]);
    }
    assert(bi[0] == fixed_install_paths()[0]);
    assert(bi[3] == fixed_install_paths()[3]);
    assert(order[a + b] == bi[0]);
    assert(order[a + b + 1] == bi[1]);
    assert(order[a + b + 2] == bi[2]);
    assert(order[a + b + 3] == bi[3]);
    if let Some(p) = install_var {
        assert(order[0] == first[0]);
    }
    if data_var matches Some(d) && path_parent(d) is Some {
        assert(order[a] == second[0]);
    }
}

/// Lists the installation places in the order they are tried.
pub fn install_path_candidates(install_var: Option<&str>, data_var: Option<&str>, home: Option<&str>) -> (res: Vec<String>)
    ensures
        views_of(res@) == install_search_order(opt_str(install_var), opt_str(data_var), opt_str(home)),
{
    let mut res: Vec<String> = Vec::new();
    match install_var {
        Some(p) => res.push(owned(p)),
        None => {},
    }
    match data_var {
        Some(d) => match parent_of(d) {
            Some(p) => res.push(p),
            None => {},
        },
        None => {},
    }
    let builtin = candidate_install_paths(home);
    let ghost before = res@;
    let mut i: usize = 0;
    while i < builtin.len()
        invariant
            i <= builtin.len(),
            views_of(builtin@) == builtin_install_paths(opt_str(home)),
            res@ == before + builtin@.subrange(0, i as int),
        decreases builtin.len() - i,
    {
        res.push(builtin[i].clone());
        assert(builtin@.subrange(0, i + 1) =~= builtin@.subrange(0, i as int).push(builtin@[i as int]));
        i = i + 1;
    }
    assert(builtin@.subrange(0, i as int) =~= builtin@);
    assert(views_of(res@) =~= install_search_order(opt_str(install_var), opt_str(data_var), opt_str(home)));
    res
}

/// The first place that holds a valid installation, each place paired with
/// whether it does.
pub open spec fn first_valid(candidates: Seq<(String, bool)>) -> Option<Seq<char>>
    decreases candidates.len(),
{
    if candidates.len() == 0 {
        None
    } else if candidates[0].1 {
        Some(candidates[0].0@)
    } else {
        first_valid(candidates.drop_first())
    }
}

/// Law: the installation chosen is the first valid candidate. There is one
/// exactly when some candidate is valid, and it is the path of the valid
/// candidate with the lowest index.
pub proof fn lemma_first_valid_is_lowest_valid(candidates: Seq<(String, bool)>)
    ensures
        first_valid(candidates) is None <==> forall|j: int| 0 <= j < candidates.len() ==> !(#[trigger] candidates[j]).1,
        first_valid(candidates) matches Some(p) ==> exists|j: int| {
            &&& 0 <= j < candidates.len()
            &&& (#[trigger] candidates[j]).1
            &&& candidates[j].0@ == p
            &&& forall|k: int| 0 <= k < j ==> !(#[trigger] candidates[k]).1
        },
    decreases candidates.len(),
{
    if candidates.len() > 0 {
        let rest = candidates.drop_first();
        lemma_first_valid_is_lowest_valid(rest);
        assert forall|j: int| 0 <= j < rest.len() implies rest[j] == candidates[j + 1] by {}
        if candidates[0].1 {
            assert(candidates[0].1);
        } else {
            if first_valid(rest) is None {
                assert forall|j: int| 0 <= j < candidates.len() implies !(#[trigger] candidates[j]).1 by {
                    if j > 0 {
                        assert(candidates[j] == rest[j - 1]);
                    }
                }
            } else {
                let p = first_valid(rest)->0;
                let j = choose|j: int| {
                    &&& 0 <= j < rest.len()
                    &&& (#[trigger] rest[j]).1
                    &&& rest[j].0@ == p
                    &&& forall|k: int| 0 <= k < j ==> !(#[trigger] rest[k]).1
                };
                assert(candidates[j + 1] == rest[j]);
                assert forall|k: int| 0 <= k < j + 1 implies !(#[trigger] candidates[k]).1 by {
                    if k > 0 {
                        assert(candidates[k] == rest[k - 1]);
                    }
                }
            }
        }
    }
}

/// Picks the installation root: the first place, in search order, that holds
/// a valid installation.
pub fn discover_wow_install_path(candidates: &Vec<(String, bool)>) -> (res: Option<String>)
    ensures
        match res {
            Some(p) => first_valid(candidates@) == Some(p@),
            None => first_valid(candidates@) is None,
        },
        res is None <==> forall|j: int| 0 <= j < candidates@.len() ==> !(#[trigger] candidates@[j]).1,
        res matches Some(p) ==> exists|j: int| {
            &&& 0 <= j < candidates@.len()
            &&& (#[trigger] candidates@[j]).1
            &&& candidates@[j].0@ == p@
            &&& forall|k: int| 0 <= k < j ==> !(#[trigger] candidates@[k]).1
        },
{
    let mut i: usize = 0;
    assert(candidates@.subrange(0, candidates@.len() as int) =~= candidates@);
    while i < candidates.len()
        invariant
            i <= candidates.len(),
            first_valid(candidates@.subrange(i as int, candidates.len() as int)) == first_valid(candidates@),
        decreases candidates.len() - i,
    {
        let ghost rest = candidates@.subrange(i as int, candidates.len() as int);
        assert(rest.drop_first() =~= candidates@.subrange(i + 1, candidates.len() as int));
        if candidates[i].1 {
            proof {
                lemma_first_valid_is_lowest_valid(candidates@);
            }
            return Some(candidates[i].0.clone());
        }
        i = i + 1;
    }
    proof {
        lemma_first_valid_is_lowest_valid(candidates@);
    }
    None
}

/// The `Data` directory of an installation root.
pub fn wow_data_path(install_root: Option<&str>) -> (res: Option<String>)
    ensures
        match res {
            Some(d) => install_root matches Some(r) && d@ == joined(r@, "Data"@),
            None => install_root is None,
        },
{
    match install_root {
        Some(r) => Some(join_path(r, "Data")),
        None => None,
    }
}

/// The directory that holds the archive indices and blobs of an
/// installation; an installation is valid when it exists.
pub fn wow_archive_dir(install_root: &str) -> (res: String)
    ensures
        res@ == joined(joined(install_root@, "Data"@), "data"@),
{
    let data = join_path(install_root, "Data");
    join_path(data.as_str(), "data")
}

/// The error given when no installation was found for local archive access.
pub open spec fn no_install_for_archives() -> Seq<char> {
    "WoW install not found for local archive access"@
}

/// The error given when no installation was found to read CASC from.
pub open spec fn no_install_for_casc() -> Seq<char> {
    "WoW install not found (set WOW_INSTALL_PATH or WOW_DATA_PATH, or place install at one of the default locations)"@
}

/// The archive directory to open for local archive access, or the error when
/// no installation was found.
pub fn local_archive_dir(install_root: Option<&str>) -> (res: Result<String, String>)
    ensures
        match res {
            Ok(d) => install_root matches Some(r) && d@ == joined(joined(r@, "Data"@), "data"@),
            Err(e) => install_root is None && e@ == no_install_for_archives(),
        },
{
    match install_root {
        Some(r) => Ok(wow_archive_dir(r)),
        None => Err(owned("WoW install not found for local archive access")),
    }
}

/// The `Data` directory to open CASC storage from, or the error when no
/// installation was found.
pub fn casc_data_root(install_root: Option<&str>) -> (res: Result<String, String>)
    ensures
        match res {
            Ok(d) => install_root matches Some(r) && d@ == joined(r@, "Data"@),
            Err(e) => install_root is None && e@ == no_install_for_casc(),
        },
{
    match install_root {
        Some(r) => Ok(join_path(r, "Data")),
        None => Err(owned(
            "WoW install not found (set WOW_INSTALL_PATH or WOW_DATA_PATH, or place install at one of the default locations)",
        )),
    }
}

/// The size of the header that local archives put before a BLTE container.
pub const LOCAL_CASC_HEADER_SIZE: usize = 30;

/// The signature that opens a BLTE container.
pub open spec fn blte_magic() -> Seq<u8> {
    seq![0x42u8, 0x4cu8, 0x54u8, 0x45u8]
}

/// Where the BLTE container starts in bytes read from a local archive: after
/// the local header when the signature follows it, else at the start.
pub open spec fn blte_offset(raw: Seq<u8>) -> int {
    if raw.len() >= 34 && raw.subrange(30, 34) == blte_magic() {
        30
    } else {
        0
    }
}

/// Law: the BLTE container starts after the 30-byte local header exactly
/// when the bytes `B`, `L`, `T`, `E` follow that header, and at the start
/// otherwise.
pub proof fn lemma_blte_offset_after_header(raw: Seq<u8>)
    ensures
        (raw.len() >= 34 && raw[30] == 0x42u8 && raw[31] == 0x4cu8 && raw[32] == 0x54u8 && raw[33] == 0x45u8)
            ==> blte_offset(raw) == 30,
        !(raw.len() >= 34 && raw[30] == 0x42u8 && raw[31] == 0x4cu8 && raw[32] == 0x54u8 && raw[33] == 0x45u8)
            ==> blte_offset(raw) == 0,
{
    if raw.len() >= 34 {
        if raw[30] == 0x42u8 && raw[31] == 0x4cu8 && raw[32] == 0x54u8 && raw[33] == 0x45u8 {
            assert(raw.subrange(30, 34) =~= blte_magic());
        } else if raw.subrange(30, 34) == blte_magic() {
            assert(raw.subrange(30, 34)[0] == raw[30]);
            assert(raw.subrange(30, 34)[1] == raw[31]);
            assert(raw.subrange(30, 34)[2] == raw[32]);
            assert(raw.subrange(30, 34)[3] == raw[33]);
        }
    }
}

/// Finds where the BLTE container starts in bytes read from a local archive.
pub fn blte_payload_offset(raw: &[u8]) -> (res: usize)
    ensures
        res == blte_offset(raw@),
{
    let h = LOCAL_CASC_HEADER_SIZE;
    if raw.len() >= h + 4 && raw[h] == 0x42u8 && raw[h + 1] == 0x4cu8 && raw[h + 2] == 0x54u8
        && raw[h + 3] == 0x45u8 {
        assert(raw@.subrange(30, 34) =~= blte_magic());
        h
    } else {
        proof {
            if raw@.len() >= 34 && raw@.subrange(30, 34) == blte_magic() {
                assert(raw@.subrange(30, 34)[0] == raw@[30]);
                assert(raw@.subrange(30, 34)[1] == raw@[31]);
                assert(raw@.subrange(30, 34)[2] == raw@[32]);
                assert(raw@.subrange(30, 34)[3] == raw@[33]);
            }
        }
        0
    }
}

/// What `std::path::Path::extension` gives for a path, as text: the
/// extension of its file name, or `None` when it has none.
pub uninterp spec fn path_extension(path: Seq<char>) -> Option<Seq<char>>;

/// What `std::path::Path::with_extension` gives for a path and an extension.
pub uninterp spec fn path_with_extension(path: Seq<char>, ext: Seq<char>) -> Seq<char>;

/// The extension of a path's file name.
///
/// Wraps `std::path::Path::extension`; the contract claims that the result,
/// by its characters, is the named outcome of that function on the argument,
/// and that an extension holds no `/`: it is part of the file name, the last
/// component, and `/` separates components.
#[verifier::external_body]
fn extension_of_path(path: &str) -> (res: Option<String>)
    ensures
        match res {
            Some(e) => path_extension(path@) == Some(e@) && !e@.contains('/'),
            None => path_extension(path@) is None,
        },
{
    match std::path::Path::new(path).extension() {
        Some(e) => Some(e.to_string_lossy().into_owned()),
        None => None,
    }
}

/// A path with the extension of its file name replaced.
///
/// Wraps `std::path::Path::with_extension`; the contract claims that the
/// result, by its characters, is the named outcome of that function on the
/// two arguments. That function panics on an extension holding a path
/// separator, so the extension may not hold `/` (on Unix targets, the only
/// separator).
#[verifier::external_body]
fn replace_extension(path: &str, ext: &str) -> (res: String)
    requires
        !ext@.contains('/'),
    ensures
        res@ == path_with_extension(path@, ext@),
{
    std::path::Path::new(path).with_extension(ext).to_string_lossy().into_owned()
}

/// The marker that records a failed extraction: the cached path with
/// `.missing` added behind its extension.
pub open spec fn missing_marker(shared_path: Seq<char>) -> Seq<char> {
    let ext = match path_extension(shared_path) {
        Some(e) => e,
        None => Seq::empty(),
    };
    path_with_extension(shared_path, ext + ".missing"@)
}

/// Names the marker file that records a failed extraction of `shared_path`.
pub fn missing_marker_path(shared_path: &str) -> (res: String)
    ensures
        res@ == missing_marker(shared_path@),
{
    let mut ext = match extension_of_path(shared_path) {
        Some(e) => e,
        None => String::new(),
    };
    let ghost before = ext@;
    append_str(&mut ext, ".missing");
    proof {
        reveal_strlit(".missing");
        assert(!".missing"@.contains('/'));
        if ext@.contains('/') {
            let i = choose|i: int| 0 <= i < ext@.len() && ext@[i] == '/';
            if i < before.len() {
                assert(before[i] == '/');
                assert(before.contains('/'));
            } else {
                assert(".missing"@[i - before.len()] == '/');
            }
        }
    }
    replace_extension(shared_path, ext.as_str())
}


/// How a file asked for under the shared data root is served.
#[derive(Clone, Copy, Debug, PartialEq, Eq)]
pub enum CachedFileAction {
    /// The file is already there.
    UseCached,
    /// An earlier extraction failed and left its marker; nothing is served.
    KnownMissing,
    /// The file is to be extracted from the local installation; a failure
    /// leaves the marker.
    Extract,
}

/// How a file is served: from the shared data root when it is there, not at
/// all when its missing marker is there, else by extraction.
pub open spec fn file_action(shared_exists: bool, marker_exists: bool) -> CachedFileAction {
    if shared_exists {
        CachedFileAction::UseCached
    } else if marker_exists {
        CachedFileAction::KnownMissing
    } else {
        CachedFileAction::Extract
    }
}

/// Decides how a file is served. The marker is only consulted when the file
/// is absent.
pub fn cached_file_action(shared_exists: bool, marker_exists: bool) -> (res: CachedFileAction)
    ensures
        res == file_action(shared_exists, marker_exists),
{
    if shared_exists {
        CachedFileAction::UseCached
    } else if marker_exists {
        CachedFileAction::KnownMissing
    } else {
        CachedFileAction::Extract
    }
}

/// What follows an extraction of a file to its place under the shared root.
pub enum ExtractionFollowUp {
    /// The file was extracted: serve it from this path.
    Serve(String),
    /// The extraction failed: write an empty marker file at this path and
    /// serve nothing.
    WriteMarker(String),
}

/// Decides what follows the extraction of the file at `shared_path`: serve
/// the extracted file, or record the failure with the file's missing marker.
pub fn after_extraction(shared_path: &str, outcome: Result<String, String>) -> (res: ExtractionFollowUp)
    ensures
        match outcome {
            Ok(p) => res matches ExtractionFollowUp::Serve(s) && s@ == p@,
            Err(_) => res matches ExtractionFollowUp::WriteMarker(m) && m@ == missing_marker(shared_path@),
        },
{
    match outcome {
        Ok(p) => ExtractionFollowUp::Serve(p),
        Err(_) => ExtractionFollowUp::WriteMarker(missing_marker_path(shared_path)),
    }
}

/// Law: a failed extraction is not retried. The marker that `after_extraction`
/// names for a failure is `missing_marker` of the file's place, the same one
/// that serving the file consults; once it exists, the file is never
/// extracted again, and while the file is absent nothing is served.
pub proof fn lemma_marked_file_is_not_extracted(shared_exists: bool)
    ensures
        file_action(shared_exists, true) != CachedFileAction::Extract,
        !shared_exists ==> file_action(shared_exists, true) == CachedFileAction::KnownMissing,
{
}

/// A piece of state that is set up once: not yet tried, set up, or failed
/// with an error that is kept.
pub enum LazyInit<T> {
    Uninitialized,
    Initialized(T),
    Failed(String),
}

/// What to do before using a piece of state that is set up once.
pub enum InitCheck {
    /// It is set up; use it.
    Ready,
    /// Setting it up failed before; give this error again.
    Failed(String),
    /// It was never tried; try to set it up now.
    Attempt,
}

impl<T> LazyInit<T> {
    /// Decides whether the state is ready, failed for good, or to be set up.
    /// A failure is never retried.
    pub fn check(&self) -> (res: InitCheck)
        ensures
            match *self {
                LazyInit::Uninitialized => res is Attempt,
                LazyInit::Initialized(_) => res is Ready,
                LazyInit::Failed(e) => res == InitCheck::Failed(e),
            },
    {
        match self {
            LazyInit::Uninitialized => InitCheck::Attempt,
            LazyInit::Initialized(_) => InitCheck::Ready,
            LazyInit::Failed(e) => InitCheck::Failed(e.clone()),
        }
    }

    /// Records the outcome of setting the state up: the value on success, the
    /// error on failure.
    pub fn record(&mut self, outcome: Result<T, String>)
        ensures
            match outcome {
                Ok(v) => *final(self) == LazyInit::<T>::Initialized(v),
                Err(e) => *final(self) == LazyInit::<T>::Failed(e),
            },
    {
        *self = match outcome {
            Ok(v) => LazyInit::Initialized(v),
            Err(e) => LazyInit::Failed(e),
        };
    }
}

/// Law: set-up happens at most once. After any recorded outcome, a check never
/// asks for another attempt, and a recorded failure is given back as it was.
pub proof fn lemma_setup_is_attempted_once<T>(state: LazyInit<T>, outcome: Result<T, String>, next: LazyInit<T>)
    requires
        match outcome {
            Ok(v) => next == LazyInit::<T>::Initialized(v),
            Err(e) => next == LazyInit::<T>::Failed(e),
        },
    ensures
        !(next is Uninitialized),
        outcome matches Err(e) ==> next == LazyInit::<T>::Failed(e),
{
}


/// What to do before using local archive access: use it, give an error, or
/// load the archives of this directory and record the outcome.
pub enum AccessPlan {
    UseReady,
    GiveError(String),
    Load(String),
}

/// An access plan by its characters.
pub enum AccessPlanView {
    UseReady,
    GiveError(Seq<char>),
    Load(Seq<char>),
}

/// The characters of an access plan.
pub open spec fn plan_view(p: AccessPlan) -> AccessPlanView {
    match p {
        AccessPlan::UseReady => AccessPlanView::UseReady,
        AccessPlan::GiveError(e) => AccessPlanView::GiveError(e@),
        AccessPlan::Load(d) => AccessPlanView::Load(d@),
    }
}

/// The plan for local archive access: set up access is used; a failed set-up
/// gives its error again; otherwise the archives under the installation are
/// loaded, or, with no installation, the missing-install error is given and
/// nothing is recorded, so a later call tries again.
pub open spec fn access_plan<T>(state: LazyInit<T>, install_root: Option<Seq<char>>) -> AccessPlanView {
    match state {
        LazyInit::Initialized(_) => AccessPlanView::UseReady,
        LazyInit::Failed(e) => AccessPlanView::GiveError(e@),
        LazyInit::Uninitialized => match install_root {
            None => AccessPlanView::GiveError(no_install_for_archives()),
            Some(r) => AccessPlanView::Load(joined(joined(r, "Data"@), "data"@)),
        },
    }
}

/// Plans local archive access from its once-only state, which it leaves as
/// it is; only a `Load` plan is followed by `record`.
pub fn plan_local_access<T>(state: &LazyInit<T>, install_root: Option<&str>) -> (res: AccessPlan)
    ensures
        plan_view(res) == access_plan(*state, opt_str(install_root)),
{
    match state.check() {
        InitCheck::Ready => AccessPlan::UseReady,
        InitCheck::Failed(e) => AccessPlan::GiveError(e),
        InitCheck::Attempt => match local_archive_dir(install_root) {
            Ok(d) => AccessPlan::Load(d),
            Err(e) => AccessPlan::GiveError(e),
        },
    }
}

/// Law: archives are loaded at most once. Only an unset state plans a load;
/// a missing installation gives its error and leaves the state unset, so a
/// later call with an installation loads; once a load's outcome is recorded,
/// no plan loads again, and a recorded failure is given back as it was.
pub proof fn lemma_archives_load_at_most_once<T>(
    state: LazyInit<T>,
    install_root: Option<Seq<char>>,
    outcome: Result<T, String>,
    next: LazyInit<T>,
    later_root: Option<Seq<char>>,
)
    requires
        match outcome {
            Ok(v) => next == LazyInit::<T>::Initialized(v),
            Err(e) => next == LazyInit::<T>::Failed(e),
        },
    ensures
        access_plan(state, install_root) is Load ==> state is Uninitialized,
        access_plan(LazyInit::<T>::Uninitialized, None) == AccessPlanView::GiveError(no_install_for_archives()),
        later_root is Some ==> access_plan(LazyInit::<T>::Uninitialized, later_root) is Load,
        !(access_plan(next, later_root) is Load),
        outcome matches Err(e) ==> access_plan(next, later_root) == AccessPlanView::GiveError(e@),
{
}

} // verus!
