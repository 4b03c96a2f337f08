//! Where the resolver keeps its data: the source data root, the shared data
//! root and the extraction cache root, and the paths derived from them.

use vstd::prelude::*;

use crate::text::{join_path, joined, owned};

verus! {

/// The characters of an optional owned string.
pub open spec fn opt_chars(o: Option<String>) -> Option<Seq<char>> {
    match o {
        Some(s) => Some(s@),
        None => None,
    }
}

/// The value of `first` if there is one, else that of `second`, else `fallback`.
pub open spec fn first_of(first: Option<Seq<char>>, second: Option<Seq<char>>, fallback: Seq<char>) -> Seq<char> {
    match first {
        Some(a) => a,
        None => match second {
            Some(b) => b,
            None => fallback,
        },
    }
}

/// Explicit locations chosen by the caller; each one left out is taken from
/// the environment or from a default.
#[derive(Debug, Clone)]
pub struct AssetResolverConfig {
    source_data_root: Option<String>,
    shared_data_root: Option<String>,
    cache_root: Option<String>,
}

/// The locations a configuration names, by their characters.
pub struct ConfigView {
    pub source_data_root: Option<Seq<char>>,
    pub shared_data_root: Option<Seq<char>>,
    pub cache_root: Option<Seq<char>>,
}

impl View for AssetResolverConfig {
    type V = ConfigView;

    closed spec fn view(&self) -> ConfigView {
        ConfigView {
            source_data_root: opt_chars(self.source_data_root),
            shared_data_root: opt_chars(self.shared_data_root),
            cache_root: opt_chars(self.cache_root),
        }
    }
}

impl Default for AssetResolverConfig {
    fn default() -> (res: Self)
        ensures
            res@.source_data_root is None,
            res@.shared_data_root is None,
            res@.cache_root is None,
    {
        AssetResolverConfig { source_data_root: None, shared_data_root: None, cache_root: None }
    }
}

impl AssetResolverConfig {
    /// A configuration that names no location.
    pub fn new() -> (res: Self)
        ensures
            res@.source_data_root is None,
            res@.shared_data_root is None,
            res@.cache_root is None,
    {
        AssetResolverConfig { source_data_root: None, shared_data_root: None, cache_root: None }
    }

    /// Sets the source data root and keeps the other locations.
    pub fn with_data_root(self, path: &str) -> (res: Self)
        ensures
            res@.source_data_root == Some(path@),
            res@.shared_data_root == self@.shared_data_root,
            res@.cache_root == self@.cache_root,
    {
        AssetResolverConfig { source_data_root: Some(owned(path)), ..self }
    }

    /// Sets the shared data root and keeps the other locations.
    pub fn with_shared_data_root(self, path: &str) -> (res: Self)
        ensures
            res@.shared_data_root == Some(path@),
            res@.source_data_root == self@.source_data_root,
            res@.cache_root == self@.cache_root,
    {
        AssetResolverConfig { shared_data_root: Some(owned(path)), ..self }
    }

    /// Sets the extraction cache root and keeps the other locations.
    pub fn with_cache_root(self, path: &str) -> (res: Self)
        ensures
            res@.cache_root == Some(path@),
            res@.source_data_root == self@.source_data_root,
            res@.shared_data_root == self@.shared_data_root,
    {
        AssetResolverConfig { cache_root: Some(owned(path)), ..self }
    }
}

/// What the process environment says about the resolver's locations: the
/// `ASSET_RESOLVER_DATA_DIR`, `ASSET_RESOLVER_SHARED_DATA_DIR` and
/// `ASSET_RESOLVER_CACHE_DIR` variables, the source data root found among the
/// runtime candidates, and the user's cache directory.
#[derive(Debug, Clone)]
pub struct ResolverEnvironment {
    pub data_dir: Option<String>,
    pub shared_data_dir: Option<String>,
    pub cache_dir: Option<String>,
    pub default_source_data_root: String,
    pub default_cache_root: String,
}

/// What `std::path::Path::strip_prefix` gives for `path` and `base`: the
/// rest of `path` behind the whole components of `base`, or `None` when
/// `base` is not a component-wise prefix of `path`.
pub uninterp spec fn path_stripped(path: Seq<char>, base: Seq<char>) -> Option<Seq<char>>;

/// Removes the leading components `base` from `path`.
///
/// Wraps `std::path::Path::strip_prefix`. The contract claims only that the
/// result, by its characters, is the named outcome of that function on the
/// two arguments; the component rules themselves are left to std.
#[verifier::external_body]
fn strip_path_prefix(path: &str, base: &str) -> (res: Option<String>)
    ensures
        opt_chars(res) == path_stripped(path@, base@),
{
    match std::path::Path::new(path).strip_prefix(base) {
        Ok(rest) => Some(rest.to_string_lossy().into_owned()),
        Err(_) => None,
    }
}

/// Where a path under the source data root, or under the relative `data`
/// directory, lies under the shared data root; other paths stay as they are.
pub open spec fn remapped(paths: PathsView, path: Seq<char>) -> Seq<char> {
    match path_stripped(path, paths.source_data_root) {
        Some(rest) => joined(paths.shared_data_root, rest),
        None => match path_stripped(path, data_dir_name()) {
            Some(rest) => joined(paths.shared_data_root, rest),
            None => path,
        },
    }
}

/// The three roots the resolver works from.
#[derive(Debug, Clone)]
pub struct ResolverPaths {
    source_data_root: String,
    shared_data_root: String,
    cache_root: String,
}

/// The three roots by their characters.
pub struct PathsView {
    pub source_data_root: Seq<char>,
    pub shared_data_root: Seq<char>,
    pub cache_root: Seq<char>,
}

impl View for ResolverPaths {
    type V = PathsView;

    closed spec fn view(&self) -> PathsView {
        PathsView {
            source_data_root: self.source_data_root@,
            shared_data_root: self.shared_data_root@,
            cache_root: self.cache_root@,
        }
    }
}

/// The directory under the user's cache directory that holds the resolver's cache.
pub open spec fn cache_dir_name() -> Seq<char> {
    seq!['a', 's', 's', 'e', 't', '-', 'r', 'e', 's', 'o', 'l', 'v', 'e', 'r']
}

/// The directory under the cache root that holds shared data by default.
pub open spec fn data_dir_name() -> Seq<char> {
    seq!['d', 'a', 't', 'a']
}

/// The directory under the cache root that holds CASC caches.
pub open spec fn casc_dir_name() -> Seq<char> {
    seq!['c', 'a', 's', 'c']
}

/// The extraction cache root: the configured one, else the environment's,
/// else `asset-resolver` under the user's cache directory.
pub open spec fn chosen_cache_root(config: ConfigView, env: ResolverEnvironment) -> Seq<char> {
    first_of(config.cache_root, opt_chars(env.cache_dir), joined(env.default_cache_root@, cache_dir_name()))
}

/// Law: each root is taken from the configuration when it names one, else
/// from the environment variable, else from its default: the source root
/// found at run time, `asset-resolver` under the user's cache directory, and
/// `data` under the chosen cache root.
pub proof fn lemma_root_precedence(config: ConfigView, env: ResolverEnvironment)
    ensures
        config.source_data_root matches Some(c) ==> first_of(config.source_data_root, opt_chars(env.data_dir), env.default_source_data_root@) == c,
        config.source_data_root is None ==> (env.data_dir matches Some(d) ==> first_of(config.source_data_root, opt_chars(env.data_dir), env.default_source_data_root@) == d@),
        config.source_data_root is None && env.data_dir is None ==> first_of(config.source_data_root, opt_chars(env.data_dir), env.default_source_data_root@) == env.default_source_data_root@,
        config.cache_root matches Some(c) ==> chosen_cache_root(config, env) == c,
        config.cache_root is None ==> (env.cache_dir matches Some(d) ==> chosen_cache_root(config, env) == d@),
        config.cache_root is None && env.cache_dir is None ==> chosen_cache_root(config, env) == joined(env.default_cache_root@, "asset-resolver"@),
        config.shared_data_root matches Some(c) ==> first_of(config.shared_data_root, opt_chars(env.shared_data_dir), joined(chosen_cache_root(config, env), data_dir_name())) == c,
        config.shared_data_root is None ==> (env.shared_data_dir matches Some(d) ==> first_of(config.shared_data_root, opt_chars(env.shared_data_dir), joined(chosen_cache_root(config, env), data_dir_name())) == d@),
        config.shared_data_root is None && env.shared_data_dir is None ==> first_of(config.shared_data_root, opt_chars(env.shared_data_dir), joined(chosen_cache_root(config, env), data_dir_name())) == joined(chosen_cache_root(config, env), "data"@),
{
    reveal_strlit("asset-resolver");
    reveal_strlit("data");
    assert("asset-resolver"@ =~= cache_dir_name());
    assert("data"@ =~= data_dir_name());
}

fn string_literal_data() -> (res: String)
    ensures
        res@ == data_dir_name(),
{
    let s = owned("data");
    proof {
        reveal_strlit("data");
    }
    assert(s@ =~= data_dir_name());
    s
}

fn string_literal_casc() -> (res: String)
    ensures
        res@ == casc_dir_name(),
{
    let s = owned("casc");
    proof {
        reveal_strlit("casc");
    }
    assert(s@ =~= casc_dir_name());
    s
}

fn string_literal_cache_dir() -> (res: String)
    ensures
        res@ == cache_dir_name(),
{
    let s = owned("asset-resolver");
    proof {
        reveal_strlit("asset-resolver");
    }
    assert(s@ =~= cache_dir_name());
    s
}

impl ResolverPaths {
    /// Settles the three roots. Each is taken from the configuration when it
    /// names one, else from the environment variable, else from a default:
    /// the source root found at run time, `asset-resolver` under the user's
    /// cache directory, and `data` under the cache root.
    pub fn from_config(config: AssetResolverConfig, env: &ResolverEnvironment) -> (res: Self)
        ensures
            res@.source_data_root == first_of(
                config@.source_data_root,
                opt_chars(env.data_dir),
                env.default_source_data_root@,
            ),
            res@.cache_root == chosen_cache_root(config@, *env),
            res@.shared_data_root == first_of(
                config@.shared_data_root,
                opt_chars(env.shared_data_dir),
                joined(chosen_cache_root(config@, *env), data_dir_name()),
            ),
    {
        let ghost cv = config@;
        let source_data_root = match config.source_data_root {
            Some(p) => p,
            None => match &env.data_dir {
                Some(p) => p.clone(),
                None => env.default_source_data_root.clone(),
            },
        };
        let cache_root = match config.cache_root {
            Some(p) => p,
            None => match &env.cache_dir {
                Some(p) => p.clone(),
                None => {
                    let name = string_literal_cache_dir();
                    join_path(env.default_cache_root.as_str(), name.as_str())
                },
            },
        };
        let shared_data_root = match config.shared_data_root {
            Some(p) => p,
            None => match &env.shared_data_dir {
                Some(p) => p.clone(),
                None => {
                    let name = string_literal_data();
                    join_path(cache_root.as_str(), name.as_str())
                },
            },
        };
        ResolverPaths { source_data_root, shared_data_root, cache_root }
    }

    /// The source data root.
    pub fn source_data_root(&self) -> (res: &str)
        ensures
            res@ == self@.source_data_root,
    {
        self.source_data_root.as_str()
    }

    /// The shared data root.
    pub fn shared_data_root(&self) -> (res: &str)
        ensures
            res@ == self@.shared_data_root,
    {
        self.shared_data_root.as_str()
    }

    /// The extraction cache root.
    pub fn cache_root(&self) -> (res: &str)
        ensures
            res@ == self@.cache_root,
    {
        self.cache_root.as_str()
    }

    /// Where `relative` lies under the source data root.
    pub fn source_data_path(&self, relative: &str) -> (res: String)
        ensures
            res@ == joined(self@.source_data_root, relative@),
    {
        join_path(self.source_data_root.as_str(), relative)
    }

    /// Where `relative` is read from: under the source data root when it
    /// exists there, else under the shared data root.
    pub fn resolve_data_path(&self, relative: &str, exists_in_source: bool) -> (res: String)
        ensures
            res@ == if exists_in_source {
                joined(self@.source_data_root, relative@)
            } else {
                joined(self@.shared_data_root, relative@)
            },
    {
        if exists_in_source {
            self.source_data_path(relative)
        } else {
            self.shared_data_path(relative)
        }
    }

    /// Where `relative` lies under the shared data root.
    pub fn shared_data_path(&self, relative: &str) -> (res: String)
        ensures
            res@ == joined(self@.shared_data_root, relative@),
    {
        join_path(self.shared_data_root.as_str(), relative)
    }

    /// Moves a path under the source data root (or under `data`) to the same
    /// place under the shared data root.
    pub fn remap_to_shared_data_path(&self, path: &str) -> (res: String)
        ensures
            res@ == remapped(self@, path@),
    {
        match strip_path_prefix(path, self.source_data_root.as_str()) {
            Some(rest) => return self.shared_data_path(rest.as_str()),
            None => {},
        }
        let data = string_literal_data();
        match strip_path_prefix(path, data.as_str()) {
            Some(rest) => self.shared_data_path(rest.as_str()),
            None => owned(path),
        }
    }

    /// The CASC cache directory of one product build: `casc/<product>/<build>`
    /// under the extraction cache root.
    pub fn casc_cache_path(&self, product: &str, build_key: &str) -> (res: String)
        ensures
            res@ == joined(joined(joined(self@.cache_root, casc_dir_name()), product@), build_key@),
    {
        let casc = string_literal_casc();
        let dir = join_path(self.cache_root.as_str(), casc.as_str());
        let dir = join_path(dir.as_str(), product);
        join_path(dir.as_str(), build_key)
    }
}

/// The CASC cache directory of one product build under the default roots.
pub fn casc_cache_path(defaults: &ResolverPaths, product: &str, build_key: &str) -> (res: String)
    ensures
        res@ == joined(joined(joined(defaults@.cache_root, casc_dir_name()), product@), build_key@),
{
    defaults.casc_cache_path(product, build_key)
}

/// The places searched for a source data root, in order: `data` under the
/// working directory, under the executable's directory, and under the
/// package's directory.
pub open spec fn data_candidates(cwd: Option<Seq<char>>, exe_dir: Option<Seq<char>>, package_dir: Seq<char>) -> Seq<Seq<char>> {
    let a: Seq<Seq<char>> = match cwd {
        Some(c) => seq![joined(c, data_dir_name())],
        None => Seq::empty(),
    };
    let b: Seq<Seq<char>> = match exe_dir {
        Some(e) => seq![joined(e, data_dir_name())],
        None => Seq::empty(),
    };
    a + b + seq![joined(package_dir, data_dir_name())]
}

/// The characters of an optional string slice.
pub open spec fn opt_str(o: Option<&str>) -> Option<Seq<char>> {
    match o {
        Some(s) => Some(s@),
        None => None,
    }
}

/// Law: the places searched for a source data root are, in this order,
/// `data` under the working directory when it is known, `data` under the
/// executable's directory when it is known, and `data` under the package's
/// directory, and nothing else.
pub proof fn lemma_data_candidates_order(cwd: Option<Seq<char>>, exe_dir: Option<Seq<char>>, package_dir: Seq<char>)
    ensures
        data_candidates(cwd, exe_dir, package_dir).len() == (if cwd is Some { 1int } else { 0int }) + (if exe_dir is Some {
            1int
        } else {
            0int
        }) + 1,
        cwd matches Some(c) ==> data_candidates(cwd, exe_dir, package_dir)[0] == joined(c, "data"@),
        exe_dir matches Some(e) ==> data_candidates(cwd, exe_dir, package_dir)[if cwd is Some {
            1int
        } else {
            0int
        }] == joined(e, "data"@),
        data_candidates(cwd, exe_dir, package_dir).last() == joined(package_dir, "data"@),
{
    reveal_strlit("data");
    assert("data"@ =~= data_dir_name());
}

/// Lists the places searched for a source data root.
pub fn runtime_data_candidates(cwd: Option<&str>, exe_dir: Option<&str>, package_dir: &str) -> (res: Vec<String>)
    ensures
        res@.map_values(|s: String| s@) == data_candidates(opt_str(cwd), opt_str(exe_dir), package_dir@),
        res@.len() == (if cwd is Some { 1int } else { 0int }) + (if exe_dir is Some { 1int } else { 0int }) + 1,
        cwd matches Some(c) ==> res@[0]@ == joined(c@, "data"@),
        exe_dir matches Some(e) ==> res@[if cwd is Some { 1int } else { 0int }]@ == joined(e@, "data"@),
        res@.last()@ == joined(package_dir@, "data"@),
{
    proof {
        lemma_data_candidates_order(opt_str(cwd), opt_str(exe_dir), package_dir@);
    }
    let data = string_literal_data();
    let mut res: Vec<String> = Vec::new();
    match cwd {
        Some(c) => res.push(join_path(c, data.as_str())),
        None => {},
    }
    match exe_dir {
        Some(e) => res.push(join_path(e, data.as_str())),
        None => {},
    }
    res.push(join_path(package_dir, data.as_str()));
    assert(res@.map_values(|s: String| s@) =~= data_candidates(opt_str(cwd), opt_str(exe_dir), package_dir@));
    res
}

/// The first candidate that exists, or `data` when none does.
pub open spec fn first_existing(candidates: Seq<(String, bool)>) -> Seq<char>
    decreases candidates.len(),
{
    if candidates.len() == 0 {
        data_dir_name()
    } else if candidates[0].1 {
        candidates[0].0@
    } else {
        first_existing(candidates.drop_first())
    }
}

/// Law: the source data root is the first candidate that exists, or the
/// relative `data` when none does.
pub proof fn lemma_first_existing_is_lowest(candidates: Seq<(String, bool)>)
    ensures
        (forall|j: int| 0 <= j < candidates.len() ==> !(#[trigger] candidates[j]).1) ==> first_existing(candidates)
            == "data"@,
        (exists|j: int| 0 <= j < candidates.len() && (#[trigger] candidates[j]).1) ==> exists|j: int| {
            &&& 0 <= j < candidates.len()
            &&& (#[trigger] candidates[j]).1
            &&& candidates[j].0@ == first_existing(candidates)
            &&& forall|k: int| 0 <= k < j ==> !(#[trigger] candidates[k]).1
        },
    decreases candidates.len(),
{
    reveal_strlit("data");
    assert("data"@ =~= data_dir_name());
    if candidates.len() > 0 {
        let rest = candidates.drop_first();
        lemma_first_existing_is_lowest(rest);
        if !candidates[0].1 {
            if forall|j: int| 0 <= j < candidates.len() ==> !(#[trigger] candidates[j]).1 {
                assert forall|j: int| 0 <= j < rest.len() implies !(#[trigger] rest[j]).1 by {
                    assert(rest[j] == candidates[j + 1]);
                }
            }
            if exists|j: int| 0 <= j < candidates.len() && (#[trigger] candidates[j]).1 {
                let j0 = choose|j: int| 0 <= j < candidates.len() && (#[trigger] candidates[j]).1;
                assert(rest[j0 - 1] == candidates[j0]);
                let j = choose|j: int| {
                    &&& 0 <= j < rest.len()
                    &&& (#[trigger] rest[j]).1
                    &&& rest[j].0@ == first_existing(rest)
                    &&& forall|k: int| 0 <= k < j ==> !(#[trigger] rest[k]).1
                };
                assert(candidates[j + 1] == rest[j]);
                assert forall|k: int| 0 <= k < j + 1 implies !(#[trigger] candidates[k]).1 by {
                    if k > 0 {
                        assert(candidates[k] == rest[k - 1]);
                    }
                }
            }
        }
    }
}

/// Picks the source data root from the candidates, each paired with whether
/// it exists.
pub fn default_source_data_root(candidates: &Vec<(String, bool)>) -> (res: String)
    ensures
        res@ == first_existing(candidates@),
        (forall|j: int| 0 <= j < candidates@.len() ==> !(#[trigger] candidates@[j]).1) ==> res@ == "data"@,
        (exists|j: int| 0 <= j < candidates@.len() && (#[trigger] candidates@[j]).1) ==> exists|j: int| {
            &&& 0 <= j < candidates@.len()
            &&& (#[trigger] candidates@[j]).1
            &&& candidates@[j].0@ == res@
            &&& forall|k: int| 0 <= k < j ==> !(#[trigger] candidates@[k]).1
        },
{
    let mut i: usize = 0;
    assert(candidates@.subrange(0, candidates@.len() as int) =~= candidates@);
    while i < candidates.len()
        invariant
            i <= candidates.len(),
            first_existing(candidates@.subrange(i as int, candidates.len() as int)) == first_existing(candidates@),
        decreases candidates.len() - i,
    {
        let ghost rest = candidates@.subrange(i as int, candidates.len() as int);
        assert(rest.drop_first() =~= candidates@.subrange(i + 1, candidates.len() as int));
        if candidates[i].1 {
            proof {
                lemma_first_existing_is_lowest(candidates@);
            }
            return candidates[i].0.clone();
        }
        i = i + 1;
    }
    proof {
        lemma_first_existing_is_lowest(candidates@);
    }
    string_literal_data()
}

/// The user's cache directory: `LOCALAPPDATA`, else `XDG_CACHE_HOME`, else
/// `.cache` under `HOME`, else the temporary directory.
pub open spec fn user_cache_root(
    local_app_data: Option<Seq<char>>,
    xdg_cache_home: Option<Seq<char>>,
    home: Option<Seq<char>>,
    temp_dir: Seq<char>,
) -> Seq<char> {
    match local_app_data {
        Some(d) => d,
        None => match xdg_cache_home {
            Some(d) => d,
            None => match home {
                Some(h) => joined(h, seq!['.', 'c', 'a', 'c', 'h', 'e']),
                None => temp_dir,
            },
        },
    }
}

/// Law: the user's cache directory is `LOCALAPPDATA` when set, else
/// `XDG_CACHE_HOME` when set, else `.cache` under `HOME` when set, else the
/// temporary directory.
pub proof fn lemma_user_cache_root_order(
    local_app_data: Option<Seq<char>>,
    xdg_cache_home: Option<Seq<char>>,
    home: Option<Seq<char>>,
    temp_dir: Seq<char>,
)
    ensures
        local_app_data matches Some(d) ==> user_cache_root(local_app_data, xdg_cache_home, home, temp_dir) == d,
        local_app_data is None ==> (xdg_cache_home matches Some(d) ==> user_cache_root(local_app_data, xdg_cache_home, home, temp_dir) == d),
        local_app_data is None && xdg_cache_home is None ==> (home matches Some(h) ==> user_cache_root(local_app_data, xdg_cache_home, home, temp_dir) == joined(h, ".cache"@)),
        local_app_data is None && xdg_cache_home is None && home is None ==> user_cache_root(local_app_data, xdg_cache_home, home, temp_dir) == temp_dir,
{
    reveal_strlit(".cache");
    assert(".cache"@ =~= seq!['.', 'c', 'a', 'c', 'h', 'e']);
}

/// Picks the user's cache directory from the environment.
pub fn default_cache_root(
    local_app_data: Option<&str>,
    xdg_cache_home: Option<&str>,
    home: Option<&str>,
    temp_dir: &str,
) -> (res: String)
    ensures
        res@ == user_cache_root(opt_str(local_app_data), opt_str(xdg_cache_home), opt_str(home), temp_dir@),
{
    match local_app_data {
        Some(d) => owned(d),
        None => match xdg_cache_home {
            Some(d) => owned(d),
            None => match home {
                Some(h) => {
                    let dot_cache = owned(".cache");
                    proof {
                        reveal_strlit(".cache");
                    }
                    assert(dot_cache@ =~= seq!['.', 'c', 'a', 'c', 'h', 'e']);
                    join_path(h, dot_cache.as_str())
                },
                None => owned(temp_dir),
            },
        },
    }
}

} // verus!
