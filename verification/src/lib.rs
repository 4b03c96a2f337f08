//! Resolution of WoW FileDataIDs and asset paths: listfile lookup order,
//! resolver path configuration, and the CASC resolution cache rules.

pub mod casc_cache;
pub mod casc_local;
pub mod casc_resolver;
pub mod listfile;
pub mod paths;
pub mod text;
pub mod tvfs_cache;

use vstd::prelude::*;

use crate::listfile::{
    chosen_community_listfile, community_listfile_path, fdid_lookup_step, indexes_agree,
    lemma_path_step_ignores_case, lemma_path_step_is_determined, lemma_path_step_keeps_answer,
    local_cache_file_name, path_answer, path_key, path_lookup_step, path_phase, CachedListfileView, FdidStage, Listfile, ListfileSources, ListfileView,
    LookupNext, LookupStep, PathReply, PathStage,
};
use crate::text::lowercase;
use crate::paths::{
    chosen_cache_root, data_dir_name, first_of, opt_chars, AssetResolverConfig, PathsView,
    ResolverEnvironment, ResolverPaths,
};
use crate::text::joined;

verus! {

/// A resolver's state by its contents: its roots and, once opened, its listfile.
pub struct ResolverView {
    pub paths: PathsView,
    pub listfile: Option<ListfileView>,
}

/// Resolves FileDataIDs to listfile paths and back, over one set of roots.
/// The listfile is opened on first use.
pub struct CascListfileResolver {
    paths: ResolverPaths,
    listfile: Option<Listfile>,
}

impl View for CascListfileResolver {
    type V = ResolverView;

    closed spec fn view(&self) -> ResolverView {
        ResolverView {
            paths: self.paths@,
            listfile: match self.listfile {
                Some(l) => Some(l@),
                None => None,
            },
        }
    }
}

/// The resolver after its listfile is opened from `sources`, with the
/// community cache at `cache_path`: an open listfile is kept; otherwise the
/// new one reads nothing yet and has reported nothing.
pub open spec fn loaded(before: ResolverView, sources: ListfileSources, cache_path: Seq<char>) -> ResolverView {
    match before.listfile {
        Some(_) => before,
        None => ResolverView {
            paths: before.paths,
            listfile: Some(
                ListfileView {
                    community_path: chosen_community_listfile(before.paths, sources),
                    community_cache_path: cache_path,
                    local_cache_path: joined(before.paths.shared_data_root, local_cache_file_name()),
                    community_error_logged: false,
                    local_error_logged: false,
                    local: CachedListfileView { by_fdid: Map::empty(), by_path: Map::empty() },
                },
            ),
        },
    }
}

/// What one path lookup step of a resolver does: before its listfile is
/// opened it asks for it and changes nothing; afterwards it is the
/// listfile's own step, and the roots stay.
pub open spec fn resolver_path_step(
    before: ResolverView,
    after: ResolverView,
    path: Seq<char>,
    stage: PathStage,
    step: LookupStep<u32>,
) -> bool {
    &&& after.paths == before.paths
    &&& match before.listfile {
        None => after == before && step.next is LoadListfile && step.notice is None && step.persist is None,
        Some(b) => after.listfile matches Some(a) && path_lookup_step(b, a, path, stage, step),
    }
}

/// A whole path lookup of a resolver: each event is either a step given a
/// storage reply (`Some`), or the opening of the listfile from `sources`
/// (`None`), which the caller does when a step asks for it.
pub open spec fn resolver_path_run(
    states: Seq<ResolverView>,
    path: Seq<char>,
    events: Seq<Option<PathStage>>,
    steps: Seq<Option<LookupStep<u32>>>,
    sources: ListfileSources,
    cache_path: Seq<char>,
) -> bool {
    &&& states.len() == events.len() + 1
    &&& steps.len() == events.len()
    &&& forall|i: int| 0 <= i < events.len() ==> match #[trigger] events[i] {
        Some(stage) => steps[i] matches Some(st) && resolver_path_step(states[i], states[i + 1], path, stage, st),
        None => steps[i] is None && states[i + 1] == loaded(states[i], sources, cache_path),
    }
}

/// Law: a resolver's whole path lookups ignore ASCII case. Two lookups of
/// spellings that differ only in ASCII case, from the same resolver state,
/// given the same storage replies and the same listfile sources, pass
/// through the same states and take the same steps, so they answer alike.
pub proof fn lemma_resolver_lookup_ignores_case(
    states_p: Seq<ResolverView>,
    states_q: Seq<ResolverView>,
    p: Seq<char>,
    q: Seq<char>,
    events: Seq<Option<PathStage>>,
    steps_p: Seq<Option<LookupStep<u32>>>,
    steps_q: Seq<Option<LookupStep<u32>>>,
    sources: ListfileSources,
    cache_path: Seq<char>,
)
    requires
        lowercase(p) == lowercase(q),
        resolver_path_run(states_p, p, events, steps_p, sources, cache_path),
        resolver_path_run(states_q, q, events, steps_q, sources, cache_path),
        states_p[0] == states_q[0],
    ensures
        states_p == states_q,
        steps_p == steps_q,
    decreases events.len(),
{
    if events.len() > 0 {
        let n = events.len() - 1;
        let sp = states_p.drop_last();
        let sq = states_q.drop_last();
        let ev = events.drop_last();
        let tp = steps_p.drop_last();
        let tq = steps_q.drop_last();
        assert forall|i: int| 0 <= i < ev.len() implies match #[trigger] ev[i] {
            Some(stage) => tp[i] matches Some(st) && resolver_path_step(sp[i], sp[i + 1], p, stage, st),
            None => tp[i] is None && sp[i + 1] == loaded(sp[i], sources, cache_path),
        } by {
            assert(events[i] == ev[i]);
        }
        assert forall|i: int| 0 <= i < ev.len() implies match #[trigger] ev[i] {
            Some(stage) => tq[i] matches Some(st) && resolver_path_step(sq[i], sq[i + 1], q, stage, st),
            None => tq[i] is None && sq[i + 1] == loaded(sq[i], sources, cache_path),
        } by {
            assert(events[i] == ev[i]);
        }
        lemma_resolver_lookup_ignores_case(sp, sq, p, q, ev, tp, tq, sources, cache_path);
        assert(states_p[n] == sp[n] && states_q[n] == sq[n]);
        let e = events[n];
        match e {
            Some(stage) => {
                let a = steps_p[n]->0;
                let b = steps_q[n]->0;
                assert(resolver_path_step(states_p[n], states_p[n + 1], p, stage, a));
                assert(resolver_path_step(states_q[n], states_q[n + 1], q, stage, b));
                match states_p[n].listfile {
                    Some(lv) => {
                        let ap = states_p[n + 1].listfile->0;
                        let aq = states_q[n + 1].listfile->0;
                        lemma_path_step_ignores_case(lv, p, q, stage, aq, b);
                        lemma_path_step_is_determined(lv, p, stage, ap, a, aq, b);
                    },
                    None => {},
                }
                assert(states_p[n + 1] == states_q[n + 1]);
            },
            None => {},
        }
        assert forall|i: int| 0 <= i < states_p.len() implies states_p[i] == states_q[i] by {
            if i <= n {
                assert(states_p[i] == sp[i] && states_q[i] == sq[i]);
            }
        }
        assert forall|i: int| 0 <= i < steps_p.len() implies steps_p[i] == steps_q[i] by {
            if i < n {
                assert(steps_p[i] == tp[i] && steps_q[i] == tq[i]);
            }
        }
        assert(states_p =~= states_q);
        assert(steps_p =~= steps_q);
    } else {
        assert(states_p =~= states_q);
        assert(steps_p =~= steps_q);
    }
}

/// What a whole path lookup of a resolver answers for `key`: that of its
/// listfile once opened from `sources`, with the stores replying `local` and
/// `community`.
pub open spec fn resolver_path_answer(
    v: ResolverView,
    key: Seq<char>,
    sources: ListfileSources,
    cache_path: Seq<char>,
    local: PathReply,
    community: PathReply,
) -> Option<u32> {
    path_answer(loaded(v, sources, cache_path).listfile->0.local, key, local, community)
}

/// Whether `event` is one a lookup of `key` can reach from the resolver state
/// `v`: the start, opening an unopened listfile, or a storage reply that the
/// opened listfile can reach.
pub open spec fn resolver_phase(
    v: ResolverView,
    key: Seq<char>,
    event: Option<PathStage>,
    local: PathReply,
    community: PathReply,
) -> bool {
    match event {
        None => v.listfile is None,
        Some(PathStage::Start) => true,
        Some(stage) => v.listfile matches Some(l) && path_phase(l, key, stage, local, community),
    }
}

/// A whole path lookup of a resolver against stores that reply `local` and
/// `community` to this path: it starts from `Start`, opens the listfile when
/// a step asks for it and starts again, passes each store the reply it asked
/// for, and only the last step answers.
pub open spec fn resolver_lookup_ends(
    states: Seq<ResolverView>,
    path: Seq<char>,
    events: Seq<Option<PathStage>>,
    steps: Seq<Option<LookupStep<u32>>>,
    sources: ListfileSources,
    cache_path: Seq<char>,
    local: PathReply,
    community: PathReply,
) -> bool {
    &&& resolver_path_run(states, path, events, steps, sources, cache_path)
    &&& events.len() >= 1
    &&& events[0] == Some(PathStage::Start)
    &&& forall|i: int| 0 <= i < events.len() - 1 ==> match #[trigger] steps[i] {
        Some(st) => {
            &&& !(st.next is Answer)
            &&& st.next is LoadListfile ==> events[i + 1] is None
            &&& st.next is QueryLocal ==> events[i + 1] == Some(PathStage::LocalReply(local))
            &&& st.next is QueryCommunity ==> events[i + 1] == Some(PathStage::CommunityReply(community))
        },
        None => events[i + 1] == Some(PathStage::Start),
    }
    &&& steps[events.len() - 1] matches Some(st) && st.next is Answer
}

proof fn lemma_resolver_lookup_tail(
    states: Seq<ResolverView>,
    path: Seq<char>,
    events: Seq<Option<PathStage>>,
    steps: Seq<Option<LookupStep<u32>>>,
    sources: ListfileSources,
    cache_path: Seq<char>,
    local: PathReply,
    community: PathReply,
    i: int,
)
    requires
        resolver_lookup_ends(states, path, events, steps, sources, cache_path, local, community),
        0 <= i < events.len(),
        resolver_phase(states[i], path_key(path), events[i], local, community),
    ensures
        steps[events.len() - 1] matches Some(st) && st.next == LookupNext::Answer(
            resolver_path_answer(states[i], path_key(path), sources, cache_path, local, community),
        ),
    decreases events.len() - i,
{
    let key = path_key(path);
    let v = states[i];
    let w = states[i + 1];
    let ghost e = events[i];
    assert(match events[i] {
        Some(stage) => steps[i] matches Some(st) && resolver_path_step(v, w, path, stage, st),
        None => steps[i] is None && w == loaded(v, sources, cache_path),
    });
    assert(resolver_path_answer(w, key, sources, cache_path, local, community)
        == resolver_path_answer(v, key, sources, cache_path, local, community)) by {
        match e {
            None => {},
            Some(stage) => {
                let st = steps[i]->0;
                match v.listfile {
                    None => {},
                    Some(b) => {
                        let a = w.listfile->0;
                        lemma_path_step_keeps_answer(b, a, path, stage, st, local, community);
                    },
                }
            },
        }
    }
    if i < events.len() - 1 {
        match e {
            None => {
                assert(events[i + 1] == Some(PathStage::Start));
            },
            Some(stage) => {
                let st = steps[i]->0;
                match v.listfile {
                    None => {
                        assert(st.next is LoadListfile);
                        assert(events[i + 1] is None);
                    },
                    Some(b) => {
                        let a = w.listfile->0;
                        lemma_path_step_keeps_answer(b, a, path, stage, st, local, community);
                    },
                }
            },
        }
        lemma_resolver_lookup_tail(states, path, events, steps, sources, cache_path, local, community, i + 1);
    } else {
        let st = steps[i]->0;
        match e {
            None => {},
            Some(stage) => {
                match v.listfile {
                    None => {},
                    Some(b) => {
                        let a = w.listfile->0;
                        lemma_path_step_keeps_answer(b, a, path, stage, st, local, community);
                    },
                }
            },
        }
    }
}

/// Law: a resolver's whole path lookup answers what its listfile, opened if
/// need be, answers from the memory it started with, and leaves the resolver
/// giving the same answer to the same key.
pub proof fn lemma_resolver_lookup_answer(
    states: Seq<ResolverView>,
    path: Seq<char>,
    events: Seq<Option<PathStage>>,
    steps: Seq<Option<LookupStep<u32>>>,
    sources: ListfileSources,
    cache_path: Seq<char>,
    local: PathReply,
    community: PathReply,
)
    requires
        resolver_lookup_ends(states, path, events, steps, sources, cache_path, local, community),
    ensures
        steps.last() matches Some(st) && st.next == LookupNext::Answer(
            resolver_path_answer(states[0], path_key(path), sources, cache_path, local, community),
        ),
        resolver_path_answer(states.last(), path_key(path), sources, cache_path, local, community)
            == resolver_path_answer(states[0], path_key(path), sources, cache_path, local, community),
{
    lemma_resolver_lookup_tail(states, path, events, steps, sources, cache_path, local, community, 0);
    lemma_resolver_answer_kept(states, path, events, steps, sources, cache_path, local, community, 0);
}

proof fn lemma_resolver_answer_kept(
    states: Seq<ResolverView>,
    path: Seq<char>,
    events: Seq<Option<PathStage>>,
    steps: Seq<Option<LookupStep<u32>>>,
    sources: ListfileSources,
    cache_path: Seq<char>,
    local: PathReply,
    community: PathReply,
    i: int,
)
    requires
        resolver_lookup_ends(states, path, events, steps, sources, cache_path, local, community),
        0 <= i < events.len(),
        resolver_phase(states[i], path_key(path), events[i], local, community),
    ensures
        resolver_path_answer(states[events.len() as int], path_key(path), sources, cache_path, local, community)
            == resolver_path_answer(states[i], path_key(path), sources, cache_path, local, community),
    decreases events.len() - i,
{
    let key = path_key(path);
    let v = states[i];
    let w = states[i + 1];
    let ghost e = events[i];
    assert(match events[i] {
        Some(stage) => steps[i] matches Some(st) && resolver_path_step(v, w, path, stage, st),
        None => steps[i] is None && w == loaded(v, sources, cache_path),
    });
    match e {
        None => {},
        Some(stage) => {
            let st = steps[i]->0;
            match v.listfile {
                None => {},
                Some(b) => {
                    let a = w.listfile->0;
                    lemma_path_step_keeps_answer(b, a, path, stage, st, local, community);
                },
            }
        },
    }
    if i < events.len() - 1 {
        match e {
            None => {
                assert(events[i + 1] == Some(PathStage::Start));
            },
            Some(stage) => {
                let st = steps[i]->0;
                match v.listfile {
                    None => {
                        assert(events[i + 1] is None);
                    },
                    Some(b) => {},
                }
            },
        }
        lemma_resolver_answer_kept(states, path, events, steps, sources, cache_path, local, community, i + 1);
    }
}

/// Law: successive path lookups on one resolver agree. A lookup of `p`, then
/// a lookup of `q` on the resolver it left, where `p` and `q` differ only in
/// ASCII case and the stores and listfile sources have not changed, give the
/// same answer.
pub proof fn lemma_successive_resolver_lookups_agree(
    first_states: Seq<ResolverView>,
    first_events: Seq<Option<PathStage>>,
    first_steps: Seq<Option<LookupStep<u32>>>,
    second_states: Seq<ResolverView>,
    second_events: Seq<Option<PathStage>>,
    second_steps: Seq<Option<LookupStep<u32>>>,
    p: Seq<char>,
    q: Seq<char>,
    sources: ListfileSources,
    cache_path: Seq<char>,
    local: PathReply,
    community: PathReply,
)
    requires
        lowercase(p) == lowercase(q),
        resolver_lookup_ends(first_states, p, first_events, first_steps, sources, cache_path, local, community),
        resolver_lookup_ends(second_states, q, second_events, second_steps, sources, cache_path, local, community),
        second_states[0] == first_states.last(),
    ensures
        second_steps.last() matches Some(b) && first_steps.last() matches Some(a) && b.next == a.next,
{
    lemma_resolver_lookup_answer(first_states, p, first_events, first_steps, sources, cache_path, local, community);
    lemma_resolver_lookup_answer(second_states, q, second_events, second_steps, sources, cache_path, local, community);
}

impl CascListfileResolver {
    /// A resolver over the roots that `config` and the environment settle;
    /// its listfile is not opened yet.
    pub fn new(config: AssetResolverConfig, env: &ResolverEnvironment) -> (res: Self)
        ensures
            res@.paths.source_data_root == first_of(
                config@.source_data_root,
                opt_chars(env.data_dir),
                env.default_source_data_root@,
            ),
            res@.paths.cache_root == chosen_cache_root(config@, *env),
            res@.paths.shared_data_root == first_of(
                config@.shared_data_root,
                opt_chars(env.shared_data_dir),
                joined(chosen_cache_root(config@, *env), data_dir_name()),
            ),
            res@.listfile is None,
    {
        CascListfileResolver { paths: ResolverPaths::from_config(config, env), listfile: None }
    }

    /// The roots the resolver works from.
    pub fn paths(&self) -> (res: &ResolverPaths)
        ensures
            res@ == self@.paths,
    {
        &self.paths
    }

    /// The listfile, once opened.
    pub fn listfile(&self) -> (res: Option<&Listfile>)
        ensures
            match res {
                Some(l) => self@.listfile == Some(l@),
                None => self@.listfile is None,
            },
    {
        match &self.listfile {
            Some(l) => Some(l),
            None => None,
        }
    }

    /// Whether the listfile has been opened.
    pub fn listfile_loaded(&self) -> (res: bool)
        ensures
            res == self@.listfile is Some,
    {
        self.listfile.is_some()
    }

    /// Opens the listfile if it is not open yet: the community listfile is
    /// chosen from `sources`, and the local cache lies under the shared root.
    /// An open listfile is kept as it is.
    pub fn load_listfile(&mut self, sources: &ListfileSources, community_cache_path: String)
        ensures
            final(self)@ == loaded(old(self)@, *sources, community_cache_path@),
    {
        if self.listfile.is_none() {
            let community_path = community_listfile_path(&self.paths, sources);
            let l = Listfile::from_paths(&self.paths, community_path, community_cache_path);
            assert(l@.local.by_fdid =~= Map::empty());
            assert(l@.local.by_path =~= Map::empty());
            self.listfile = Some(l);
        }
    }

    /// One step of resolving a FileDataID to its listfile path. Before the
    /// listfile is opened the step asks for it to be opened; afterwards it is
    /// the listfile's own step.
    pub fn resolve_path(&mut self, fdid: u32, stage: FdidStage) -> (step: LookupStep<String>)
        ensures
            final(self)@.paths == old(self)@.paths,
            old(self)@.listfile is None ==> final(self)@ == old(self)@ && step.next is LoadListfile
                && step.notice is None && step.persist is None,
            old(self)@.listfile matches Some(before) ==> (final(self)@.listfile matches Some(after)
                && fdid_lookup_step(before, after, fdid, stage, step)),
            old(self)@.listfile matches Some(before) ==> indexes_agree(before.local),
            final(self)@.listfile matches Some(after) ==> indexes_agree(after.local),
    {
        match &mut self.listfile {
            Some(listfile) => listfile.lookup_fdid(fdid, stage),
            None => LookupStep { next: LookupNext::LoadListfile, notice: None, persist: None },
        }
    }

    /// One step of resolving a listfile path to its FileDataID. Before the
    /// listfile is opened the step asks for it to be opened; afterwards it is
    /// the listfile's own step.
    pub fn lookup_path(&mut self, path: &str, stage: PathStage) -> (step: LookupStep<u32>)
        ensures
            final(self)@.paths == old(self)@.paths,
            old(self)@.listfile is None ==> final(self)@ == old(self)@ && step.next is LoadListfile
                && step.notice is None && step.persist is None,
            old(self)@.listfile matches Some(before) ==> (final(self)@.listfile matches Some(after)
                && path_lookup_step(before, after, path@, stage, step)),
            resolver_path_step(old(self)@, final(self)@, path@, stage, step),
            old(self)@.listfile matches Some(before) ==> indexes_agree(before.local),
            final(self)@.listfile matches Some(after) ==> indexes_agree(after.local),
    {
        match &mut self.listfile {
            Some(listfile) => listfile.lookup_path(path, stage),
            None => LookupStep { next: LookupNext::LoadListfile, notice: None, persist: None },
        }
    }
}

} // verus!
