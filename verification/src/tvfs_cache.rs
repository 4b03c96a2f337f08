//! The TVFS manifest rule: which entries give a FileDataID resolution.

use vstd::prelude::*;
use vstd::hash_map::HashMapWithView;

verus! {

broadcast use vstd::std_specs::hash::group_hash_axioms;

/// One entry of a TVFS manifest, by the fields the resolution reads.
#[derive(Clone, Copy, Debug, PartialEq, Eq)]
pub struct TvfsEntry {
    pub file_data_id: Option<u32>,
    pub content_key: Option<u128>,
    pub encoding_key: u128,
}

/// The content and encoding keys of each FileDataID: entries without a
/// FileDataID or without a content key are passed over, and a later entry for
/// the same FileDataID replaces an earlier one.
pub open spec fn tvfs_resolutions(entries: Seq<TvfsEntry>) -> Map<u32, (u128, u128)>
    decreases entries.len(),
{
    if entries.len() == 0 {
        Map::empty()
    } else {
        let rest = tvfs_resolutions(entries.drop_last());
        let e = entries.last();
        match (e.file_data_id, e.content_key) {
            (Some(fdid), Some(ck)) => rest.insert(fdid, (ck, e.encoding_key)),
            _ => rest,
        }
    }
}

/// Whether entry `e` resolves FileDataID `fdid`: it names it and has a
/// content key.
pub open spec fn resolves(e: TvfsEntry, fdid: u32) -> bool {
    e.file_data_id == Some(fdid) && e.content_key is Some
}

/// Law: a FileDataID is resolved exactly when some entry names it with a
/// content key, and it gets the content and encoding keys of the last such
/// entry.
pub proof fn lemma_last_resolving_entry_wins(entries: Seq<TvfsEntry>, fdid: u32)
    ensures
        tvfs_resolutions(entries).contains_key(fdid) <==> exists|j: int| 0 <= j < entries.len() && resolves(#[trigger] entries[j], fdid),
        tvfs_resolutions(entries).contains_key(fdid) ==> exists|j: int| {
            &&& 0 <= j < entries.len()
            &&& resolves(#[trigger] entries[j], fdid)
            &&& tvfs_resolutions(entries)[fdid] == (entries[j].content_key->0, entries[j].encoding_key)
            &&& forall|k: int| j < k < entries.len() ==> !resolves(#[trigger] entries[k], fdid)
        },
    decreases entries.len(),
{
    if entries.len() > 0 {
        let rest = entries.drop_last();
        lemma_last_resolving_entry_wins(rest, fdid);
        assert forall|j: int| 0 <= j < rest.len() implies rest[j] == entries[j] by {}
        if resolves(entries.last(), fdid) {
            let j = entries.len() - 1;
            assert(resolves(entries[j], fdid));
        } else {
            assert(tvfs_resolutions(entries).contains_key(fdid) == tvfs_resolutions(rest).contains_key(fdid));
            if exists|j: int| 0 <= j < entries.len() && resolves(#[trigger] entries[j], fdid) {
                let j = choose|j: int| 0 <= j < entries.len() && resolves(#[trigger] entries[j], fdid);
                assert(j < entries.len() - 1);
                assert(resolves(rest[j], fdid));
            }
            if tvfs_resolutions(rest).contains_key(fdid) {
                let i = choose|i: int| {
                    &&& 0 <= i < rest.len()
                    &&& resolves(#[trigger] rest[i], fdid)
                    &&& tvfs_resolutions(rest)[fdid] == (rest[i].content_key->0, rest[i].encoding_key)
                    &&& forall|k: int| i < k < rest.len() ==> !resolves(#[trigger] rest[k], fdid)
                };
                assert(resolves(entries[i], fdid));
                assert forall|k: int| i < k < entries.len() implies !resolves(#[trigger] entries[k], fdid) by {
                    if k < rest.len() {
                        assert(entries[k] == rest[k]);
                    }
                }
            }
            if exists|j: int| 0 <= j < rest.len() && resolves(#[trigger] rest[j], fdid) {
                let j = choose|j: int| 0 <= j < rest.len() && resolves(#[trigger] rest[j], fdid);
                assert(resolves(entries[j], fdid));
            }
        }
    }
}

/// Collects the FileDataID resolutions of a TVFS manifest's entries.
pub fn collect_tvfs_resolutions(entries: &Vec<TvfsEntry>) -> (res: HashMapWithView<u32, (u128, u128)>)
    ensures
        res@ == tvfs_resolutions(entries@),
{
    let mut map: HashMapWithView<u32, (u128, u128)> = HashMapWithView::new();
    let mut i: usize = 0;
    while i < entries.len()
        invariant
            i <= entries.len(),
            map@ == tvfs_resolutions(entries@.subrange(0, i as int)),
        decreases entries.len() - i,
    {
        let e = entries[i];
        assert(entries@.subrange(0, i + 1).drop_last() =~= entries@.subrange(0, i as int));
        assert(entries@.subrange(0, i + 1).last() == e);
        match (e.file_data_id, e.content_key) {
            (Some(fdid), Some(ck)) => {
                map.insert(fdid, (ck, e.encoding_key));
            },
            _ => {},
        }
        i = i + 1;
    }
    assert(entries@.subrange(0, i as int) =~= entries@);
    map
}

} // verus!
