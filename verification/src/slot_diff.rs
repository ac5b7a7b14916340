//! Digest-based replication of a slot between its leader and a follower: the
//! digest of a slot and the difference between two digests.
use vstd::prelude::*;
use crate::checksum::{slot_for, slot_of_key};
use crate::slot_table::{dedup, dedup_strings, lemma_dedup_props};
use crate::strings::{str_eq, strs};

verus! {

/// Compact digest of one datum: its version and number of publishers.
#[derive(Debug)]
pub struct DatumDigest {
    pub data_info_id: String,
    pub version: i64,
    pub publisher_count: u32,
}

/// The model of a digest.
pub struct DigestView {
    pub id: Seq<char>,
    pub version: i64,
    pub publisher_count: u32,
}

impl View for DatumDigest {
    type V = DigestView;

    open spec fn view(&self) -> DigestView {
        DigestView { id: self.data_info_id@, version: self.version, publisher_count: self.publisher_count }
    }
}

/// What a store holds of one datum: its version and how many publishers it
/// has.
pub struct DatumSummary {
    pub data_info_id: String,
    pub version: i64,
    pub publisher_count: usize,
}

/// The models of a list of digests.
pub open spec fn digest_views(s: Seq<DatumDigest>) -> Seq<DigestView> {
    s.map_values(|d: DatumDigest| d@)
}

/// The data ids of a list of digests, in order.
pub open spec fn digest_ids(s: Seq<DigestView>) -> Seq<Seq<char>> {
    s.map_values(|d: DigestView| d.id)
}

/// The last digest of `id` in a list (a later one overrides an earlier one).
pub open spec fn last_digest(s: Seq<DigestView>, id: Seq<char>) -> Option<DigestView>
    decreases s.len(),
{
    if s.len() == 0 {
        None
    } else if s.last().id == id {
        Some(s.last())
    } else {
        last_digest(s.drop_last(), id)
    }
}

/// Whether the follower must fetch `id`: the leader has it and the follower
/// has it at an older version, with another publisher count, or not at all.
pub open spec fn needs_update(remote: Seq<DigestView>, local: Seq<DigestView>, id: Seq<char>) -> bool {
    match last_digest(remote, id) {
        Some(r) => match last_digest(local, id) {
            Some(l) => r.version > l.version || r.publisher_count != l.publisher_count,
            None => true,
        },
        None => false,
    }
}

/// The ids that `needs_update` selects, in order.
pub open spec fn updated_ids(ids: Seq<Seq<char>>, remote: Seq<DigestView>, local: Seq<DigestView>) -> Seq<
    Seq<char>,
>
    decreases ids.len(),
{
    if ids.len() == 0 {
        ids
    } else if needs_update(remote, local, ids.last()) {
        updated_ids(ids.drop_last(), remote, local).push(ids.last())
    } else {
        updated_ids(ids.drop_last(), remote, local)
    }
}

/// The ids that the leader does not have, in order.
pub open spec fn missing_ids(ids: Seq<Seq<char>>, remote: Seq<DigestView>) -> Seq<Seq<char>>
    decreases ids.len(),
{
    if ids.len() == 0 {
        ids
    } else if last_digest(remote, ids.last()) is None {
        missing_ids(ids.drop_last(), remote).push(ids.last())
    } else {
        missing_ids(ids.drop_last(), remote)
    }
}

/// The digest entries of the data in slot `slot_id`, in order; publisher
/// counts are cut to 32 bits.
pub open spec fn slot_digest(entries: Seq<DatumSummary>, slot_num: u32, slot_id: u32) -> Seq<DigestView>
    decreases entries.len(),
{
    if entries.len() == 0 {
        Seq::empty()
    } else {
        let e = entries.last();
        let rest = slot_digest(entries.drop_last(), slot_num, slot_id);
        if slot_for(e.data_info_id@, slot_num) == slot_id {
            rest.push(DigestView { id: e.data_info_id@, version: e.version, publisher_count: e.publisher_count as u32 })
        } else {
            rest
        }
    }
}

proof fn lemma_last_digest_found(s: Seq<DigestView>, id: Seq<char>)
    requires
        digest_ids(s).contains(id),
    ensures
        last_digest(s, id) is Some,
    decreases s.len(),
{
    if s.last().id != id {
        let i = choose|i: int| 0 <= i < digest_ids(s).len() && digest_ids(s)[i] == id;
        assert(digest_ids(s.drop_last())[i] == id);
        lemma_last_digest_found(s.drop_last(), id);
    }
}

proof fn lemma_updated_members(ids: Seq<Seq<char>>, remote: Seq<DigestView>, local: Seq<DigestView>)
    ensures
        forall|x: Seq<char>| #[trigger] updated_ids(ids, remote, local).contains(x) ==> needs_update(remote, local, x),
    decreases ids.len(),
{
    if ids.len() > 0 {
        lemma_updated_members(ids.drop_last(), remote, local);
        let prev = updated_ids(ids.drop_last(), remote, local);
        assert forall|x: Seq<char>| #[trigger] updated_ids(ids, remote, local).contains(x) implies needs_update(
            remote,
            local,
            x,
        ) by {
            if needs_update(remote, local, ids.last()) {
                let r = prev.push(ids.last());
                assert(updated_ids(ids, remote, local) == r);
                let k = choose|k: int| 0 <= k < r.len() && r[k] == x;
                if k < prev.len() {
                    assert(prev[k] == x);
                    assert(prev.contains(x));
                } else {
                    assert(x == ids.last());
                }
            } else {
                assert(updated_ids(ids, remote, local) == prev);
            }
        }
    }
}

proof fn lemma_missing_members(ids: Seq<Seq<char>>, remote: Seq<DigestView>)
    ensures
        forall|x: Seq<char>| #[trigger] missing_ids(ids, remote).contains(x) ==> last_digest(remote, x) is None,
    decreases ids.len(),
{
    if ids.len() > 0 {
        lemma_missing_members(ids.drop_last(), remote);
        let prev = missing_ids(ids.drop_last(), remote);
        assert forall|x: Seq<char>| #[trigger] missing_ids(ids, remote).contains(x) implies last_digest(
            remote,
            x,
        ) is None by {
            if last_digest(remote, ids.last()) is None {
                let r = prev.push(ids.last());
                assert(missing_ids(ids, remote) == r);
                let k = choose|k: int| 0 <= k < r.len() && r[k] == x;
                if k < prev.len() {
                    assert(prev[k] == x);
                    assert(prev.contains(x));
                } else {
                    assert(x == ids.last());
                }
            } else {
                assert(missing_ids(ids, remote) == prev);
            }
        }
    }
}

proof fn lemma_updated_self_empty(ids: Seq<Seq<char>>, s: Seq<DigestView>)
    ensures
        updated_ids(ids, s, s).len() == 0,
    decreases ids.len(),
{
    if ids.len() > 0 {
        lemma_updated_self_empty(ids.drop_last(), s);
    }
}

proof fn lemma_missing_none(ids: Seq<Seq<char>>, s: Seq<DigestView>)
    requires
        forall|i: int| 0 <= i < ids.len() ==> digest_ids(s).contains(#[trigger] ids[i]),
    ensures
        missing_ids(ids, s).len() == 0,
    decreases ids.len(),
{
    if ids.len() > 0 {
        lemma_last_digest_found(s, ids.last());
        assert forall|i: int| 0 <= i < ids.drop_last().len() implies digest_ids(s).contains(
            #[trigger] ids.drop_last()[i],
        ) by {
            assert(ids.drop_last()[i] == ids[i]);
        }
        lemma_missing_none(ids.drop_last(), s);
    }
}

/// A follower whose digest is its leader's has nothing to fetch and nothing
/// to remove.
pub proof fn lemma_in_sync_diff_empty(digests: Seq<DigestView>)
    ensures
        updated_ids(dedup(digest_ids(digests)), digests, digests).len() == 0,
        missing_ids(dedup(digest_ids(digests)), digests).len() == 0,
{
    let ids = digest_ids(digests);
    lemma_updated_self_empty(dedup(ids), digests);
    lemma_dedup_props(ids);
    assert forall|i: int| 0 <= i < dedup(ids).len() implies ids.contains(#[trigger] dedup(ids)[i]) by {
        assert(dedup(ids).to_set().contains(dedup(ids)[i]));
        assert(ids.to_set().contains(dedup(ids)[i]));
    }
    lemma_missing_none(dedup(ids), digests);
}

/// No data id is both to be fetched from the leader and to be removed: the
/// fetched ones are the leader's, the removed ones are not.
pub proof fn lemma_diff_disjoint(local: Seq<DigestView>, remote: Seq<DigestView>)
    ensures
        forall|id: Seq<char>|
            #[trigger] updated_ids(dedup(digest_ids(remote)), remote, local).contains(id) ==> !missing_ids(
                dedup(digest_ids(local)),
                remote,
            ).contains(id),
{
    lemma_updated_members(dedup(digest_ids(remote)), remote, local);
    lemma_missing_members(dedup(digest_ids(local)), remote);
}

/// The outcome of comparing a follower's digest with its leader's.
#[derive(Debug)]
pub struct DiffResult {
    /// Ids whose leader version is newer, whose publisher count differs, or
    /// that only the leader has.
    pub updated: Vec<String>,
    /// Ids that only the follower has.
    pub removed: Vec<String>,
}

impl Default for DiffResult {
    fn default() -> (r: Self)
        ensures
            r.updated@.len() == 0,
            r.removed@.len() == 0,
    {
        DiffResult { updated: Vec::new(), removed: Vec::new() }
    }
}

fn find_last(s: &[DatumDigest], id: &str) -> (r: Option<usize>)
    ensures
        match r {
            Some(i) => i < s@.len() && last_digest(digest_views(s@), id@) == Some(s@[i as int]@),
            None => last_digest(digest_views(s@), id@) is None,
        },
{
    let ghost v = digest_views(s@);
    let mut found: Option<usize> = None;
    let mut i: usize = 0;
    assert(v.take(0) =~= Seq::<DigestView>::empty());
    while i < s.len()
        invariant
            i <= s.len(),
            v == digest_views(s@),
            match found {
                Some(k) => k < i && last_digest(v.take(i as int), id@) == Some(s@[k as int]@),
                None => last_digest(v.take(i as int), id@) is None,
            },
        decreases s.len() - i,
    {
        assert(v.take(i + 1).drop_last() =~= v.take(i as int));
        assert(v.take(i + 1).last() == s@[i as int]@);
        if str_eq(s[i].data_info_id.as_str(), id) {
            found = Some(i);
        }
        i = i + 1;
    }
    assert(v.take(s.len() as int) =~= v);
    found
}

fn ids_of(s: &[DatumDigest]) -> (r: Vec<String>)
    ensures
        strs(r@) == digest_ids(digest_views(s@)),
{
    let ghost ids = digest_ids(digest_views(s@));
    let mut out: Vec<String> = Vec::new();
    let mut i: usize = 0;
    while i < s.len()
        invariant
            i <= s.len(),
            ids == digest_ids(digest_views(s@)),
            strs(out@) == ids.take(i as int),
        decreases s.len() - i,
    {
        let ghost before = strs(out@);
        out.push(s[i].data_info_id.clone());
        assert(strs(out@) =~= before.push(s@[i as int].data_info_id@));
        assert(ids.take(i + 1) =~= ids.take(i as int).push(ids[i as int]));
        i = i + 1;
    }
    assert(ids.take(s.len() as int) =~= ids);
    out
}

/// Compares a follower's digest (`local`) with its leader's (`remote`).
/// Each id counts once, by its last digest in each list; ids come in the
/// order of their first digest.
pub fn diff_digests(local: &[DatumDigest], remote: &[DatumDigest]) -> (r: DiffResult)
    ensures
        strs(r.updated@) == updated_ids(
            dedup(digest_ids(digest_views(remote@))),
            digest_views(remote@),
            digest_views(local@),
        ),
        strs(r.removed@) == missing_ids(dedup(digest_ids(digest_views(local@))), digest_views(remote@)),
{
    let ghost rv = digest_views(remote@);
    let ghost lv = digest_views(local@);
    let remote_ids = dedup_strings(&ids_of(remote));
    let local_ids = dedup_strings(&ids_of(local));
    let ghost rids = strs(remote_ids@);
    let ghost lids = strs(local_ids@);
    let mut updated: Vec<String> = Vec::new();
    let mut i: usize = 0;
    assert(rids.take(0) =~= Seq::<Seq<char>>::empty());
    assert(strs(updated@) =~= Seq::<Seq<char>>::empty());
    while i < remote_ids.len()
        invariant
            i <= remote_ids.len(),
            rids == strs(remote_ids@),
            rv == digest_views(remote@),
            lv == digest_views(local@),
            strs(updated@) == updated_ids(rids.take(i as int), rv, lv),
        decreases remote_ids.len() - i,
    {
        let id = remote_ids[i].as_str();
        assert(rids.take(i + 1).drop_last() =~= rids.take(i as int));
        assert(rids.take(i + 1).last() == id@);
        let update = match find_last(remote, id) {
            Some(ri) => match find_last(local, id) {
                Some(li) => remote[ri].version > local[li].version || remote[ri].publisher_count
                    != local[li].publisher_count,
                None => true,
            },
            None => false,
        };
        assert(update == needs_update(rv, lv, id@));
        if update {
            let ghost before = strs(updated@);
            updated.push(remote_ids[i].clone());
            assert(strs(updated@) =~= before.push(id@));
        }
        i = i + 1;
    }
    assert(rids.take(remote_ids.len() as int) =~= rids);
    let mut removed: Vec<String> = Vec::new();
    let mut j: usize = 0;
    assert(lids.take(0) =~= Seq::<Seq<char>>::empty());
    assert(strs(removed@) =~= Seq::<Seq<char>>::empty());
    while j < local_ids.len()
        invariant
            j <= local_ids.len(),
            lids == strs(local_ids@),
            rv == digest_views(remote@),
            strs(removed@) == missing_ids(lids.take(j as int), rv),
        decreases local_ids.len() - j,
    {
        let id = local_ids[j].as_str();
        assert(lids.take(j + 1).drop_last() =~= lids.take(j as int));
        assert(lids.take(j + 1).last() == id@);
        if find_last(remote, id).is_none() {
            let ghost before = strs(removed@);
            removed.push(local_ids[j].clone());
            assert(strs(removed@) =~= before.push(id@));
        }
        j = j + 1;
    }
    assert(lids.take(local_ids.len() as int) =~= lids);
    DiffResult { updated, removed }
}

/// Digest-based replication of the slots of a data server.
pub struct SlotDiffSyncer {
    slot_num: u32,
}

impl SlotDiffSyncer {
    /// The slot count data ids are spread over.
    pub closed spec fn slot_count(&self) -> u32 {
        self.slot_num
    }

    /// A syncer placing data ids among `slot_num` slots.
    pub fn new(slot_num: u32) -> (s: SlotDiffSyncer)
        ensures
            s.slot_count() == slot_num,
    {
        SlotDiffSyncer { slot_num }
    }

    /// The digest of slot `slot_id` from what a store holds, in the order
    /// given.
    pub fn compute_slot_digest(&self, entries: &[DatumSummary], slot_id: u32) -> (r: Vec<DatumDigest>)
        requires
            self.slot_count() > 0,
        ensures
            digest_views(r@) == slot_digest(entries@, self.slot_count(), slot_id),
    {
        let mut out: Vec<DatumDigest> = Vec::new();
        let mut i: usize = 0;
        assert(entries@.take(0) =~= Seq::<DatumSummary>::empty());
        assert(digest_views(out@) =~= Seq::<DigestView>::empty());
        while i < entries.len()
            invariant
                i <= entries.len(),
                self.slot_count() > 0,
                digest_views(out@) == slot_digest(entries@.take(i as int), self.slot_count(), slot_id),
            decreases entries.len() - i,
        {
            let e = &entries[i];
            assert(entries@.take(i + 1).drop_last() =~= entries@.take(i as int));
            assert(entries@.take(i + 1).last() == *e);
            if slot_of_key(e.data_info_id.as_str(), self.slot_num) == slot_id {
                let ghost before = digest_views(out@);
                let d = DatumDigest {
                    data_info_id: e.data_info_id.clone(),
                    version: e.version,
                    publisher_count: e.publisher_count as u32,
                };
                out.push(d);
                assert(digest_views(out@) =~= before.push(d@));
            }
            i = i + 1;
        }
        assert(entries@.take(entries.len() as int) =~= entries@);
        out
    }
}

} // verus!
