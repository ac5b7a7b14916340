//! Slots and slot tables: the partition of data across data servers.
use vstd::prelude::*;
use crate::strings::{
    contains_str, lemma_push_to_set, lemma_same_multiset, lemma_string_order_total, lemma_take_to_set,
    sort_strings, str_eq, string_order, strs,
};
use vstd::relations::sorted_by;

verus! {

/// The epoch of a table that has never been assigned.
pub const INIT_EPOCH: i64 = -1;

/// One slot: a leader data server and its follower replicas.
#[derive(Debug, PartialEq)]
pub struct Slot {
    pub id: u32,
    pub leader: String,
    pub leader_epoch: i64,
    pub followers: Vec<String>,
}

/// The mathematical model of a slot.
pub struct SlotView {
    pub id: u32,
    pub leader: Seq<char>,
    pub leader_epoch: i64,
    pub followers: Seq<Seq<char>>,
}

impl View for Slot {
    type V = SlotView;

    open spec fn view(&self) -> SlotView {
        SlotView {
            id: self.id,
            leader: self.leader@,
            leader_epoch: self.leader_epoch,
            followers: strs(self.followers@),
        }
    }
}

/// A slot table: an epoch and the slots, each id at most once.
#[derive(Debug, PartialEq)]
pub struct SlotTable {
    pub epoch: i64,
    pub slots: Vec<Slot>,
}

/// The mathematical model of a slot table.
pub struct SlotTableView {
    pub epoch: i64,
    pub slots: Seq<SlotView>,
}

/// The models of a list of slots.
pub open spec fn slot_views(v: Seq<Slot>) -> Seq<SlotView> {
    v.map_values(|s: Slot| s@)
}

impl View for SlotTable {
    type V = SlotTableView;

    open spec fn view(&self) -> SlotTableView {
        SlotTableView { epoch: self.epoch, slots: slot_views(self.slots@) }
    }
}

/// Keeps the first occurrence of each element, in order.
pub open spec fn dedup(s: Seq<Seq<char>>) -> Seq<Seq<char>>
    decreases s.len(),
{
    if s.len() == 0 {
        s
    } else {
        let p = dedup(s.drop_last());
        if p.contains(s.last()) {
            p
        } else {
            p.push(s.last())
        }
    }
}

/// The slot with the given id, searching from the front.
pub open spec fn lookup(slots: Seq<SlotView>, id: u32) -> Option<SlotView>
    decreases slots.len(),
{
    if slots.len() == 0 {
        None
    } else if slots[0].id == id {
        Some(slots[0])
    } else {
        lookup(slots.drop_first(), id)
    }
}

/// The position of the slot with the given id, or -1.
pub open spec fn position(slots: Seq<SlotView>, id: u32) -> int
    decreases slots.len(),
{
    if slots.len() == 0 {
        -1
    } else if slots.last().id == id {
        slots.len() - 1
    } else {
        position(slots.drop_last(), id)
    }
}

/// Adds a slot to a table, replacing a slot with the same id in place.
pub open spec fn place(slots: Seq<SlotView>, s: SlotView) -> Seq<SlotView> {
    let p = position(slots, s.id);
    if p >= 0 {
        slots.update(p, s)
    } else {
        slots.push(s)
    }
}

/// The slots that a table built from a list holds: later slots replace
/// earlier ones with the same id.
pub open spec fn build(s: Seq<SlotView>) -> Seq<SlotView>
    decreases s.len(),
{
    if s.len() == 0 {
        s
    } else {
        place(build(s.drop_last()), s.last())
    }
}

/// Whether a server leads or follows the slot.
pub open spec fn involves(s: SlotView, server: Seq<char>) -> bool {
    s.leader == server || s.followers.contains(server)
}

/// Every server that leads or follows some slot.
pub open spec fn servers_of(slots: Seq<SlotView>) -> Set<Seq<char>>
    decreases slots.len(),
{
    if slots.len() == 0 {
        Set::empty()
    } else {
        servers_of(slots.drop_last()).insert(slots.last().leader).union(
            slots.last().followers.to_set(),
        )
    }
}

/// Number of slots that a server leads.
pub open spec fn leader_count(slots: Seq<SlotView>, server: Seq<char>) -> nat
    decreases slots.len(),
{
    if slots.len() == 0 {
        0
    } else {
        leader_count(slots.drop_last(), server) + if slots.last().leader == server {
            1nat
        } else {
            0nat
        }
    }
}

/// Number of times a server is listed as a follower, over all slots.
pub open spec fn follower_count(slots: Seq<SlotView>, server: Seq<char>) -> nat
    decreases slots.len(),
{
    if slots.len() == 0 {
        0
    } else {
        follower_count(slots.drop_last(), server) + occurrences(slots.last().followers, server)
    }
}

/// How many times a text occurs in a list.
pub open spec fn occurrences(s: Seq<Seq<char>>, x: Seq<char>) -> nat
    decreases s.len(),
{
    if s.len() == 0 {
        0
    } else {
        occurrences(s.drop_last(), x) + if s.last() == x {
            1nat
        } else {
            0nat
        }
    }
}

/// The number of leader and follower entries of a list of slots.
pub open spec fn entry_total(slots: Seq<SlotView>) -> nat
    decreases slots.len(),
{
    if slots.len() == 0 {
        0
    } else {
        entry_total(slots.drop_last()) + 1 + slots.last().followers.len()
    }
}

/// The slots that a server leads or follows, in order.
pub open spec fn involving(slots: Seq<SlotView>, server: Seq<char>) -> Seq<SlotView>
    decreases slots.len(),
{
    if slots.len() == 0 {
        slots
    } else {
        let p = involving(slots.drop_last(), server);
        if involves(slots.last(), server) {
            p.push(slots.last())
        } else {
            p
        }
    }
}

impl SlotView {
    /// No server follows a slot twice.
    pub open spec fn wf(self) -> bool {
        self.followers.no_duplicates()
    }
}

impl SlotTableView {
    /// Slot ids are distinct and no slot lists a follower twice.
    pub open spec fn wf(self) -> bool {
        &&& forall|i: int, j: int|
            0 <= i < j < self.slots.len() ==> #[trigger] self.slots[i].id != #[trigger] self.slots[j].id
        &&& forall|i: int| 0 <= i < self.slots.len() ==> (#[trigger] self.slots[i]).wf()
    }

    /// Every data server that appears in the table.
    pub open spec fn data_servers(self) -> Set<Seq<char>> {
        servers_of(self.slots)
    }
}

/// Dropping repeats leaves no repeat and the same set of texts.
pub proof fn lemma_dedup_props(s: Seq<Seq<char>>)
    ensures
        dedup(s).no_duplicates(),
        dedup(s).to_set() == s.to_set(),
    decreases s.len(),
{
    if s.len() > 0 {
        lemma_dedup_props(s.drop_last());
        let p = dedup(s.drop_last());
        assert(s =~= s.drop_last().push(s.last()));
        assert(s.to_set() =~= s.drop_last().to_set().insert(s.last())) by {
            assert forall|x| s.to_set().contains(x) <==> s.drop_last().to_set().insert(
                s.last(),
            ).contains(x) by {
                if s.contains(x) {
                    let k = choose|k: int| 0 <= k < s.len() && s[k] == x;
                    if k < s.len() - 1 {
                        assert(s.drop_last()[k] == x);
                    }
                }
                if s.drop_last().contains(x) {
                    let k = choose|k: int| 0 <= k < s.drop_last().len() && s.drop_last()[k] == x;
                    assert(s[k] == x);
                }
                assert(s[s.len() - 1] == s.last());
            }
        }
        if !p.contains(s.last()) {
            assert(p.push(s.last()).to_set() =~= p.to_set().insert(s.last())) by {
                assert forall|x| p.push(s.last()).to_set().contains(x) <==> p.to_set().insert(
                    s.last(),
                ).contains(x) by {
                    if p.push(s.last()).contains(x) {
                        let k = choose|k: int| 0 <= k < p.len() + 1 && p.push(s.last())[k] == x;
                        if k < p.len() {
                            assert(p[k] == x);
                        }
                    }
                    if p.contains(x) {
                        let k = choose|k: int| 0 <= k < p.len() && p[k] == x;
                        assert(p.push(s.last())[k] == x);
                    }
                    assert(p.push(s.last())[p.len() as int] == s.last());
                }
            }
        } else {
            assert(p.to_set().contains(s.last()));
        }
    }
}

/// Keeps the first occurrence of each string.
pub fn dedup_strings(v: &Vec<String>) -> (r: Vec<String>)
    ensures
        strs(r@) == dedup(strs(v@)),
        strs(r@).no_duplicates(),
        strs(r@).to_set() == strs(v@).to_set(),
{
    let mut out: Vec<String> = Vec::new();
    let mut i: usize = 0;
    assert(strs(v@).take(0) =~= Seq::<Seq<char>>::empty());
    assert(strs(out@) =~= Seq::<Seq<char>>::empty());
    while i < v.len()
        invariant
            i <= v.len(),
            strs(out@) == dedup(strs(v@).take(i as int)),
        decreases v.len() - i,
    {
        assert(strs(v@).take(i + 1).drop_last() =~= strs(v@).take(i as int));
        assert(strs(v@).take(i + 1).last() == v@[i as int]@);
        if !contains_str(&out, v[i].as_str()) {
            out.push(v[i].clone());
            assert(strs(out@) =~= dedup(strs(v@).take(i as int)).push(v@[i as int]@));
        }
        i = i + 1;
    }
    assert(strs(v@).take(v.len() as int) =~= strs(v@));
    proof {
        lemma_dedup_props(strs(v@));
    }
    out
}

/// A copy of a list of strings.
pub fn copy_strings(v: &Vec<String>) -> (r: Vec<String>)
    ensures
        r@ == v@,
{
    let r = v.clone();
    assert(r@ =~= v@);
    r
}

impl Slot {
    /// A slot with no followers.
    pub fn new(id: u32, leader: String, leader_epoch: i64) -> (s: Slot)
        ensures
            s@ == (SlotView { id, leader: leader@, leader_epoch, followers: Seq::empty() }),
    {
        let s = Slot { id, leader, leader_epoch, followers: Vec::new() };
        assert(s@.followers =~= Seq::<Seq<char>>::empty());
        s
    }

    /// The same slot with the given followers, each kept once.
    pub fn with_followers(self, followers: Vec<String>) -> (s: Slot)
        ensures
            s@ == (SlotView { followers: dedup(strs(followers@)), ..self@ }),
            s@.wf(),
    {
        let f = dedup_strings(&followers);
        Slot { id: self.id, leader: self.leader, leader_epoch: self.leader_epoch, followers: f }
    }

    /// Whether `address` leads this slot.
    pub fn is_leader(&self, address: &str) -> (r: bool)
        ensures
            r == (self@.leader == address@),
    {
        str_eq(self.leader.as_str(), address)
    }

    /// Whether `address` follows this slot.
    pub fn is_follower(&self, address: &str) -> (r: bool)
        ensures
            r == self@.followers.contains(address@),
    {
        contains_str(&self.followers, address)
    }

    /// A copy of this slot.
    pub fn copy(&self) -> (s: Slot)
        ensures
            s@ == self@,
    {
        Slot {
            id: self.id,
            leader: self.leader.clone(),
            leader_epoch: self.leader_epoch,
            followers: copy_strings(&self.followers),
        }
    }
}

/// Ids in a list of slots are distinct.
pub open spec fn ids_unique(slots: Seq<SlotView>) -> bool {
    forall|i: int, j: int|
        0 <= i < j < slots.len() ==> #[trigger] slots[i].id != #[trigger] slots[j].id
}

/// With unique slot ids, the position of an id is where its slot stands,
/// or -1 when there is none.
pub proof fn lemma_position(slots: Seq<SlotView>, id: u32)
    requires
        ids_unique(slots),
    ensures
        position(slots, id) == -1 <==> (forall|k: int| 0 <= k < slots.len() ==> slots[k].id != id),
        position(slots, id) >= 0 ==> position(slots, id) < slots.len() && slots[position(
            slots,
            id,
        )].id == id,
        forall|k: int| 0 <= k < slots.len() && slots[k].id == id ==> position(slots, id) == k,
    decreases slots.len(),
{
    if slots.len() > 0 {
        lemma_position(slots.drop_last(), id);
        assert forall|k: int| 0 <= k < slots.len() - 1 implies slots.drop_last()[k] == slots[k] by {}
    }
}

proof fn lemma_place_unique(slots: Seq<SlotView>, s: SlotView)
    requires
        ids_unique(slots),
    ensures
        ids_unique(place(slots, s)),
        (forall|k: int| 0 <= k < slots.len() ==> slots[k].wf()) && s.wf() ==> (forall|k: int|
            0 <= k < place(slots, s).len() ==> place(slots, s)[k].wf()),
{
    lemma_position(slots, s.id);
}

/// A lookup finds a slot of the id exactly when one is there, and with
/// unique ids it finds that one.
pub proof fn lemma_lookup_unique(slots: Seq<SlotView>, id: u32)
    ensures
        lookup(slots, id) is None <==> (forall|k: int| 0 <= k < slots.len() ==> slots[k].id != id),
        lookup(slots, id) matches Some(v) ==> exists|k: int|
            0 <= k < slots.len() && slots[k] == v && v.id == id,
        ids_unique(slots) ==> forall|k: int|
            0 <= k < slots.len() && slots[k].id == id ==> lookup(slots, id) == Some(slots[k]),
    decreases slots.len(),
{
    if slots.len() > 0 {
        lemma_lookup_unique(slots.drop_first(), id);
        assert forall|k: int| 0 <= k < slots.len() - 1 implies slots.drop_first()[k] == slots[k
            + 1] by {}
        assert((forall|k: int| 0 <= k < slots.len() ==> slots[k].id != id) ==> (forall|k: int|
            0 <= k < slots.drop_first().len() ==> slots.drop_first()[k].id != id));
        if lookup(slots, id) is None {
            assert forall|k: int| 0 <= k < slots.len() implies slots[k].id != id by {
                if k > 0 {
                    assert(slots.drop_first()[k - 1] == slots[k]);
                }
            }
        }
        if let Some(v) = lookup(slots, id) {
            if slots[0].id != id {
                let k = choose|k: int|
                    0 <= k < slots.drop_first().len() && slots.drop_first()[k] == v && v.id == id;
                assert(slots[k + 1] == v);
            }
        }
        if ids_unique(slots) {
            assert(ids_unique(slots.drop_first())) by {
                assert forall|i: int, j: int|
                    0 <= i < j < slots.drop_first().len() implies #[trigger] slots.drop_first()[i].id
                    != #[trigger] slots.drop_first()[j].id by {
                    assert(slots[i + 1].id != slots[j + 1].id);
                }
            }
            assert forall|k: int| 0 <= k < slots.len() && slots[k].id == id implies lookup(
                slots,
                id,
            ) == Some(slots[k]) by {
                if k > 0 {
                    assert(slots[0].id != slots[k].id);
                    assert(slots.drop_first()[k - 1] == slots[k]);
                }
            }
        }
    }
}

/// A server belongs to `servers_of` exactly when it leads or follows some slot.
pub proof fn lemma_servers_of_members(slots: Seq<SlotView>, s: Seq<char>)
    ensures
        servers_of(slots).contains(s) <==> exists|i: int|
            0 <= i < slots.len() && involves(#[trigger] slots[i], s),
    decreases slots.len(),
{
    if slots.len() > 0 {
        lemma_servers_of_members(slots.drop_last(), s);
        let last = slots.last();
        assert(last.followers.to_set().contains(s) <==> last.followers.contains(s));
        if servers_of(slots.drop_last()).contains(s) {
            let i = choose|i: int|
                0 <= i < slots.drop_last().len() && involves(#[trigger] slots.drop_last()[i], s);
            assert(slots[i] == slots.drop_last()[i]);
        }
        if involves(last, s) {
            assert(slots[slots.len() - 1] == last);
        }
        if exists|i: int| 0 <= i < slots.len() && involves(#[trigger] slots[i], s) {
            let i = choose|i: int| 0 <= i < slots.len() && involves(#[trigger] slots[i], s);
            if i < slots.len() - 1 {
                assert(slots.drop_last()[i] == slots[i]);
            }
        }
    }
}

/// A dedup of a sequence without duplicates is the sequence itself.
pub proof fn lemma_dedup_distinct(s: Seq<Seq<char>>)
    requires
        s.no_duplicates(),
    ensures
        dedup(s) == s,
    decreases s.len(),
{
    if s.len() > 0 {
        assert(s.drop_last().no_duplicates());
        lemma_dedup_distinct(s.drop_last());
        assert(!s.drop_last().contains(s.last())) by {
            if s.drop_last().contains(s.last()) {
                let k = choose|k: int| 0 <= k < s.drop_last().len() && s.drop_last()[k] == s.last();
                assert(s[k] == s[s.len() - 1]);
            }
        }
        assert(s.drop_last().push(s.last()) =~= s);
    }
}

/// The servers of one more slot are those before plus its leader and
/// followers.
pub proof fn lemma_servers_of_step(slots: Seq<SlotView>, i: int)
    requires
        0 <= i < slots.len(),
    ensures
        servers_of(slots.take(i + 1)) == servers_of(slots.take(i)).insert(slots[i].leader).union(
            slots[i].followers.to_set(),
        ),
{
    assert(slots.take(i + 1).drop_last() =~= slots.take(i));
}

impl SlotTable {
    /// An empty table at the initial epoch.
    pub fn new_empty() -> (t: SlotTable)
        ensures
            t@.epoch == INIT_EPOCH,
            t@.slots.len() == 0,
            t@.wf(),
    {
        let t = SlotTable { epoch: INIT_EPOCH, slots: Vec::new() };
        assert(t@.slots =~= Seq::<SlotView>::empty());
        t
    }

    /// A table from a list of slots; a later slot replaces an earlier one
    /// with the same id.
    pub fn new(epoch: i64, slots: Vec<Slot>) -> (t: SlotTable)
        ensures
            t@.epoch == epoch,
            t@.slots == build(slot_views(slots@)),
            ids_unique(t@.slots),
            (forall|k: int| 0 <= k < slots.len() ==> slots@[k]@.wf()) ==> t@.wf(),
    {
        let ghost views = slot_views(slots@);
        let mut acc: Vec<Slot> = Vec::new();
        let mut i: usize = 0;
        assert(views.take(0) =~= Seq::<SlotView>::empty());
        assert(slot_views(acc@) =~= Seq::<SlotView>::empty());
        while i < slots.len()
            invariant
                i <= slots.len(),
                views == slot_views(slots@),
                slot_views(acc@) == build(views.take(i as int)),
                ids_unique(slot_views(acc@)),
                (forall|k: int| 0 <= k < i ==> slots@[k]@.wf()) ==> (forall|k: int|
                    0 <= k < acc.len() ==> slot_views(acc@)[k].wf()),
            decreases slots.len() - i,
        {
            let ghost before = slot_views(acc@);
            assert(views.take(i + 1).drop_last() =~= views.take(i as int));
            assert(views.take(i + 1).last() == slots@[i as int]@);
            proof {
                lemma_position(before, slots@[i as int].id);
                lemma_place_unique(before, slots@[i as int]@);
            }
            let id = slots[i].id;
            let mut j: usize = 0;
            while j < acc.len() && acc[j].id != id
                invariant
                    j <= acc.len(),
                    forall|k: int| 0 <= k < j ==> acc@[k].id != id,
                decreases acc.len() - j,
            {
                j = j + 1;
            }
            let s = slots[i].copy();
            if j < acc.len() {
                acc.set(j, s);
                assert(before[j as int].id == id);
                assert(slot_views(acc@) =~= before.update(j as int, slots@[i as int]@));
            } else {
                assert(forall|k: int| 0 <= k < before.len() ==> before[k].id != id);
                acc.push(s);
                assert(slot_views(acc@) =~= before.push(slots@[i as int]@));
            }
            i = i + 1;
        }
        assert(views.take(slots.len() as int) =~= views);
        SlotTable { epoch, slots: acc }
    }

    /// Whether the table has no slots.
    pub fn is_empty(&self) -> (r: bool)
        ensures
            r == (self@.slots.len() == 0),
    {
        self.slots.len() == 0
    }

    /// Number of slots.
    pub fn slot_count(&self) -> (r: usize)
        ensures
            r == self@.slots.len(),
    {
        self.slots.len()
    }

    /// The slot with the given id.
    pub fn get_slot(&self, id: u32) -> (r: Option<&Slot>)
        ensures
            match r {
                Some(s) => lookup(self@.slots, id) == Some(s@),
                None => lookup(self@.slots, id) is None,
            },
    {
        let ghost views = self@.slots;
        let mut i: usize = 0;
        assert(views.skip(0) =~= views);
        while i < self.slots.len()
            invariant
                i <= self.slots.len(),
                views == self@.slots,
                lookup(views, id) == lookup(views.skip(i as int), id),
            decreases self.slots.len() - i,
        {
            assert(views.skip(i as int)[0] == self.slots@[i as int]@);
            if self.slots[i].id == id {
                return Some(&self.slots[i]);
            }
            assert(views.skip(i as int).drop_first() =~= views.skip(i + 1));
            i = i + 1;
        }
        None
    }

    /// Number of slots that `server` leads.
    pub fn get_leader_count(&self, server: &str) -> (r: usize)
        ensures
            r == leader_count(self@.slots, server@),
    {
        let ghost views = self@.slots;
        let mut count: usize = 0;
        let mut i: usize = 0;
        assert(views.take(0) =~= Seq::<SlotView>::empty());
        while i < self.slots.len()
            invariant
                i <= self.slots.len(),
                views == self@.slots,
                count == leader_count(views.take(i as int), server@),
                count <= i,
            decreases self.slots.len() - i,
        {
            assert(views.take(i + 1).drop_last() =~= views.take(i as int));
            assert(views.take(i + 1).last() == self.slots@[i as int]@);
            if self.slots[i].is_leader(server) {
                count = count + 1;
            }
            i = i + 1;
        }
        assert(views.take(self.slots.len() as int) =~= views);
        count
    }

    /// The table restricted to the slots that `server` leads or follows.
    pub fn filter_by_server(&self, server: &str) -> (t: SlotTable)
        ensures
            t@.epoch == self@.epoch,
            t@.slots == involving(self@.slots, server@),
    {
        let ghost views = self@.slots;
        let mut out: Vec<Slot> = Vec::new();
        let mut i: usize = 0;
        assert(views.take(0) =~= Seq::<SlotView>::empty());
        assert(slot_views(out@) =~= Seq::<SlotView>::empty());
        while i < self.slots.len()
            invariant
                i <= self.slots.len(),
                views == self@.slots,
                slot_views(out@) == involving(views.take(i as int), server@),
            decreases self.slots.len() - i,
        {
            assert(views.take(i + 1).drop_last() =~= views.take(i as int));
            assert(views.take(i + 1).last() == self.slots@[i as int]@);
            if self.slots[i].is_leader(server) || self.slots[i].is_follower(server) {
                let ghost before = slot_views(out@);
                out.push(self.slots[i].copy());
                assert(slot_views(out@) =~= before.push(self.slots@[i as int]@));
            }
            i = i + 1;
        }
        assert(views.take(self.slots.len() as int) =~= views);
        SlotTable { epoch: self.epoch, slots: out }
    }

    /// Every data server in the table, each once, in ascending order.
    pub fn get_data_servers(&self) -> (r: Vec<String>)
        ensures
            sorted_by(strs(r@), string_order()),
            strs(r@).no_duplicates(),
            strs(r@).to_set() == self@.data_servers(),
    {
        let ghost views = self@.slots;
        let mut acc: Vec<String> = Vec::new();
        let mut i: usize = 0;
        assert(views.take(0) =~= Seq::<SlotView>::empty());
        assert(strs(acc@).to_set() =~= Set::<Seq<char>>::empty());
        while i < self.slots.len()
            invariant
                i <= self.slots.len(),
                views == self@.slots,
                strs(acc@).no_duplicates(),
                strs(acc@).to_set() == servers_of(views.take(i as int)),
            decreases self.slots.len() - i,
        {
            let slot = &self.slots[i];
            assert(views[i as int] == slot@);
            proof {
                lemma_servers_of_step(views, i as int);
            }
            if !contains_str(&acc, slot.leader.as_str()) {
                let ghost before = strs(acc@);
                acc.push(slot.leader.clone());
                assert(strs(acc@) =~= before.push(slot@.leader));
                proof {
                    lemma_push_to_set(before, slot@.leader);
                }
            }
            let mut k: usize = 0;
            assert(slot@.followers.take(0).to_set() =~= Set::<Seq<char>>::empty());
            assert(strs(acc@).to_set() =~= servers_of(views.take(i as int)).insert(slot@.leader));
            while k < slot.followers.len()
                invariant
                    k <= slot.followers.len(),
                    slot == &self.slots[i as int],
                    strs(acc@).no_duplicates(),
                    strs(acc@).to_set() == servers_of(views.take(i as int)).insert(
                        slot@.leader,
                    ).union(slot@.followers.take(k as int).to_set()),
                decreases slot.followers.len() - k,
            {
                proof {
                    lemma_take_to_set(slot@.followers, k as int);
                }
                assert(slot@.followers[k as int] == slot.followers@[k as int]@);
                if !contains_str(&acc, slot.followers[k].as_str()) {
                    let ghost before = strs(acc@);
                    acc.push(slot.followers[k].clone());
                    assert(strs(acc@) =~= before.push(slot@.followers[k as int]));
                    proof {
                        lemma_push_to_set(before, slot@.followers[k as int]);
                    }
                }
                assert(strs(acc@).to_set() =~= servers_of(views.take(i as int)).insert(
                    slot@.leader,
                ).union(slot@.followers.take(k + 1).to_set()));
                k = k + 1;
            }
            assert(slot@.followers.take(slot.followers.len() as int) =~= slot@.followers);
            i = i + 1;
        }
        assert(views.take(self.slots.len() as int) =~= views);
        let r = sort_strings(&acc);
        proof {
            lemma_string_order_total();
            strs(acc@).lemma_sort_by_ensures(string_order());
            lemma_same_multiset(strs(acc@), strs(r@));
        }
        r
    }

    /// A copy of this table.
    pub fn copy(&self) -> (t: SlotTable)
        ensures
            t@ == self@,
    {
        let mut out: Vec<Slot> = Vec::new();
        let mut i: usize = 0;
        while i < self.slots.len()
            invariant
                i <= self.slots.len(),
                slot_views(out@) == slot_views(self.slots@).take(i as int),
            decreases self.slots.len() - i,
        {
            let ghost before = slot_views(out@);
            let c = self.slots[i].copy();
            out.push(c);
            assert(slot_views(out@) =~= before.push(c@));
            assert(slot_views(out@) =~= slot_views(self.slots@).take(i + 1));
            i = i + 1;
        }
        assert(slot_views(self.slots@).take(self.slots.len() as int) =~= slot_views(self.slots@));
        SlotTable { epoch: self.epoch, slots: out }
    }
}

impl Clone for Slot {
    fn clone(&self) -> (s: Self)
        ensures
            s@ == self@,
    {
        self.copy()
    }
}

impl Clone for SlotTable {
    fn clone(&self) -> (t: Self)
        ensures
            t@ == self@,
    {
        self.copy()
    }
}

} // verus!
