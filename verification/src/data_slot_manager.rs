//! A data server's view of the slot table: which slots it leads and which it
//! follows.
use vstd::prelude::*;
use crate::slot_table::{
    lemma_lookup_unique, ids_unique, lookup, Slot, SlotTable, SlotTableView, SlotView, INIT_EPOCH,
};

verus! {

/// Ids of the slots that `me` leads, in table order.
pub open spec fn leader_ids(slots: Seq<SlotView>, me: Seq<char>) -> Seq<u32>
    decreases slots.len(),
{
    if slots.len() == 0 {
        Seq::empty()
    } else if slots.last().leader == me {
        leader_ids(slots.drop_last(), me).push(slots.last().id)
    } else {
        leader_ids(slots.drop_last(), me)
    }
}

/// Ids of the slots that `me` follows without leading them, in table order.
pub open spec fn follower_ids(slots: Seq<SlotView>, me: Seq<char>) -> Seq<u32>
    decreases slots.len(),
{
    if slots.len() == 0 {
        Seq::empty()
    } else if slots.last().leader != me && slots.last().followers.contains(me) {
        follower_ids(slots.drop_last(), me).push(slots.last().id)
    } else {
        follower_ids(slots.drop_last(), me)
    }
}

/// Where the table holds each id once, `me` leads slot `id` exactly when the
/// slot of that id has `me` as leader, and follows it exactly when it is
/// listed among the followers of a slot that it does not lead; the two lists
/// hold each id at most once and never share one.
pub proof fn lemma_roles_match_lookup(slots: Seq<SlotView>, me: Seq<char>, id: u32)
    requires
        ids_unique(slots),
    ensures
        leader_ids(slots, me).contains(id) <==> (lookup(slots, id) matches Some(s) && s.leader
            == me),
        follower_ids(slots, me).contains(id) <==> (lookup(slots, id) matches Some(s) && s.leader
            != me && s.followers.contains(me)),
        !(leader_ids(slots, me).contains(id) && follower_ids(slots, me).contains(id)),
        leader_ids(slots, me).no_duplicates(),
        follower_ids(slots, me).no_duplicates(),
{
    lemma_role_members(slots, me);
    lemma_lookup_unique(slots, id);
    if leader_ids(slots, me).contains(id) {
        let k = choose|k: int| 0 <= k < slots.len() && slots[k].id == id && slots[k].leader == me;
        assert(lookup(slots, id) == Some(slots[k]));
    }
    if follower_ids(slots, me).contains(id) {
        let k = choose|k: int|
            0 <= k < slots.len() && slots[k].id == id && slots[k].leader != me
                && slots[k].followers.contains(me);
        assert(lookup(slots, id) == Some(slots[k]));
    }
    if let Some(s) = lookup(slots, id) {
        let k = choose|k: int| 0 <= k < slots.len() && slots[k] == s && s.id == id;
        assert(slots[k].id == id);
    }
}

proof fn lemma_role_members(slots: Seq<SlotView>, me: Seq<char>)
    ensures
        forall|id: u32|
            #[trigger] leader_ids(slots, me).contains(id) <==> exists|k: int|
                0 <= k < slots.len() && slots[k].id == id && slots[k].leader == me,
        forall|id: u32|
            #[trigger] follower_ids(slots, me).contains(id) <==> exists|k: int|
                0 <= k < slots.len() && slots[k].id == id && slots[k].leader != me
                    && slots[k].followers.contains(me),
        ids_unique(slots) ==> leader_ids(slots, me).no_duplicates(),
        ids_unique(slots) ==> follower_ids(slots, me).no_duplicates(),
    decreases slots.len(),
{
    if slots.len() > 0 {
        let d = slots.drop_last();
        let n = slots.len() - 1;
        lemma_role_members(d, me);
        assert forall|k: int| 0 <= k < n implies d[k] == slots[k] by {}
        assert forall|id: u32|
            #[trigger] leader_ids(slots, me).contains(id) <==> exists|k: int|
                0 <= k < slots.len() && slots[k].id == id && slots[k].leader == me by {
            if leader_ids(slots, me).contains(id) {
                if leader_ids(d, me).contains(id) {
                    let k = choose|k: int| 0 <= k < d.len() && d[k].id == id && d[k].leader == me;
                    assert(slots[k] == d[k]);
                } else {
                    let j = choose|j: int| 0 <= j < leader_ids(slots, me).len() && leader_ids(slots, me)[j] == id;
                    assert(slots.last().leader == me);
                    assert(j == leader_ids(d, me).len());
                    assert(slots[n].id == id);
                }
            }
            if exists|k: int| 0 <= k < slots.len() && slots[k].id == id && slots[k].leader == me {
                let k = choose|k: int| 0 <= k < slots.len() && slots[k].id == id && slots[k].leader == me;
                if k < n {
                    assert(d[k] == slots[k]);
                    assert(leader_ids(d, me).contains(id));
                    let j = choose|j: int| 0 <= j < leader_ids(d, me).len() && leader_ids(d, me)[j] == id;
                    assert(leader_ids(slots, me)[j] == id);
                } else {
                    assert(leader_ids(slots, me)[leader_ids(d, me).len() as int] == id);
                }
            }
        }
        assert forall|id: u32|
            #[trigger] follower_ids(slots, me).contains(id) <==> exists|k: int|
                0 <= k < slots.len() && slots[k].id == id && slots[k].leader != me
                    && slots[k].followers.contains(me) by {
            if follower_ids(slots, me).contains(id) {
                if follower_ids(d, me).contains(id) {
                    let k = choose|k: int|
                        0 <= k < d.len() && d[k].id == id && d[k].leader != me
                            && d[k].followers.contains(me);
                    assert(slots[k] == d[k]);
                } else {
                    let j = choose|j: int|
                        0 <= j < follower_ids(slots, me).len() && follower_ids(slots, me)[j] == id;
                    assert(j == follower_ids(d, me).len());
                    assert(slots[n].id == id);
                }
            }
            if exists|k: int|
                0 <= k < slots.len() && slots[k].id == id && slots[k].leader != me
                    && slots[k].followers.contains(me) {
                let k = choose|k: int|
                    0 <= k < slots.len() && slots[k].id == id && slots[k].leader != me
                        && slots[k].followers.contains(me);
                if k < n {
                    assert(d[k] == slots[k]);
                    assert(follower_ids(d, me).contains(id));
                    let j = choose|j: int|
                        0 <= j < follower_ids(d, me).len() && follower_ids(d, me)[j] == id;
                    assert(follower_ids(slots, me)[j] == id);
                } else {
                    assert(follower_ids(slots, me)[follower_ids(d, me).len() as int] == id);
                }
            }
        }
        if ids_unique(slots) {
            assert(ids_unique(d));
            let last = slots.last();
            if last.leader == me {
                assert(!leader_ids(d, me).contains(last.id)) by {
                    if leader_ids(d, me).contains(last.id) {
                        let k = choose|k: int| 0 <= k < d.len() && d[k].id == last.id && d[k].leader == me;
                        assert(slots[k].id != slots[n].id);
                    }
                }
            }
            if last.leader != me && last.followers.contains(me) {
                assert(!follower_ids(d, me).contains(last.id)) by {
                    if follower_ids(d, me).contains(last.id) {
                        let k = choose|k: int|
                            0 <= k < d.len() && d[k].id == last.id && d[k].leader != me
                                && d[k].followers.contains(me);
                        assert(slots[k].id != slots[n].id);
                    }
                }
            }
        }
    }
}

/// The slot table as a data server holds it, with the slots it leads and
/// follows worked out.
pub struct DataSlotManager {
    slot_table: SlotTable,
    my_address: String,
    my_leader_slots: Vec<u32>,
    my_follower_slots: Vec<u32>,
}

impl DataSlotManager {
    #[verifier::type_invariant]
    spec fn roles_computed(self) -> bool {
        &&& self.my_leader_slots@ == leader_ids(self.slot_table@.slots, self.my_address@)
        &&& self.my_follower_slots@ == follower_ids(self.slot_table@.slots, self.my_address@)
    }

    /// The table held.
    pub closed spec fn table(&self) -> SlotTableView {
        self.slot_table@
    }

    /// This server's address.
    pub closed spec fn address(&self) -> Seq<char> {
        self.my_address@
    }

    fn roles(table: &SlotTable, me: &str) -> (r: (Vec<u32>, Vec<u32>))
        ensures
            r.0@ == leader_ids(table@.slots, me@),
            r.1@ == follower_ids(table@.slots, me@),
    {
        let ghost slots = table@.slots;
        let mut leaders: Vec<u32> = Vec::new();
        let mut followers: Vec<u32> = Vec::new();
        let mut i: usize = 0;
        assert(slots.take(0) =~= Seq::<SlotView>::empty());
        while i < table.slots.len()
            invariant
                i <= table.slots.len(),
                slots == table@.slots,
                leaders@ == leader_ids(slots.take(i as int), me@),
                followers@ == follower_ids(slots.take(i as int), me@),
            decreases table.slots.len() - i,
        {
            let s: &Slot = &table.slots[i];
            assert(slots.take(i + 1).drop_last() =~= slots.take(i as int));
            assert(slots.take(i + 1).last() == s@);
            if s.is_leader(me) {
                leaders.push(s.id);
            } else if s.is_follower(me) {
                followers.push(s.id);
            }
            i = i + 1;
        }
        assert(slots.take(table.slots.len() as int) =~= slots);
        (leaders, followers)
    }

    /// A manager for the server at `my_address`, holding the empty table.
    pub fn new(my_address: &str) -> (m: DataSlotManager)
        ensures
            m.table().epoch == INIT_EPOCH,
            m.table().slots.len() == 0,
            m.address() == my_address@,
    {
        let table = SlotTable::new_empty();
        let address = my_address.to_string();
        let (l, f) = Self::roles(&table, my_address);
        DataSlotManager { slot_table: table, my_address: address, my_leader_slots: l, my_follower_slots: f }
    }

    /// Replaces the table and works out again which slots this server leads
    /// and follows.
    pub fn update_slot_table(&mut self, table: SlotTable)
        ensures
            final(self).table() == table@,
            final(self).address() == old(self).address(),
    {
        let (l, f) = Self::roles(&table, self.my_address.as_str());
        let address = self.my_address.clone();
        *self = DataSlotManager { slot_table: table, my_address: address, my_leader_slots: l, my_follower_slots: f };
    }

    /// Takes a table fetched from the meta server when it is newer than the
    /// one held. True when it was taken.
    pub fn accept_newer_table(&mut self, table: SlotTable) -> (taken: bool)
        ensures
            taken == (table@.epoch > old(self).table().epoch),
            taken ==> final(self).table() == table@,
            !taken ==> final(self).table() == old(self).table(),
            final(self).address() == old(self).address(),
    {
        if table.epoch > self.get_slot_table_epoch() {
            self.update_slot_table(table);
            true
        } else {
            false
        }
    }

    /// A copy of the table.
    pub fn get_slot_table(&self) -> (t: SlotTable)
        ensures
            t@ == self.table(),
    {
        self.slot_table.copy()
    }

    /// The epoch of the table.
    pub fn get_slot_table_epoch(&self) -> (e: i64)
        ensures
            e == self.table().epoch,
    {
        self.slot_table.epoch
    }

    /// Whether this server leads slot `slot_id`.
    pub fn am_i_leader(&self, slot_id: u32) -> (r: bool)
        ensures
            r == leader_ids(self.table().slots, self.address()).contains(slot_id),
    {
        proof {
            use_type_invariant(self);
        }
        contains_id(&self.my_leader_slots, slot_id)
    }

    /// Whether this server follows slot `slot_id` without leading it.
    pub fn am_i_follower(&self, slot_id: u32) -> (r: bool)
        ensures
            r == follower_ids(self.table().slots, self.address()).contains(slot_id),
    {
        proof {
            use_type_invariant(self);
        }
        contains_id(&self.my_follower_slots, slot_id)
    }

    /// The leader of slot `slot_id`, if the table has that slot.
    pub fn get_leader_for_slot(&self, slot_id: u32) -> (r: Option<String>)
        ensures
            match r {
                Some(a) => lookup(self.table().slots, slot_id) matches Some(s) && s.leader == a@,
                None => lookup(self.table().slots, slot_id) is None,
            },
    {
        match self.slot_table.get_slot(slot_id) {
            Some(s) => Some(s.leader.clone()),
            None => None,
        }
    }

    /// The ids of the slots this server leads, in table order.
    pub fn my_leader_slots(&self) -> (r: Vec<u32>)
        ensures
            r@ == leader_ids(self.table().slots, self.address()),
    {
        proof {
            use_type_invariant(self);
        }
        let r = self.my_leader_slots.clone();
        assert(r@ =~= self.my_leader_slots@);
        r
    }

    /// The ids of the slots this server follows without leading them, in
    /// table order.
    pub fn my_follower_slots(&self) -> (r: Vec<u32>)
        ensures
            r@ == follower_ids(self.table().slots, self.address()),
    {
        proof {
            use_type_invariant(self);
        }
        let r = self.my_follower_slots.clone();
        assert(r@ =~= self.my_follower_slots@);
        r
    }

    /// This server's address.
    pub fn my_address(&self) -> (r: &str)
        ensures
            r@ == self.address(),
    {
        self.my_address.as_str()
    }
}

/// Whether `id` occurs in `v`.
pub fn contains_id(v: &Vec<u32>, id: u32) -> (r: bool)
    ensures
        r == v@.contains(id),
{
    let mut i: usize = 0;
    while i < v.len()
        invariant
            i <= v.len(),
            forall|k: int| 0 <= k < i ==> v@[k] != id,
        decreases v.len() - i,
    {
        if v[i] == id {
            assert(v@[i as int] == id);
            return true;
        }
        i = i + 1;
    }
    false
}

} // verus!
