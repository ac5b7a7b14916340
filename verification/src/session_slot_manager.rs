//! A session server's copy of the slot table, used to route a write to the
//! data server that leads the slot of its data id.
use vstd::prelude::*;
use crate::checksum::{slot_for, slot_of_key};
use crate::slot_table::{lookup, SlotTable, SlotTableView, SlotView, INIT_EPOCH};

verus! {

/// Where a write to slot `slot_id` goes: the slot and its leader, when the
/// table has the slot and the leader is known (not empty).
pub open spec fn route(slots: Seq<SlotView>, slot_id: u32) -> Option<(u32, Seq<char>)> {
    match lookup(slots, slot_id) {
        Some(s) => if s.leader.len() == 0 {
            None
        } else {
            Some((slot_id, s.leader))
        },
        None => None,
    }
}

/// The slot table as a session server holds it, with the slot count used to
/// place data ids.
pub struct SessionSlotManager {
    slot_table: SlotTable,
    slot_num: u32,
}

impl SessionSlotManager {
    /// The table held.
    pub closed spec fn table(&self) -> SlotTableView {
        self.slot_table@
    }

    /// The number of slots data ids are spread over.
    pub closed spec fn slot_count(&self) -> u32 {
        self.slot_num
    }

    /// A manager holding the empty table, placing data ids among `slot_num`
    /// slots.
    pub fn new(slot_num: u32) -> (m: SessionSlotManager)
        ensures
            m.table().epoch == INIT_EPOCH,
            m.table().slots.len() == 0,
            m.slot_count() == slot_num,
    {
        SessionSlotManager { slot_table: SlotTable::new_empty(), slot_num }
    }

    /// Replaces the table.
    pub fn update_slot_table(&mut self, table: SlotTable)
        ensures
            final(self).table() == table@,
            final(self).slot_count() == old(self).slot_count(),
    {
        self.slot_table = table;
    }

    /// The epoch of the table.
    pub fn get_epoch(&self) -> (e: i64)
        ensures
            e == self.table().epoch,
    {
        self.slot_table.epoch
    }

    /// The slot of `data_info_id`.
    pub fn slot_of(&self, data_info_id: &str) -> (slot: u32)
        requires
            self.slot_count() > 0,
        ensures
            slot == slot_for(data_info_id@, self.slot_count()),
            slot < self.slot_count(),
    {
        slot_of_key(data_info_id, self.slot_num)
    }

    /// The leader of slot `slot_id`, if the table has that slot.
    pub fn get_leader_for_slot(&self, slot_id: u32) -> (r: Option<String>)
        ensures
            match r {
                Some(a) => lookup(self.table().slots, slot_id) matches Some(s) && s.leader == a@,
                None => lookup(self.table().slots, slot_id) is None,
            },
    {
        match self.slot_table.get_slot(slot_id) {
            Some(s) => Some(s.leader.clone()),
            None => None,
        }
    }

    /// Where a write to slot `slot_id` goes: the slot and its leader, or
    /// `None` when the slot or its leader is unknown.
    pub fn route_slot(&self, slot_id: u32) -> (r: Option<(u32, String)>)
        ensures
            match r {
                Some(p) => route(self.table().slots, slot_id) == Some((p.0, p.1@)),
                None => route(self.table().slots, slot_id) is None,
            },
    {
        match self.get_leader_for_slot(slot_id) {
            Some(leader) => {
                if leader.as_str().is_empty() {
                    None
                } else {
                    Some((slot_id, leader))
                }
            },
            None => None,
        }
    }

    /// Where a write for `data_info_id` goes: its slot and that slot's
    /// leader, or `None` when the slot or its leader is unknown.
    pub fn get_leader_for_data(&self, data_info_id: &str) -> (r: Option<(u32, String)>)
        requires
            self.slot_count() > 0,
        ensures
            match r {
                Some(p) => route(self.table().slots, slot_for(data_info_id@, self.slot_count()))
                    == Some((p.0, p.1@)),
                None => route(self.table().slots, slot_for(data_info_id@, self.slot_count())) is None,
            },
    {
        let slot_id = self.slot_of(data_info_id);
        self.route_slot(slot_id)
    }

    /// Takes a table fetched from the meta server when it is newer than the
    /// one held. True when it was taken. The epoch held never goes down.
    pub fn accept_newer_table(&mut self, table: SlotTable) -> (taken: bool)
        ensures
            taken == (table@.epoch > old(self).table().epoch),
            final(self).table().epoch >= old(self).table().epoch,
            taken ==> final(self).table() == table@,
            !taken ==> final(self).table() == old(self).table(),
            final(self).slot_count() == old(self).slot_count(),
    {
        if table.epoch > self.get_epoch() {
            self.update_slot_table(table);
            true
        } else {
            false
        }
    }

    /// A copy of the table.
    pub fn get_slot_table(&self) -> (t: SlotTable)
        ensures
            t@ == self.table(),
    {
        self.slot_table.copy()
    }

    /// Whether a table has been received: its epoch is positive.
    pub fn is_initialized(&self) -> (r: bool)
        ensures
            r == (self.table().epoch > 0),
    {
        self.slot_table.epoch > 0
    }
}

} // verus!
