//! The meta server's global slot table: first assignment and rebalancing
//! when the set of data servers changes.
use vstd::prelude::*;
use crate::data_server_manager::{node_addresses, DataServerManager};
use crate::slot_allocator::{allocation, lemma_allocation_covers_servers, SlotAllocator};
use crate::slot_table::{SlotTable, SlotTableView};
use crate::strings::{lemma_same_multiset, lemma_string_order_total, same_string_set, string_order};

verus! {

/// Number of slots and replicas per slot.
pub struct SlotConfig {
    pub slot_num: u32,
    pub slot_replicas: u32,
}

/// Default number of slots.
pub const DEFAULT_SLOT_NUM: u32 = 256;

/// Default number of replicas per slot.
pub const DEFAULT_SLOT_REPLICAS: u32 = 2;

impl Default for SlotConfig {
    fn default() -> (c: SlotConfig)
        ensures
            c.slot_num == DEFAULT_SLOT_NUM,
            c.slot_replicas == DEFAULT_SLOT_REPLICAS,
    {
        SlotConfig { slot_num: DEFAULT_SLOT_NUM, slot_replicas: DEFAULT_SLOT_REPLICAS }
    }
}

/// Whether `table` no longer matches the active `servers`: an empty table
/// with some server, or a table whose servers differ from them as a set.
pub open spec fn rebalance_needed(table: SlotTableView, servers: Seq<Seq<char>>) -> bool {
    if table.slots.len() == 0 {
        servers.len() > 0
    } else {
        table.data_servers() != servers.to_set()
    }
}

/// The table that assignment makes of `table` over the active `servers`,
/// or `None` when it leaves the table as it is.
pub open spec fn assignment(
    table: SlotTableView,
    servers: Seq<Seq<char>>,
    slot_num: u32,
    replicas: u32,
) -> Option<SlotTableView> {
    if servers.len() == 0 {
        None
    } else if table.slots.len() == 0 {
        Some(allocation(slot_num, replicas, servers, 1))
    } else if servers.to_set() == table.data_servers() {
        None
    } else {
        Some(
            allocation(
                #[verifier::truncate] (table.slots.len() as u32),
                replicas,
                servers.sort_by(string_order()),
                (table.epoch + 1) as i64,
            ),
        )
    }
}

/// The global slot table of the meta server.
pub struct MetaSlotManager {
    slot_table: SlotTable,
    slot_config: SlotConfig,
}

impl MetaSlotManager {
    /// The current slot table.
    pub closed spec fn table(&self) -> SlotTableView {
        self.slot_table@
    }

    /// The configured number of slots.
    pub closed spec fn slot_num(&self) -> u32 {
        self.slot_config.slot_num
    }

    /// The configured replicas per slot.
    pub closed spec fn slot_replicas(&self) -> u32 {
        self.slot_config.slot_replicas
    }

    /// A manager with an empty table.
    pub fn new(slot_config: SlotConfig) -> (m: MetaSlotManager)
        ensures
            m.table().epoch == crate::slot_table::INIT_EPOCH,
            m.table().slots.len() == 0,
            m.slot_num() == slot_config.slot_num,
            m.slot_replicas() == slot_config.slot_replicas,
    {
        MetaSlotManager { slot_table: SlotTable::new_empty(), slot_config }
    }

    /// A copy of the current table.
    pub fn get_slot_table(&self) -> (t: SlotTable)
        ensures
            t@ == self.table(),
    {
        self.slot_table.copy()
    }

    /// The current epoch.
    pub fn get_epoch(&self) -> (e: i64)
        ensures
            e == self.table().epoch,
    {
        self.slot_table.epoch
    }

    /// Assigns slots when the table is empty, or rebalances when the data
    /// servers changed. True when the table was replaced.
    pub fn try_assign_or_rebalance(&mut self, data_servers: &DataServerManager) -> (updated: bool)
        requires
            old(self).table().epoch < i64::MAX,
        ensures
            final(self).slot_num() == old(self).slot_num(),
            final(self).slot_replicas() == old(self).slot_replicas(),
            ({
                let a = assignment(
                    old(self).table(),
                    node_addresses(data_servers.entries()),
                    old(self).slot_num(),
                    old(self).slot_replicas(),
                );
                &&& updated == a is Some
                &&& a matches Some(t) ==> final(self).table() == t
                &&& a is None ==> final(self).table() == old(self).table()
            }),
    {
        let servers = data_servers.get_data_server_addresses();
        if servers.len() == 0 {
            return false;
        }
        if self.slot_table.is_empty() {
            match SlotAllocator::allocate(
                self.slot_config.slot_num,
                self.slot_config.slot_replicas,
                &servers,
                1,
            ) {
                Some(t) => {
                    self.slot_table = t;
                    return true;
                },
                None => {
                    return false;
                },
            }
        }
        match SlotAllocator::rebalance(&self.slot_table, &servers, self.slot_config.slot_replicas) {
            Some(t) => {
                self.slot_table = t;
                true
            },
            None => false,
        }
    }

    /// Replaces the table (as when following the leader).
    pub fn set_slot_table(&mut self, table: SlotTable)
        ensures
            final(self).table() == table@,
            final(self).slot_num() == old(self).slot_num(),
            final(self).slot_replicas() == old(self).slot_replicas(),
    {
        self.slot_table = table;
    }

    /// Whether the table needs an assignment or a rebalance for the active
    /// data servers.
    pub fn needs_rebalance(&self, data_servers: &DataServerManager) -> (r: bool)
        ensures
            r == rebalance_needed(self.table(), node_addresses(data_servers.entries())),
    {
        if self.slot_table.is_empty() {
            return data_servers.count() > 0;
        }
        let current = self.slot_table.get_data_servers();
        let active = data_servers.get_data_server_addresses();
        !same_string_set(&current, &active)
    }
}

/// An assignment that replaces the table settles it: when there are at
/// least as many slots as data servers, the new table covers exactly the
/// active servers and needs no further rebalance.
pub proof fn lemma_assignment_settles(
    table: SlotTableView,
    servers: Seq<Seq<char>>,
    slot_num: u32,
    replicas: u32,
)
    requires
        assignment(table, servers, slot_num, replicas) is Some,
        table.slots.len() == 0 ==> servers.len() <= slot_num,
        table.slots.len() > 0 ==> servers.len() <= table.slots.len() <= u32::MAX,
    ensures
        !rebalance_needed(assignment(table, servers, slot_num, replicas)->0, servers),
{
    let n = servers.len();
    if table.slots.len() == 0 {
        lemma_allocation_covers_servers(slot_num, replicas, servers, 1);
    } else {
        broadcast use vstd::seq_lib::group_to_multiset_ensures;

        lemma_string_order_total();
        let sorted = servers.sort_by(string_order());
        servers.lemma_sort_by_ensures(string_order());
        servers.to_multiset_ensures();
        sorted.to_multiset_ensures();
        lemma_same_multiset(servers, sorted);
        assert(sorted.len() == n);
        lemma_allocation_covers_servers(
            table.slots.len() as u32,
            replicas,
            sorted,
            (table.epoch + 1) as i64,
        );
    }
}

} // verus!
