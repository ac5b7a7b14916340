//! Leader election among meta servers over a distributed lock: the
//! decisions, from the elector's state and what the lock store answered to
//! the next state and the notification to send.
use vstd::prelude::*;

verus! {

/// A meta server's role in the election.
#[derive(Clone, Copy, Debug, PartialEq, Eq, Structural)]
pub enum ElectorRole {
    Leader,
    Follower,
    Observer,
}

/// Who leads, for which term, and until when (wall-clock milliseconds).
#[derive(Debug)]
pub struct LeaderInfo {
    pub epoch: i64,
    pub leader: Option<String>,
    pub expire_timestamp: i64,
}

/// The model of leader information.
pub struct LeaderInfoView {
    pub epoch: i64,
    pub leader: Option<Seq<char>>,
    pub expire_timestamp: i64,
}

impl View for LeaderInfo {
    type V = LeaderInfoView;

    open spec fn view(&self) -> LeaderInfoView {
        LeaderInfoView {
            epoch: self.epoch,
            leader: match self.leader {
                Some(s) => Some(s@),
                None => None,
            },
            expire_timestamp: self.expire_timestamp,
        }
    }
}

/// No known leader.
pub open spec fn empty_leader_info() -> LeaderInfoView {
    LeaderInfoView { epoch: -1i64, leader: None, expire_timestamp: -1i64 }
}

impl LeaderInfo {
    /// No known leader: epoch and expiry -1.
    pub fn empty() -> (i: LeaderInfo)
        ensures
            i@ == empty_leader_info(),
    {
        LeaderInfo { epoch: -1, leader: None, expire_timestamp: -1 }
    }

    /// A copy of this information.
    pub fn copy(&self) -> (i: LeaderInfo)
        ensures
            i@ == self@,
    {
        LeaderInfo {
            epoch: self.epoch,
            leader: match &self.leader {
                Some(s) => Some(s.clone()),
                None => None,
            },
            expire_timestamp: self.expire_timestamp,
        }
    }
}

impl Clone for LeaderInfo {
    fn clone(&self) -> (i: Self)
        ensures
            i@ == self@,
    {
        self.copy()
    }
}

/// The leader lock as the lock store holds it.
#[derive(Debug)]
pub struct LockInfo {
    pub owner: String,
    pub term: i64,
    pub expire_timestamp: i64,
}

/// What the lock store is to be asked at the next election tick.
#[derive(Clone, Copy, Debug, PartialEq, Eq, Structural)]
pub enum ElectionAction {
    /// Extend the lock this server holds.
    Heartbeat,
    /// Try to take the lock.
    Compete,
    /// Read who holds the lock.
    Query,
}

/// What the observers of leadership are to be told.
#[derive(Clone, Copy, Debug, PartialEq, Eq, Structural)]
pub enum Notification {
    Nothing,
    BecameLeader,
    LostLeadership,
}

/// The notification owed for a change of role: leadership gained or lost.
pub open spec fn notification_for(before: ElectorRole, after: ElectorRole) -> Notification {
    if before != ElectorRole::Leader && after == ElectorRole::Leader {
        Notification::BecameLeader
    } else if before == ElectorRole::Leader && after != ElectorRole::Leader {
        Notification::LostLeadership
    } else {
        Notification::Nothing
    }
}

/// The action owed for a role at an election tick.
pub open spec fn action_for(role: ElectorRole) -> ElectionAction {
    match role {
        ElectorRole::Leader => ElectionAction::Heartbeat,
        ElectorRole::Follower => ElectionAction::Compete,
        ElectorRole::Observer => ElectionAction::Query,
    }
}

/// The leader information a lock gives.
pub open spec fn lock_leader_info(owner: Seq<char>, term: i64, expire: i64) -> LeaderInfoView {
    LeaderInfoView { epoch: term, leader: Some(owner), expire_timestamp: expire }
}

/// The role after learning who holds the lock: this server leads when it
/// holds it, steps down to follower when another does and it led; otherwise
/// its role is unchanged.
pub open spec fn role_after_lock(role: ElectorRole, is_me: bool) -> ElectorRole {
    if is_me {
        ElectorRole::Leader
    } else if role == ElectorRole::Leader {
        ElectorRole::Follower
    } else {
        role
    }
}

/// The election state of one meta server.
pub struct MetaLeaderElector {
    my_address: String,
    data_center: String,
    lock_duration_ms: i64,
    election_interval_ms: u64,
    leader_info: LeaderInfo,
    role: ElectorRole,
    was_leader: bool,
}

impl MetaLeaderElector {
    #[verifier::type_invariant]
    spec fn leadership_remembered(self) -> bool {
        self.was_leader == (self.role == ElectorRole::Leader)
    }

    /// The current role.
    pub closed spec fn role_of(&self) -> ElectorRole {
        self.role
    }

    /// The known leader.
    pub closed spec fn leader_of(&self) -> LeaderInfoView {
        self.leader_info@
    }

    /// This server's address.
    pub closed spec fn address(&self) -> Seq<char> {
        self.my_address@
    }

    /// The data center the lock belongs to.
    pub closed spec fn center(&self) -> Seq<char> {
        self.data_center@
    }

    /// The lock duration in milliseconds.
    pub closed spec fn lock_ms(&self) -> i64 {
        self.lock_duration_ms
    }

    /// The time between election ticks in milliseconds.
    pub closed spec fn interval_ms(&self) -> u64 {
        self.election_interval_ms
    }

    /// A follower that knows no leader yet.
    pub fn new(my_address: String, data_center: String, lock_duration_ms: i64, election_interval_ms: u64) -> (e: Self)
        ensures
            e.role_of() == ElectorRole::Follower,
            e.leader_of() == empty_leader_info(),
            e.address() == my_address@,
            e.center() == data_center@,
            e.lock_ms() == lock_duration_ms,
            e.interval_ms() == election_interval_ms,
    {
        MetaLeaderElector {
            my_address,
            data_center,
            lock_duration_ms,
            election_interval_ms,
            leader_info: LeaderInfo::empty(),
            role: ElectorRole::Follower,
            was_leader: false,
        }
    }

    /// What to ask the lock store at the next tick: a leader extends its
    /// lock, a follower competes for it, an observer reads it.
    pub fn next_action(&self) -> (a: ElectionAction)
        ensures
            a == action_for(self.role_of()),
    {
        match self.role {
            ElectorRole::Leader => ElectionAction::Heartbeat,
            ElectorRole::Follower => ElectionAction::Compete,
            ElectorRole::Observer => ElectionAction::Query,
        }
    }

    /// Records who leads and whether it is this server.
    pub fn update_leader_info(&mut self, info: LeaderInfo, is_me: bool) -> (n: Notification)
        ensures
            final(self).leader_of() == info@,
            final(self).role_of() == role_after_lock(old(self).role_of(), is_me),
            n == notification_for(old(self).role_of(), final(self).role_of()),
            final(self).address() == old(self).address(),
            final(self).center() == old(self).center(),
            final(self).lock_ms() == old(self).lock_ms(),
            final(self).interval_ms() == old(self).interval_ms(),
    {
        proof {
            use_type_invariant(&*self);
        }
        let was_leader = self.was_leader;
        let (role, now_leader, n) = if is_me && !was_leader {
            (ElectorRole::Leader, true, Notification::BecameLeader)
        } else if !is_me && was_leader {
            (ElectorRole::Follower, false, Notification::LostLeadership)
        } else if is_me {
            (ElectorRole::Leader, true, Notification::Nothing)
        } else {
            (self.role, was_leader, Notification::Nothing)
        };
        let address = self.my_address.clone();
        let center = self.data_center.clone();
        *self = MetaLeaderElector {
            my_address: address,
            data_center: center,
            lock_duration_ms: self.lock_duration_ms,
            election_interval_ms: self.election_interval_ms,
            leader_info: info,
            role,
            was_leader: now_leader,
        };
        n
    }

    /// Takes in the answer to a competition for the lock: the lock as it now
    /// stands, if anyone holds it.
    pub fn on_compete_result(&mut self, lock: Option<LockInfo>) -> (n: Notification)
        ensures
            match lock {
                Some(l) => {
                    &&& final(self).leader_of() == lock_leader_info(l.owner@, l.term, l.expire_timestamp)
                    &&& final(self).role_of() == role_after_lock(old(self).role_of(), l.owner@ == old(self).address())
                },
                None => final(self).leader_of() == old(self).leader_of() && final(self).role_of() == old(
                    self,
                ).role_of(),
            },
            n == notification_for(old(self).role_of(), final(self).role_of()),
            final(self).address() == old(self).address(),
    {
        match lock {
            Some(l) => {
                let is_me = crate::strings::str_eq(l.owner.as_str(), self.my_address.as_str());
                let info = LeaderInfo { epoch: l.term, leader: Some(l.owner), expire_timestamp: l.expire_timestamp };
                self.update_leader_info(info, is_me)
            },
            None => Notification::Nothing,
        }
    }

    /// Takes in the answer to a heartbeat: whether this server still holds
    /// the lock. When it does not, it steps down to follower.
    pub fn on_heartbeat_result(&mut self, still_owner: bool) -> (n: Notification)
        ensures
            still_owner ==> final(self).role_of() == old(self).role_of(),
            !still_owner ==> final(self).role_of() == ElectorRole::Follower,
            final(self).leader_of() == old(self).leader_of(),
            n == notification_for(old(self).role_of(), final(self).role_of()),
            final(self).address() == old(self).address(),
    {
        if still_owner {
            Notification::Nothing
        } else {
            self.change_to_follower()
        }
    }

    /// Takes in the answer to a query of the lock: the lock, when someone
    /// holds it and it has not expired. Only the known leader changes.
    pub fn on_query_result(&mut self, live_lock: Option<LockInfo>)
        ensures
            final(self).leader_of() == match live_lock {
                Some(l) => lock_leader_info(l.owner@, l.term, l.expire_timestamp),
                None => empty_leader_info(),
            },
            final(self).role_of() == old(self).role_of(),
            final(self).address() == old(self).address(),
    {
        let info = match live_lock {
            Some(l) => LeaderInfo { epoch: l.term, leader: Some(l.owner), expire_timestamp: l.expire_timestamp },
            None => LeaderInfo::empty(),
        };
        proof {
            use_type_invariant(&*self);
        }
        self.leader_info = info;
    }

    /// Whether this server leads.
    pub fn am_i_leader(&self) -> (r: bool)
        ensures
            r == (self.role_of() == ElectorRole::Leader),
    {
        self.role == ElectorRole::Leader
    }

    /// A copy of the known leader.
    pub fn get_leader_info(&self) -> (i: LeaderInfo)
        ensures
            i@ == self.leader_of(),
    {
        self.leader_info.copy()
    }

    /// The current role.
    pub fn get_role(&self) -> (r: ElectorRole)
        ensures
            r == self.role_of(),
    {
        self.role
    }

    /// This server's address.
    pub fn myself(&self) -> (r: &str)
        ensures
            r@ == self.address(),
    {
        self.my_address.as_str()
    }

    /// The data center the lock belongs to.
    pub fn data_center(&self) -> (r: &str)
        ensures
            r@ == self.center(),
    {
        self.data_center.as_str()
    }

    /// The lock duration in milliseconds.
    pub fn lock_duration_ms(&self) -> (r: i64)
        ensures
            r == self.lock_ms(),
    {
        self.lock_duration_ms
    }

    /// The time between election ticks in milliseconds.
    pub fn election_interval_ms(&self) -> (r: u64)
        ensures
            r == self.interval_ms(),
    {
        self.election_interval_ms
    }

    fn change_role(&mut self, role: ElectorRole) -> (n: Notification)
        requires
            role != ElectorRole::Leader,
        ensures
            final(self).role_of() == role,
            final(self).leader_of() == old(self).leader_of(),
            n == notification_for(old(self).role_of(), role),
            final(self).address() == old(self).address(),
    {
        proof {
            use_type_invariant(&*self);
        }
        let was_leader = self.role == ElectorRole::Leader;
        let info = self.leader_info.copy();
        let address = self.my_address.clone();
        let center = self.data_center.clone();
        *self = MetaLeaderElector {
            my_address: address,
            data_center: center,
            lock_duration_ms: self.lock_duration_ms,
            election_interval_ms: self.election_interval_ms,
            leader_info: info,
            role,
            was_leader: false,
        };
        if was_leader {
            Notification::LostLeadership
        } else {
            Notification::Nothing
        }
    }

    /// Becomes a follower; a leader that steps down is to tell its
    /// observers.
    pub fn change_to_follower(&mut self) -> (n: Notification)
        ensures
            final(self).role_of() == ElectorRole::Follower,
            final(self).leader_of() == old(self).leader_of(),
            n == notification_for(old(self).role_of(), ElectorRole::Follower),
            final(self).address() == old(self).address(),
    {
        self.change_role(ElectorRole::Follower)
    }

    /// Becomes an observer; a leader that steps down is to tell its
    /// observers.
    pub fn change_to_observer(&mut self) -> (n: Notification)
        ensures
            final(self).role_of() == ElectorRole::Observer,
            final(self).leader_of() == old(self).leader_of(),
            n == notification_for(old(self).role_of(), ElectorRole::Observer),
            final(self).address() == old(self).address(),
    {
        self.change_role(ElectorRole::Observer)
    }
}

/// Notifications come in alternation: after a leader is told it gained
/// leadership, the next notification it gets (if any) is a loss, and the
/// other way round, because each is owed exactly at a change of role.
pub proof fn lemma_notifications_alternate(a: ElectorRole, b: ElectorRole, c: ElectorRole)
    requires
        notification_for(a, b) == Notification::BecameLeader,
        notification_for(b, c) != Notification::Nothing,
    ensures
        notification_for(b, c) == Notification::LostLeadership,
{
}

} // verus!
