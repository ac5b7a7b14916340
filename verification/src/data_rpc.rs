//! What a data server decides on its requests: which data center a request
//! is for, whether it leads the request's slot, which session leases to
//! renew, what to answer a follower's digest, and the change events of a
//! write; plus the merging of change events before session servers are told.
use vstd::prelude::*;
use crate::channel_pool::CallOutcome;
use crate::data_slot_manager::{leader_ids, DataSlotManager};
use crate::keyed::{kget, kinsert, kput, kunique, kviews, lemma_kput_kdel};
use crate::model::{DatumVersion, Publisher};
use crate::session_lease_manager::{expiry, renewed, SessionLeaseManager, SessionLeaseView};
use crate::slot_diff::{diff_digests, digest_views, DatumDigest, DatumSummary, DigestView, SlotDiffSyncer};
use crate::slot_table::lookup;
use crate::strings::{contains_str, strs};
use crate::wire::{pb_of_publisher, publisher_to_pb, PublisherPb, PublisherPbView};

verus! {

/// The data center a request is for: its own, or this server's when it
/// names none.
pub fn resolve_data_center<'a>(requested: &'a str, own: &'a str) -> (dc: &'a str)
    ensures
        dc@ == (if requested@.len() == 0 {
            own@
        } else {
            requested@
        }),
{
    if requested.is_empty() {
        own
    } else {
        requested
    }
}

/// Why a data server refuses a request.
#[derive(Debug, PartialEq, Eq)]
pub enum DataRpcError {
    /// This server does not lead the slot; `new_leader` is the leader it
    /// knows, empty when none.
    SlotMoved { slot_id: u32, new_leader: String },
}

/// Accepts a request for slot `slot_id` only when this server leads it.
pub fn check_slot_leader(slots: &DataSlotManager, slot_id: u32) -> (r: Result<(), DataRpcError>)
    ensures
        leader_ids(slots.table().slots, slots.address()).contains(slot_id) ==> r is Ok,
        !leader_ids(slots.table().slots, slots.address()).contains(slot_id) ==> (r matches Err(
            DataRpcError::SlotMoved { slot_id: s, new_leader },
        ) && s == slot_id && new_leader@ == match lookup(slots.table().slots, slot_id) {
            Some(sl) => sl.leader,
            None => Seq::empty(),
        }),
{
    if slots.am_i_leader(slot_id) {
        Ok(())
    } else {
        let leader = match slots.get_leader_for_slot(slot_id) {
            Some(l) => l,
            None => {
                let e = String::new();
                assert(e@ =~= Seq::<char>::empty());
                e
            },
        };
        Err(DataRpcError::SlotMoved { slot_id, new_leader: leader })
    }
}

/// The session servers a publication names, in order: the non-empty
/// session process ids of its publishers.
pub open spec fn named_sessions(pubs: Seq<PublisherPbView>) -> Seq<Seq<char>>
    decreases pubs.len(),
{
    if pubs.len() == 0 {
        Seq::empty()
    } else if pubs.last().session_process_id.len() == 0 {
        named_sessions(pubs.drop_last())
    } else {
        named_sessions(pubs.drop_last()).push(pubs.last().session_process_id)
    }
}

/// The wire models of a list of publishers.
pub open spec fn pb_views(v: Seq<PublisherPb>) -> Seq<PublisherPbView> {
    v.map_values(|p: PublisherPb| p@)
}

/// The leases after renewing each address of `addrs` in turn at `now`,
/// with the address as its process id.
pub open spec fn renew_all(s: Seq<SessionLeaseView>, addrs: Seq<Seq<char>>, now: i64, duration: i64) -> Seq<
    SessionLeaseView,
>
    decreases addrs.len(),
{
    if addrs.len() == 0 {
        s
    } else {
        let a = addrs.last();
        renewed(
            renew_all(s, addrs.drop_last(), now, duration),
            SessionLeaseView {
                address: a,
                process_id: a,
                last_renew_timestamp: now,
                expire_timestamp: expiry(now, duration),
            },
        )
    }
}

/// Renews, at `now`, the lease of every session server a publication names.
pub fn renew_named_sessions_at(leases: &mut SessionLeaseManager, publishers: &Vec<PublisherPb>, now: i64)
    ensures
        final(leases).leases() == renew_all(old(leases).leases(), named_sessions(pb_views(publishers@)), now, old(leases).duration_ms()),
        final(leases).duration_ms() == old(leases).duration_ms(),
{
    let ghost names = named_sessions(pb_views(publishers@));
    let ghost start = leases.leases();
    let mut i: usize = 0;
    assert(pb_views(publishers@).take(0) =~= Seq::<PublisherPbView>::empty());
    while i < publishers.len()
        invariant
            i <= publishers.len(),
            leases.duration_ms() == old(leases).duration_ms(),
            start == old(leases).leases(),
            leases.leases() == renew_all(start, named_sessions(pb_views(publishers@).take(i as int)), now, leases.duration_ms()),
        decreases publishers.len() - i,
    {
        let ghost pv = pb_views(publishers@);
        assert(pv.take(i + 1).drop_last() =~= pv.take(i as int));
        assert(pv.take(i + 1).last() == publishers@[i as int]@);
        let sid = publishers[i].session_process_id.as_str();
        if !sid.is_empty() {
            let ghost before = leases.leases();
            leases.renew_at(sid, sid, now);
            assert(named_sessions(pv.take(i + 1)).drop_last() =~= named_sessions(pv.take(i as int)));
        }
        i = i + 1;
    }
    assert(pb_views(publishers@).take(publishers.len() as int) =~= pb_views(publishers@));
}

/// The answer to a follower's digest of a slot.
#[derive(Debug)]
pub struct SlotDiffDigestResponse {
    pub success: bool,
    pub updated_data_info_ids: Vec<String>,
    pub removed_data_info_ids: Vec<String>,
    pub updated_digests: Vec<DatumDigest>,
}

/// The leader's digests whose ids are among `ids`, in order.
pub open spec fn digests_among(s: Seq<DigestView>, ids: Seq<Seq<char>>) -> Seq<DigestView>
    decreases s.len(),
{
    if s.len() == 0 {
        s
    } else if ids.contains(s.last().id) {
        digests_among(s.drop_last(), ids).push(s.last())
    } else {
        digests_among(s.drop_last(), ids)
    }
}

/// Answers a follower's digest of slot `slot_id` (`follower`) from what this
/// leader stores (`entries`): the ids the follower must fetch, with this
/// leader's digests of them, and the ids it must drop.
pub fn slot_diff_response(
    syncer: &SlotDiffSyncer,
    entries: &[DatumSummary],
    slot_id: u32,
    follower: &[DatumDigest],
) -> (r: SlotDiffDigestResponse)
    requires
        syncer.slot_count() > 0,
    ensures
        ({
            let leader = crate::slot_diff::slot_digest(entries@, syncer.slot_count(), slot_id);
            let f = digest_views(follower@);
            &&& r.success
            &&& strs(r.updated_data_info_ids@) == crate::slot_diff::updated_ids(
                crate::slot_table::dedup(crate::slot_diff::digest_ids(leader)),
                leader,
                f,
            )
            &&& strs(r.removed_data_info_ids@) == crate::slot_diff::missing_ids(
                crate::slot_table::dedup(crate::slot_diff::digest_ids(f)),
                leader,
            )
            &&& digest_views(r.updated_digests@) == digests_among(leader, strs(r.updated_data_info_ids@))
        }),
{
    let local = syncer.compute_slot_digest(entries, slot_id);
    let diff = diff_digests(follower, local.as_slice());
    let ghost lv = digest_views(local@);
    let mut updated_digests: Vec<DatumDigest> = Vec::new();
    let mut i: usize = 0;
    assert(lv.take(0) =~= Seq::<DigestView>::empty());
    assert(digest_views(updated_digests@) =~= Seq::<DigestView>::empty());
    while i < local.len()
        invariant
            i <= local.len(),
            lv == digest_views(local@),
            digest_views(updated_digests@) == digests_among(lv.take(i as int), strs(diff.updated@)),
        decreases local.len() - i,
    {
        assert(lv.take(i + 1).drop_last() =~= lv.take(i as int));
        assert(lv.take(i + 1).last() == local@[i as int]@);
        if contains_str(&diff.updated, local[i].data_info_id.as_str()) {
            let ghost before = digest_views(updated_digests@);
            let d = DatumDigest {
                data_info_id: local[i].data_info_id.clone(),
                version: local[i].version,
                publisher_count: local[i].publisher_count,
            };
            updated_digests.push(d);
            assert(digest_views(updated_digests@) =~= before.push(local@[i as int]@));
        }
        i = i + 1;
    }
    assert(lv.take(local.len() as int) =~= lv);
    SlotDiffDigestResponse {
        success: true,
        updated_data_info_ids: diff.updated,
        removed_data_info_ids: diff.removed,
        updated_digests,
    }
}

/// A change of a datum, to be told to session servers.
#[derive(Debug)]
pub struct DataChangeEvent {
    pub data_center: String,
    pub data_info_id: String,
    pub version: DatumVersion,
}

/// The model of a change event.
pub struct ChangeView {
    pub data_center: Seq<char>,
    pub data_info_id: Seq<char>,
    pub version: DatumVersion,
}

impl View for DataChangeEvent {
    type V = ChangeView;

    open spec fn view(&self) -> ChangeView {
        ChangeView { data_center: self.data_center@, data_info_id: self.data_info_id@, version: self.version }
    }
}

impl DataChangeEvent {
    /// A copy of this event.
    pub fn copy(&self) -> (e: DataChangeEvent)
        ensures
            e@ == self@,
    {
        DataChangeEvent {
            data_center: self.data_center.clone(),
            data_info_id: self.data_info_id.clone(),
            version: self.version,
        }
    }
}

impl Clone for DataChangeEvent {
    fn clone(&self) -> (e: Self)
        ensures
            e@ == self@,
    {
        self.copy()
    }
}

/// Change events gathered over a debounce window: one per data id, the
/// latest winning, in the order the data ids first changed.
pub struct ChangeBatch {
    events: Vec<(String, DataChangeEvent)>,
}

impl ChangeBatch {
    #[verifier::type_invariant]
    spec fn one_event_per_id(self) -> bool {
        kunique(kviews(self.events@))
    }

    /// The events gathered, keyed by data id.
    pub closed spec fn events(&self) -> Seq<(Seq<char>, ChangeView)> {
        kviews(self.events@)
    }

    /// No events.
    pub fn new() -> (b: ChangeBatch)
        ensures
            b.events().len() == 0,
    {
        let b = ChangeBatch { events: Vec::new() };
        assert(b.events() =~= Seq::<(Seq<char>, ChangeView)>::empty());
        b
    }

    /// Adds an event, replacing an earlier one for the same data id.
    pub fn add(&mut self, event: DataChangeEvent)
        ensures
            final(self).events() == kput(old(self).events(), event@.data_info_id, event@),
    {
        proof {
            use_type_invariant(&*self);
        }
        let key = event.data_info_id.clone();
        let mut v: Vec<(String, DataChangeEvent)> = Vec::new();
        std::mem::swap(&mut v, &mut self.events);
        kinsert(&mut v, key, event);
        self.events = v;
    }

    /// Number of data ids with an event.
    pub fn len(&self) -> (n: usize)
        ensures
            n == self.events().len(),
    {
        self.events.len()
    }

    /// Whether there is no event.
    pub fn is_empty(&self) -> (r: bool)
        ensures
            r == (self.events().len() == 0),
    {
        self.events.len() == 0
    }

    /// Copies of the events, in order.
    pub fn to_vec(&self) -> (r: Vec<DataChangeEvent>)
        ensures
            r@.len() == self.events().len(),
            forall|k: int| 0 <= k < r@.len() ==> #[trigger] r@[k]@ == self.events()[k].1,
    {
        let mut out: Vec<DataChangeEvent> = Vec::new();
        let mut i: usize = 0;
        while i < self.events.len()
            invariant
                i <= self.events.len(),
                out@.len() == i,
                forall|k: int| 0 <= k < i ==> #[trigger] out@[k]@ == self.events()[k].1,
            decreases self.events.len() - i,
        {
            out.push(self.events[i].1.copy());
            i = i + 1;
        }
        out
    }
}

/// What a data server does next while telling the active session servers
/// of merged changes: open a channel to a session server, send it one of
/// the changes, or stop.
#[derive(Clone, Copy, Debug, PartialEq, Eq, Structural)]
pub enum NotifyAction {
    Connect { session: usize },
    Send { session: usize, event: usize },
    Done,
}

/// The action at a point of the walk over `sessions` session servers:
/// `event` is `None` before a channel to `session` is open.
pub open spec fn notify_action(sessions: usize, session: usize, event: Option<usize>) -> NotifyAction {
    if session >= sessions {
        NotifyAction::Done
    } else {
        match event {
            None => NotifyAction::Connect { session },
            Some(e) => NotifyAction::Send { session, event: e },
        }
    }
}

/// Where the walk goes after the outcome of its action at
/// (`session`, `event`), with `events` changes to tell: a server whose
/// channel opened gets the first change, then each next change while the
/// calls are answered; a failed connect or call moves on to the next
/// server, skipping the changes it has not had yet.
pub open spec fn notify_next(
    sessions: usize,
    events: usize,
    session: usize,
    event: Option<usize>,
    outcome: CallOutcome,
) -> (usize, Option<usize>) {
    if session >= sessions {
        (session, event)
    } else if outcome != CallOutcome::Answered {
        ((session + 1) as usize, None)
    } else {
        match event {
            None => if events > 0 {
                (session, Some(0usize))
            } else {
                ((session + 1) as usize, None)
            },
            Some(e) => if e + 1 < events {
                (session, Some((e + 1) as usize))
            } else {
                ((session + 1) as usize, None)
            },
        }
    }
}

/// How far into a server's turn a point of the walk is: 0 before its
/// channel is open, then one more for each change sent.
pub open spec fn turn_rank(event: Option<usize>) -> int {
    match event {
        None => 0,
        Some(e) => e + 1,
    }
}

/// The walk only moves forward: until it is done, each step goes to a later
/// server, or to a later change for the same server, and never past the
/// last server; so it ends after at most one step per server and change.
pub proof fn lemma_notify_moves_forward(
    sessions: usize,
    events: usize,
    session: usize,
    event: Option<usize>,
    outcome: CallOutcome,
)
    requires
        session < sessions,
        event matches Some(e) ==> e < events,
    ensures
        ({
            let (s2, e2) = notify_next(sessions, events, session, event, outcome);
            &&& s2 <= sessions
            &&& s2 > session || (s2 == session && turn_rank(e2) > turn_rank(event))
            &&& e2 matches Some(x) ==> x < events
        }),
{
}

/// The walk that tells each active session server of the merged changes,
/// one call per change, in order.
pub struct SessionNotifier {
    sessions: usize,
    events: usize,
    session: usize,
    event: Option<usize>,
}

impl SessionNotifier {
    #[verifier::type_invariant]
    spec fn within_bounds(self) -> bool {
        &&& self.session <= self.sessions
        &&& self.event matches Some(e) ==> e < self.events && self.session < self.sessions
    }

    /// The number of session servers and of changes.
    pub closed spec fn counts(&self) -> (usize, usize) {
        (self.sessions, self.events)
    }

    /// The server the walk is at, and the change it sends next (`None`
    /// before the server's channel is open).
    pub closed spec fn at(&self) -> (usize, Option<usize>) {
        (self.session, self.event)
    }

    /// A walk over `sessions` servers with `events` changes, at the first
    /// server; with its first action.
    pub fn new(sessions: usize, events: usize) -> (r: (SessionNotifier, NotifyAction))
        ensures
            r.0.counts() == (sessions, events),
            r.0.at() == (0usize, None::<usize>),
            r.1 == notify_action(sessions, 0, None),
    {
        let n = SessionNotifier { sessions, events, session: 0, event: None };
        let a = n.action();
        (n, a)
    }

    /// The action at the point the walk is at.
    pub fn action(&self) -> (a: NotifyAction)
        ensures
            a == notify_action(self.counts().0, self.at().0, self.at().1),
    {
        if self.session >= self.sessions {
            NotifyAction::Done
        } else {
            match self.event {
                None => NotifyAction::Connect { session: self.session },
                Some(e) => NotifyAction::Send { session: self.session, event: e },
            }
        }
    }

    /// Moves on after the outcome of the last action, and gives the next.
    pub fn step(&mut self, outcome: CallOutcome) -> (a: NotifyAction)
        ensures
            final(self).counts() == old(self).counts(),
            final(self).at() == notify_next(
                old(self).counts().0,
                old(self).counts().1,
                old(self).at().0,
                old(self).at().1,
                outcome,
            ),
            a == notify_action(final(self).counts().0, final(self).at().0, final(self).at().1),
    {
        proof {
            use_type_invariant(&*self);
        }
        if self.session < self.sessions {
            let answered = match outcome {
                CallOutcome::Answered => true,
                _ => false,
            };
            let (session, event): (usize, Option<usize>) = if !answered {
                (self.session + 1, None)
            } else {
                match self.event {
                    None => if self.events > 0 {
                        (self.session, Some(0))
                    } else {
                        (self.session + 1, None)
                    },
                    Some(e) => if e + 1 < self.events {
                        (self.session, Some(e + 1))
                    } else {
                        (self.session + 1, None)
                    },
                }
            };
            *self = SessionNotifier { sessions: self.sessions, events: self.events, session, event };
        }
        self.action()
    }
}

/// What the change merge loop is told: a change event, the end of its
/// debounce window, the end of the event channel, or cancellation.
#[derive(Debug)]
pub enum MergeInput {
    Event(DataChangeEvent),
    WindowElapsed,
    ChannelClosed,
    Cancelled,
}

/// What the change merge loop does next.
#[derive(Debug)]
pub enum MergeAction {
    /// Open a debounce window and wait for more events until it ends.
    OpenWindow,
    /// Wait for the next input.
    Wait,
    /// Tell the active session servers of these merged changes.
    Notify(Vec<DataChangeEvent>),
    /// Stop the loop.
    Stop,
}

/// The change merge loop of a data server: idle until a first event opens
/// a debounce window, then gathering events, one per data id with the
/// latest winning, until the window ends and they are sent on.
pub struct ChangeMerger {
    batch: ChangeBatch,
    collecting: bool,
}

impl ChangeMerger {
    #[verifier::type_invariant]
    spec fn idle_holds_nothing(self) -> bool {
        !self.collecting ==> self.batch.events().len() == 0
    }

    /// Whether a debounce window is open.
    pub closed spec fn collecting(&self) -> bool {
        self.collecting
    }

    /// The events gathered in the open window, keyed by data id.
    pub closed spec fn events(&self) -> Seq<(Seq<char>, ChangeView)> {
        self.batch.events()
    }

    /// An idle loop.
    pub fn new() -> (m: ChangeMerger)
        ensures
            !m.collecting(),
            m.events().len() == 0,
    {
        ChangeMerger { batch: ChangeBatch::new(), collecting: false }
    }

    /// The next action on `input`. A first event opens a window; events in
    /// a window are merged; the window's end, or the channel's end within a
    /// window, sends the merged events on and makes the loop idle; the
    /// channel's end while idle, or cancellation at any time, stops it.
    pub fn step(&mut self, input: MergeInput) -> (a: MergeAction)
        ensures
            match input {
                MergeInput::Event(e) => {
                    &&& final(self).collecting()
                    &&& !old(self).collecting() ==> a is OpenWindow && final(self).events() == kput(
                        Seq::empty(),
                        e@.data_info_id,
                        e@,
                    )
                    &&& old(self).collecting() ==> a is Wait && final(self).events() == kput(
                        old(self).events(),
                        e@.data_info_id,
                        e@,
                    )
                },
                MergeInput::WindowElapsed => if old(self).collecting() {
                    &&& !final(self).collecting()
                    &&& final(self).events().len() == 0
                    &&& a matches MergeAction::Notify(v) && v@.len() == old(self).events().len() && forall|k: int|
                        0 <= k < v@.len() ==> #[trigger] v@[k]@ == old(self).events()[k].1
                } else {
                    a is Wait && !final(self).collecting() && final(self).events() == old(self).events()
                },
                MergeInput::ChannelClosed => if old(self).collecting() {
                    &&& !final(self).collecting()
                    &&& final(self).events().len() == 0
                    &&& a matches MergeAction::Notify(v) && v@.len() == old(self).events().len() && forall|k: int|
                        0 <= k < v@.len() ==> #[trigger] v@[k]@ == old(self).events()[k].1
                } else {
                    a is Stop
                },
                MergeInput::Cancelled => a is Stop,
            },
    {
        proof {
            use_type_invariant(&*self);
        }
        match input {
            MergeInput::Event(e) => {
                if self.collecting {
                    let mut cur = ChangeMerger::new();
                    std::mem::swap(&mut cur, self);
                    let ChangeMerger { mut batch, collecting } = cur;
                    batch.add(e);
                    *self = ChangeMerger { batch, collecting };
                    MergeAction::Wait
                } else {
                    let mut batch = ChangeBatch::new();
                    batch.add(e);
                    *self = ChangeMerger { batch, collecting: true };
                    MergeAction::OpenWindow
                }
            },
            MergeInput::WindowElapsed => {
                if self.collecting {
                    self.flush()
                } else {
                    MergeAction::Wait
                }
            },
            MergeInput::ChannelClosed => {
                if self.collecting {
                    self.flush()
                } else {
                    MergeAction::Stop
                }
            },
            MergeInput::Cancelled => MergeAction::Stop,
        }
    }

    fn flush(&mut self) -> (a: MergeAction)
        ensures
            !final(self).collecting(),
            final(self).events().len() == 0,
            a matches MergeAction::Notify(v) && v@.len() == old(self).events().len() && forall|k: int|
                0 <= k < v@.len() ==> #[trigger] v@[k]@ == old(self).events()[k].1,
    {
        let events = self.batch.to_vec();
        *self = ChangeMerger::new();
        MergeAction::Notify(events)
    }
}

/// Merging keeps the latest event of each data id: after adding an event,
/// the batch holds it for its data id, each data id once, and every other
/// data id keeps its event.
pub proof fn lemma_merge_keeps_latest(
    s: Seq<(Seq<char>, ChangeView)>,
    e: ChangeView,
    other: Seq<char>,
)
    requires
        kunique(s),
    ensures
        kunique(kput(s, e.data_info_id, e)),
        kget(kput(s, e.data_info_id, e), e.data_info_id) == Some(e),
        other != e.data_info_id ==> kget(kput(s, e.data_info_id, e), other) == kget(s, other),
{
    lemma_kput_kdel(s, e.data_info_id, e, other);
}

/// A change notice sent to a session server.
#[derive(Debug)]
pub struct DataChangeNotification {
    pub data_center: String,
    pub data_info_id: String,
    pub version: i64,
    pub slot_id: u32,
    pub data_server_address: String,
}

/// The notice of a change from the data server at `my_address`.
pub fn notification_for(event: &DataChangeEvent, my_address: &str) -> (n: DataChangeNotification)
    ensures
        n.data_center@ == event.data_center@,
        n.data_info_id@ == event.data_info_id@,
        n.version == event.version.value,
        n.slot_id == 0,
        n.data_server_address@ == my_address@,
{
    DataChangeNotification {
        data_center: event.data_center.clone(),
        data_info_id: event.data_info_id.clone(),
        version: event.version.value,
        slot_id: 0,
        data_server_address: my_address.to_string(),
    }
}

/// Whether a notice tells of a change, from the data server at `me`.
pub open spec fn notice_of(n: DataChangeNotification, e: ChangeView, me: Seq<char>) -> bool {
    &&& n.data_center@ == e.data_center
    &&& n.data_info_id@ == e.data_info_id
    &&& n.version == e.version.value
    &&& n.slot_id == 0
    &&& n.data_server_address@ == me
}

/// The notices of merged changes that each active session server is sent,
/// one per change, in order.
pub fn notifications_for(events: &Vec<DataChangeEvent>, my_address: &str) -> (r: Vec<DataChangeNotification>)
    ensures
        r@.len() == events@.len(),
        forall|k: int| 0 <= k < r@.len() ==> notice_of(#[trigger] r@[k], events@[k]@, my_address@),
{
    let mut out: Vec<DataChangeNotification> = Vec::new();
    let mut i: usize = 0;
    while i < events.len()
        invariant
            i <= events.len(),
            out@.len() == i,
            forall|k: int| 0 <= k < i ==> notice_of(#[trigger] out@[k], events@[k]@, my_address@),
        decreases events.len() - i,
    {
        let n = notification_for(&events[i], my_address);
        out.push(n);
        i = i + 1;
    }
    out
}

/// A datum as a data store holds it: the publishers of a data id in a data
/// center, and its version.
#[derive(Debug)]
pub struct Datum {
    pub data_info_id: String,
    pub data_center: String,
    pub data_id: String,
    pub instance_id: String,
    pub group: String,
    pub publishers: Vec<Publisher>,
    pub version: DatumVersion,
}

/// The wire form of a datum.
#[derive(Debug)]
pub struct SubDatumPb {
    pub data_info_id: String,
    pub data_center: String,
    pub data_id: String,
    pub instance_id: String,
    pub group: String,
    pub publishers: Vec<PublisherPb>,
    pub version: i64,
}

/// The model of the wire form of a datum.
pub struct SubDatumView {
    pub data_info_id: Seq<char>,
    pub data_center: Seq<char>,
    pub data_id: Seq<char>,
    pub instance_id: Seq<char>,
    pub group: Seq<char>,
    pub publishers: Seq<PublisherPbView>,
    pub version: i64,
}

impl View for SubDatumPb {
    type V = SubDatumView;

    open spec fn view(&self) -> SubDatumView {
        SubDatumView {
            data_info_id: self.data_info_id@,
            data_center: self.data_center@,
            data_id: self.data_id@,
            instance_id: self.instance_id@,
            group: self.group@,
            publishers: pb_views(self.publishers@),
            version: self.version,
        }
    }
}

/// The wire form of a datum: its names, its publishers' wire forms in order
/// and its version.
pub open spec fn sub_datum_of(d: Datum) -> SubDatumView {
    SubDatumView {
        data_info_id: d.data_info_id@,
        data_center: d.data_center@,
        data_id: d.data_id@,
        instance_id: d.instance_id@,
        group: d.group@,
        publishers: d.publishers@.map_values(|p: Publisher| pb_of_publisher(p@)),
        version: d.version.value,
    }
}

/// The wire form of a datum.
pub fn sub_datum_pb(d: &Datum) -> (pb: SubDatumPb)
    ensures
        pb@ == sub_datum_of(*d),
{
    let mut publishers: Vec<PublisherPb> = Vec::new();
    let mut i: usize = 0;
    while i < d.publishers.len()
        invariant
            i <= d.publishers.len(),
            pb_views(publishers@) == d.publishers@.map_values(|p: Publisher| pb_of_publisher(p@)).take(i as int),
        decreases d.publishers.len() - i,
    {
        let ghost before = pb_views(publishers@);
        let p = publisher_to_pb(&d.publishers[i]);
        publishers.push(p);
        assert(pb_views(publishers@) =~= before.push(pb_of_publisher(d.publishers@[i as int]@)));
        assert(pb_views(publishers@) =~= d.publishers@.map_values(|p: Publisher| pb_of_publisher(p@)).take(
            i + 1,
        ));
        i = i + 1;
    }
    assert(d.publishers@.map_values(|p: Publisher| pb_of_publisher(p@)).take(d.publishers.len() as int)
        =~= d.publishers@.map_values(|p: Publisher| pb_of_publisher(p@)));
    SubDatumPb {
        data_info_id: d.data_info_id.clone(),
        data_center: d.data_center.clone(),
        data_id: d.data_id.clone(),
        instance_id: d.instance_id.clone(),
        group: d.group.clone(),
        publishers,
        version: d.version.value,
    }
}

/// The answer to a read of a datum.
#[derive(Debug)]
pub struct GetDataResponse {
    pub success: bool,
    pub slot_id: u32,
    pub status: String,
    pub datum: Option<SubDatumPb>,
}

/// The status of a read that found its datum.
pub const STATUS_OK: &'static str = "OK";

/// The status of a read that found no datum.
pub const STATUS_NOT_FOUND: &'static str = "NOT_FOUND";

/// The answer to a read of a datum in slot `slot_id` that the store found
/// (`OK`, with its wire form) or did not (`NOT_FOUND`); a read the slot's
/// leader answers always succeeds.
pub fn get_data_response(slot_id: u32, datum: Option<&Datum>) -> (r: GetDataResponse)
    ensures
        r.success,
        r.slot_id == slot_id,
        match datum {
            Some(d) => r.status@ == STATUS_OK@ && (r.datum matches Some(s) && s@ == sub_datum_of(*d)),
            None => r.status@ == STATUS_NOT_FOUND@ && r.datum is None,
        },
{
    match datum {
        Some(d) => GetDataResponse {
            success: true,
            slot_id,
            status: String::from_str(STATUS_OK),
            datum: Some(sub_datum_pb(d)),
        },
        None => GetDataResponse { success: true, slot_id, status: String::from_str(STATUS_NOT_FOUND), datum: None },
    }
}

/// The wire forms of the datums found, in order.
pub open spec fn found_datums(s: Seq<Option<Datum>>) -> Seq<SubDatumView>
    decreases s.len(),
{
    if s.len() == 0 {
        Seq::empty()
    } else {
        let rest = found_datums(s.drop_last());
        match s.last() {
            Some(d) => rest.push(sub_datum_of(d)),
            None => rest,
        }
    }
}

/// The answer to a follower's request for the publishers of data ids.
#[derive(Debug)]
pub struct SlotDiffPublisherResponse {
    pub success: bool,
    pub datums: Vec<SubDatumPb>,
}

/// The models of wire datums.
pub open spec fn sub_datum_views(s: Seq<SubDatumPb>) -> Seq<SubDatumView> {
    s.map_values(|d: SubDatumPb| d@)
}

/// The answer to a follower asking for the data ids it must fetch, from
/// what the store found of each: the datums found, in order; the ones not
/// found are left out.
pub fn slot_diff_publisher_response(found: &Vec<Option<Datum>>) -> (r: SlotDiffPublisherResponse)
    ensures
        r.success,
        sub_datum_views(r.datums@) == found_datums(found@),
{
    let mut datums: Vec<SubDatumPb> = Vec::new();
    let mut i: usize = 0;
    while i < found.len()
        invariant
            i <= found.len(),
            sub_datum_views(datums@) == found_datums(found@.take(i as int)),
        decreases found.len() - i,
    {
        assert(found@.take(i + 1).drop_last() =~= found@.take(i as int));
        match &found[i] {
            Some(d) => {
                let ghost before = sub_datum_views(datums@);
                let pb = sub_datum_pb(d);
                datums.push(pb);
                assert(sub_datum_views(datums@) =~= before.push(sub_datum_of(*d)));
            },
            None => {},
        }
        i = i + 1;
    }
    assert(found@.take(found.len() as int) =~= found@);
    SlotDiffPublisherResponse { success: true, datums }
}

} // verus!
