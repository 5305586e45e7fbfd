//! The durable, append-only log of reference events, and the replayer that
//! folds it into reference/visibility state at any cursor.
//!
//! Events get monotonic, gap-free ids assigned at append time: the event
//! stored at position `i` of the log has id `i + 1`. A cursor is an integer
//! one past the last event considered visible, so the default cursor is
//! `max(event_id) + 1`.

use vstd::prelude::*;
use crate::oid::NonZeroOid;

verus! {

/// The visibility of a commit as decided by the event log.
#[derive(Clone, Copy, Debug, PartialEq, Eq, Structural)]
pub enum CommitVisibility {
    /// The user is still working on the commit.
    Visible,
    /// The commit has been hidden or rewritten away.
    Hidden,
}

/// One record of the append-only event log.
#[derive(Clone, Debug)]
pub enum Event {
    /// A reference moved from `old_oid` to `new_oid`. Either side may be zero
    /// (creation or deletion).
    RefUpdateEvent {
        timestamp: u64,
        event_tx_id: u64,
        ref_name: String,
        old_oid: u64,
        new_oid: u64,
        message: Option<String>,
    },
    /// A commit was created.
    CommitEvent { timestamp: u64, event_tx_id: u64, commit_oid: NonZeroOid },
    /// A commit was explicitly hidden.
    HideEvent { timestamp: u64, event_tx_id: u64, commit_oid: NonZeroOid },
    /// A commit was explicitly unhidden.
    UnhideEvent { timestamp: u64, event_tx_id: u64, commit_oid: NonZeroOid },
    /// A commit was rewritten into another commit.
    RewriteEvent {
        timestamp: u64,
        event_tx_id: u64,
        old_commit_oid: NonZeroOid,
        new_commit_oid: NonZeroOid,
    },
}

impl Event {
    /// The transaction this event belongs to.
    pub open spec fn tx_id(self) -> u64 {
        match self {
            Event::RefUpdateEvent { event_tx_id, .. } => event_tx_id,
            Event::CommitEvent { event_tx_id, .. } => event_tx_id,
            Event::HideEvent { event_tx_id, .. } => event_tx_id,
            Event::UnhideEvent { event_tx_id, .. } => event_tx_id,
            Event::RewriteEvent { event_tx_id, .. } => event_tx_id,
        }
    }

    /// The wall-clock time recorded on the event.
    pub open spec fn timestamp_of(self) -> u64 {
        match self {
            Event::RefUpdateEvent { timestamp, .. } => timestamp,
            Event::CommitEvent { timestamp, .. } => timestamp,
            Event::HideEvent { timestamp, .. } => timestamp,
            Event::UnhideEvent { timestamp, .. } => timestamp,
            Event::RewriteEvent { timestamp, .. } => timestamp,
        }
    }

    /// Whether this event bears on the visibility of the given commit.
    pub open spec fn touches_commit(self, oid: u64) -> bool {
        match self {
            Event::RefUpdateEvent { .. } => false,
            Event::CommitEvent { commit_oid, .. } => commit_oid.num == oid,
            Event::HideEvent { commit_oid, .. } => commit_oid.num == oid,
            Event::UnhideEvent { commit_oid, .. } => commit_oid.num == oid,
            Event::RewriteEvent { old_commit_oid, new_commit_oid, .. } => old_commit_oid.num
                == oid || new_commit_oid.num == oid,
        }
    }

    /// For an event touching `oid`: whether it makes the commit visible.
    /// A rewrite makes its new side visible and its old side hidden; if both
    /// sides are the same commit, the new side wins.
    pub open spec fn makes_visible(self, oid: u64) -> bool {
        match self {
            Event::RefUpdateEvent { .. } => false,
            Event::CommitEvent { .. } => true,
            Event::HideEvent { .. } => false,
            Event::UnhideEvent { .. } => true,
            Event::RewriteEvent { new_commit_oid, .. } => new_commit_oid.num == oid,
        }
    }

    /// Whether this event sets the value of the given reference.
    pub open spec fn touches_ref(self, name: Seq<char>) -> bool {
        match self {
            Event::RefUpdateEvent { ref_name, .. } => ref_name@ == name,
            _ => false,
        }
    }

    /// For a reference update: the value the reference has afterwards, with
    /// zero denoting deletion.
    pub open spec fn ref_value_after(self) -> Option<u64> {
        match self {
            Event::RefUpdateEvent { new_oid, .. } => if new_oid == 0 {
                None
            } else {
                Some(new_oid)
            },
            _ => None,
        }
    }

    /// The transaction id, as executable code.
    pub fn get_tx_id(&self) -> (t: u64)
        ensures
            t == self.tx_id(),
    {
        match self {
            Event::RefUpdateEvent { event_tx_id, .. } => *event_tx_id,
            Event::CommitEvent { event_tx_id, .. } => *event_tx_id,
            Event::HideEvent { event_tx_id, .. } => *event_tx_id,
            Event::UnhideEvent { event_tx_id, .. } => *event_tx_id,
            Event::RewriteEvent { event_tx_id, .. } => *event_tx_id,
        }
    }

    /// Whether this event bears on the visibility of `oid`, as executable code.
    pub fn touches(&self, oid: u64) -> (b: bool)
        ensures
            b == self.touches_commit(oid),
    {
        match self {
            Event::RefUpdateEvent { .. } => false,
            Event::CommitEvent { commit_oid, .. } => commit_oid.num == oid,
            Event::HideEvent { commit_oid, .. } => commit_oid.num == oid,
            Event::UnhideEvent { commit_oid, .. } => commit_oid.num == oid,
            Event::RewriteEvent { old_commit_oid, new_commit_oid, .. } => old_commit_oid.num == oid
                || new_commit_oid.num == oid,
        }
    }

    /// For an event touching `oid`: whether it makes the commit visible, as
    /// executable code.
    pub fn visible_after(&self, oid: u64) -> (b: bool)
        ensures
            b == self.makes_visible(oid),
    {
        match self {
            Event::RefUpdateEvent { .. } => false,
            Event::CommitEvent { .. } => true,
            Event::HideEvent { .. } => false,
            Event::UnhideEvent { .. } => true,
            Event::RewriteEvent { new_commit_oid, .. } => new_commit_oid.num == oid,
        }
    }

    /// Whether this event sets the given reference, as executable code.
    pub fn matches_ref(&self, name: &String) -> (b: bool)
        ensures
            b == self.touches_ref(name@),
    {
        match self {
            Event::RefUpdateEvent { ref_name, .. } => *ref_name == *name,
            _ => false,
        }
    }

    /// The value a reference update leaves behind, as executable code.
    pub fn ref_after(&self) -> (v: Option<u64>)
        ensures
            v == self.ref_value_after(),
    {
        match self {
            Event::RefUpdateEvent { new_oid, .. } => if *new_oid == 0 {
                None
            } else {
                Some(*new_oid)
            },
            _ => None,
        }
    }

    /// The commits whose visibility this event bears on, as executable code.
    pub fn touched_oids(&self) -> (r: Vec<u64>)
        ensures
            forall|o: u64| self.touches_commit(o) ==> r@.contains(o),
    {
        let mut r: Vec<u64> = Vec::new();
        match self {
            Event::RefUpdateEvent { .. } => {},
            Event::CommitEvent { commit_oid, .. } => {
                r.push(commit_oid.num);
                proof {
                    assert(r@[0] == commit_oid.num);
                }
            },
            Event::HideEvent { commit_oid, .. } => {
                r.push(commit_oid.num);
                proof {
                    assert(r@[0] == commit_oid.num);
                }
            },
            Event::UnhideEvent { commit_oid, .. } => {
                r.push(commit_oid.num);
                proof {
                    assert(r@[0] == commit_oid.num);
                }
            },
            Event::RewriteEvent { old_commit_oid, new_commit_oid, .. } => {
                r.push(old_commit_oid.num);
                r.push(new_commit_oid.num);
                proof {
                    assert(r@[0] == old_commit_oid.num);
                    assert(r@[1] == new_commit_oid.num);
                }
            },
        }
        r
    }

    /// An equal copy of this event.
    pub fn duplicate(&self) -> (r: Event)
        ensures
            r == *self,
    {
        match self {
            Event::RefUpdateEvent { timestamp, event_tx_id, ref_name, old_oid, new_oid, message } => {
                let message2: Option<String> = match message {
                    Some(m) => Some(m.clone()),
                    None => None,
                };
                Event::RefUpdateEvent {
                    timestamp: *timestamp,
                    event_tx_id: *event_tx_id,
                    ref_name: ref_name.clone(),
                    old_oid: *old_oid,
                    new_oid: *new_oid,
                    message: message2,
                }
            },
            Event::CommitEvent { timestamp, event_tx_id, commit_oid } => Event::CommitEvent {
                timestamp: *timestamp,
                event_tx_id: *event_tx_id,
                commit_oid: *commit_oid,
            },
            Event::HideEvent { timestamp, event_tx_id, commit_oid } => Event::HideEvent {
                timestamp: *timestamp,
                event_tx_id: *event_tx_id,
                commit_oid: *commit_oid,
            },
            Event::UnhideEvent { timestamp, event_tx_id, commit_oid } => Event::UnhideEvent {
                timestamp: *timestamp,
                event_tx_id: *event_tx_id,
                commit_oid: *commit_oid,
            },
            Event::RewriteEvent { timestamp, event_tx_id, old_commit_oid, new_commit_oid } => Event::RewriteEvent {
                timestamp: *timestamp,
                event_tx_id: *event_tx_id,
                old_commit_oid: *old_commit_oid,
                new_commit_oid: *new_commit_oid,
            },
        }
    }
}

/// A room-to-grow bound on the log length.
pub open spec fn log_capacity() -> int {
    0xffff_ffff_ffff_ffff
}

/// The log is short enough that cursors (one past the last id) always fit in
/// a `u64`.
pub open spec fn log_wf(events: Seq<Event>) -> bool {
    events.len() < log_capacity()
}

/// The id of the event stored at a position of the log.
pub open spec fn event_id_at(pos: int) -> int {
    pos + 1
}

/// The append-only event store. Ids are assigned by position at append time,
/// so they are strictly increasing and gap-free; events are never edited.
pub struct EventLogDb {
    events: Vec<Event>,
    next_tx_id: u64,
}

impl View for EventLogDb {
    type V = Seq<Event>;

    closed spec fn view(&self) -> Seq<Event> {
        self.events@
    }
}

impl EventLogDb {
    /// The last transaction id handed out.
    pub closed spec fn tx_counter(&self) -> u64 {
        self.next_tx_id
    }

    /// An empty log.
    pub fn new() -> (r: Self)
        ensures
            r@ == Seq::<Event>::empty(),
            r.tx_counter() == 0,
    {
        EventLogDb { events: Vec::new(), next_tx_id: 0 }
    }

    /// Allocate a fresh transaction id. The timestamp and name describe the
    /// transaction; the model keeps only the counter.
    pub fn make_transaction_id(&mut self, now: u64, name: &str) -> (tx_id: u64)
        requires
            old(self).tx_counter() < u64::MAX,
        ensures
            tx_id == old(self).tx_counter() + 1,
            final(self).tx_counter() == tx_id,
            final(self)@ == old(self)@,
    {
        self.next_tx_id = self.next_tx_id + 1;
        self.next_tx_id
    }

    /// Append events atomically. The appended events occupy the positions
    /// after the old length, so their assigned ids all exceed every id
    /// assigned before.
    pub fn add_events(&mut self, events: Vec<Event>)
        requires
            log_wf(old(self)@ + events@),
        ensures
            final(self)@ == old(self)@ + events@,
            final(self).tx_counter() == old(self).tx_counter(),
    {
        let n = events.len();
        let mut i: usize = 0;
        while i < n
            invariant
                i <= n,
                n == events.len(),
                self.events@ == old(self)@ + events@.take(i as int),
                self.next_tx_id == old(self).tx_counter(),
            decreases n - i,
        {
            let e = events[i].duplicate();
            self.events.push(e);
            proof {
                assert(self.events@ =~= old(self)@ + events@.take(i + 1));
            }
            i += 1;
        }
        proof {
            assert(self.events@ =~= old(self)@ + events@);
        }
    }

    /// The last transaction id handed out, as executable code.
    pub fn transaction_counter(&self) -> (t: u64)
        ensures
            t == self.tx_counter(),
    {
        self.next_tx_id
    }

    /// All events, ascending by id.
    pub fn get_events(&self) -> (r: &Vec<Event>)
        ensures
            r@ == self@,
    {
        &self.events
    }

    /// The number of events in the log.
    pub fn len(&self) -> (n: usize)
        ensures
            n == self@.len(),
    {
        self.events.len()
    }
}

/// Event monotonicity: ids are assigned by position, so for two successive
/// appends (the first of `n1` events onto a log of length `len0`, the second
/// of `n2` events), every id assigned by the first append is smaller than
/// every id assigned by the second.
pub proof fn lemma_event_monotonicity(len0: int, n1: int, n2: int)
    requires
        0 <= len0,
        0 <= n1,
        0 <= n2,
    ensures
        forall|i: int, j: int|
            len0 <= i < len0 + n1 && len0 + n1 <= j < len0 + n1 + n2 ==> event_id_at(i)
                < event_id_at(j),
{
}

/// A point-in-log position. `event_id` is exclusive: the events considered
/// are those with ids strictly below it.
#[derive(Clone, Copy, Debug, PartialEq, Eq, Structural)]
pub struct EventCursor {
    pub event_id: u64,
}

/// A cursor is valid when it lies in `[1, max_id + 1]`.
pub open spec fn cursor_wf(events: Seq<Event>, c: EventCursor) -> bool {
    1 <= c.event_id <= events.len() + 1
}

/// Commit visibility decided by the first `n` events of the log: the last
/// event among them touching the commit decides; absence decides nothing.
pub open spec fn vis_prefix(events: Seq<Event>, n: int, oid: u64) -> Option<CommitVisibility>
    decreases n,
{
    if n <= 0 {
        None
    } else if n > events.len() {
        vis_prefix(events, events.len() as int, oid)
    } else if events[n - 1].touches_commit(oid) {
        if events[n - 1].makes_visible(oid) {
            Some(CommitVisibility::Visible)
        } else {
            Some(CommitVisibility::Hidden)
        }
    } else {
        vis_prefix(events, n - 1, oid)
    }
}

/// Reference state decided by the first `n` events of the log: the last
/// update of the reference among them decides; a zero new side deletes it.
pub open spec fn ref_prefix(events: Seq<Event>, n: int, name: Seq<char>) -> Option<u64>
    decreases n,
{
    if n <= 0 {
        None
    } else if n > events.len() {
        ref_prefix(events, events.len() as int, name)
    } else if events[n - 1].touches_ref(name) {
        events[n - 1].ref_value_after()
    } else {
        ref_prefix(events, n - 1, name)
    }
}

/// The ids (equal to positions plus one) of the events among the first `n`
/// that touch the commit, ascending.
pub open spec fn history_prefix(events: Seq<Event>, n: int, oid: u64) -> Seq<u64>
    decreases n,
{
    if n <= 0 {
        Seq::empty()
    } else if n > events.len() {
        history_prefix(events, events.len() as int, oid)
    } else if events[n - 1].touches_commit(oid) {
        history_prefix(events, n - 1, oid).push(n as u64)
    } else {
        history_prefix(events, n - 1, oid)
    }
}

/// Cursor `c` sits on a transaction boundary: no transaction is split by it.
pub open spec fn is_tx_boundary(events: Seq<Event>, c: int) -> bool {
    &&& 1 <= c <= events.len() + 1
    &&& (c == 1 || c == events.len() + 1 || events[c - 1].tx_id() != events[c - 2].tx_id())
}

/// Replay determinism: visibility at a cursor is a pure function of the
/// event sequence, the cursor, and the commit; two equal logs agree at every
/// cursor and commit, however often they are asked.
pub proof fn lemma_replay_determinism(e1: Seq<Event>, e2: Seq<Event>, cursor: int, oid: u64)
    requires
        e1 == e2,
    ensures
        vis_prefix(e1, cursor, oid) == vis_prefix(e2, cursor, oid),
{
}

/// Visibility under a prefix only depends on the events in that prefix.
pub proof fn lemma_vis_prefix_agree(e1: Seq<Event>, e2: Seq<Event>, n: int, oid: u64)
    requires
        n <= e1.len(),
        n <= e2.len(),
        forall|i: int| 0 <= i < n ==> e1[i] == e2[i],
    ensures
        vis_prefix(e1, n, oid) == vis_prefix(e2, n, oid),
    decreases n,
{
    if n > 0 {
        lemma_vis_prefix_agree(e1, e2, n - 1, oid);
    }
}

/// Extending a prefix by events that do not touch the commit leaves its
/// visibility unchanged.
pub proof fn lemma_vis_prefix_untouched(events: Seq<Event>, m: int, n: int, oid: u64)
    requires
        0 <= m <= n <= events.len(),
        forall|i: int| m <= i < n ==> !(#[trigger] events[i].touches_commit(oid)),
    ensures
        vis_prefix(events, n, oid) == vis_prefix(events, m, oid),
    decreases n,
{
    if n > m {
        lemma_vis_prefix_untouched(events, m, n - 1, oid);
    }
}

/// Reference state under a prefix only depends on the events in that prefix.
pub proof fn lemma_ref_prefix_agree(e1: Seq<Event>, e2: Seq<Event>, n: int, name: Seq<char>)
    requires
        n <= e1.len(),
        n <= e2.len(),
        forall|i: int| 0 <= i < n ==> e1[i] == e2[i],
    ensures
        ref_prefix(e1, n, name) == ref_prefix(e2, n, name),
    decreases n,
{
    if n > 0 {
        lemma_ref_prefix_agree(e1, e2, n - 1, name);
    }
}

/// Extending a prefix by events that do not update the reference leaves its
/// state unchanged.
pub proof fn lemma_ref_prefix_untouched(events: Seq<Event>, m: int, n: int, name: Seq<char>)
    requires
        0 <= m <= n <= events.len(),
        forall|i: int| m <= i < n ==> !(#[trigger] events[i].touches_ref(name)),
    ensures
        ref_prefix(events, n, name) == ref_prefix(events, m, name),
    decreases n,
{
    if n > m {
        lemma_ref_prefix_untouched(events, m, n - 1, name);
    }
}

/// A decided visibility comes from some touching event below the cursor.
pub proof fn lemma_vis_touched(events: Seq<Event>, n: int, oid: u64)
    ensures
        vis_prefix(events, n, oid) is Some ==> exists|k: int|
            0 <= k < n && (#[trigger] events[k]).touches_commit(oid),
    decreases n,
{
    if n <= 0 {
    } else if n > events.len() {
        lemma_vis_touched(events, events.len() as int, oid);
    } else if events[n - 1].touches_commit(oid) {
        assert(events[n - 1].touches_commit(oid));
    } else {
        lemma_vis_touched(events, n - 1, oid);
    }
}

/// Whether a list of ids holds the given id.
pub fn oid_list_contains(v: &Vec<u64>, x: u64) -> (b: bool)
    ensures
        b == v@.contains(x),
{
    let n = v.len();
    let mut i: usize = 0;
    while i < n
        invariant
            i <= n,
            n == v@.len(),
            forall|k: int| 0 <= k < i ==> v@[k] != x,
        decreases n - i,
    {
        if v[i] == x {
            return true;
        }
        i += 1;
    }
    false
}

/// When some event in `[m, n)` touches the commit and every touching event
/// there leaves it hidden, the commit is hidden at `n`.
pub proof fn lemma_vis_prefix_hidden_suffix(events: Seq<Event>, m: int, n: int, oid: u64)
    requires
        0 <= m <= n <= events.len(),
        exists|k: int| m <= k < n && (#[trigger] events[k]).touches_commit(oid),
        forall|k: int|
            m <= k < n && (#[trigger] events[k]).touches_commit(oid) ==> !events[k].makes_visible(
                oid,
            ),
    ensures
        vis_prefix(events, n, oid) == Some(CommitVisibility::Hidden),
    decreases n,
{
    if events[n - 1].touches_commit(oid) {
    } else {
        let k = choose|k: int| m <= k < n && (#[trigger] events[k]).touches_commit(oid);
        assert(k < n - 1);
        lemma_vis_prefix_hidden_suffix(events, m, n - 1, oid);
    }
}

/// When some event in `[m, n)` touches the commit and every touching event
/// there leaves it visible, the commit is visible at `n`.
pub proof fn lemma_vis_prefix_visible_suffix(events: Seq<Event>, m: int, n: int, oid: u64)
    requires
        0 <= m <= n <= events.len(),
        exists|k: int| m <= k < n && (#[trigger] events[k]).touches_commit(oid),
        forall|k: int|
            m <= k < n && (#[trigger] events[k]).touches_commit(oid) ==> events[k].makes_visible(
                oid,
            ),
    ensures
        vis_prefix(events, n, oid) == Some(CommitVisibility::Visible),
    decreases n,
{
    if events[n - 1].touches_commit(oid) {
    } else {
        let k = choose|k: int| m <= k < n && (#[trigger] events[k]).touches_commit(oid);
        assert(k < n - 1);
        lemma_vis_prefix_visible_suffix(events, m, n - 1, oid);
    }
}

/// When some event in `[m, n)` updates the reference and every updating
/// event there leaves it at `v`, the reference stands at `v` at `n`.
pub proof fn lemma_ref_prefix_set_suffix(
    events: Seq<Event>,
    m: int,
    n: int,
    name: Seq<char>,
    v: Option<u64>,
)
    requires
        0 <= m <= n <= events.len(),
        exists|k: int| m <= k < n && (#[trigger] events[k]).touches_ref(name),
        forall|k: int|
            m <= k < n && (#[trigger] events[k]).touches_ref(name) ==> events[k].ref_value_after()
                == v,
    ensures
        ref_prefix(events, n, name) == v,
    decreases n,
{
    if events[n - 1].touches_ref(name) {
    } else {
        let k = choose|k: int| m <= k < n && (#[trigger] events[k]).touches_ref(name);
        assert(k < n - 1);
        lemma_ref_prefix_set_suffix(events, m, n - 1, name, v);
    }
}

/// A set reference never reads back as the zero id.
pub proof fn lemma_ref_prefix_nonzero(events: Seq<Event>, n: int, name: Seq<char>)
    ensures
        ref_prefix(events, n, name) matches Some(v) ==> v != 0,
    decreases n,
{
    if n <= 0 {
    } else if n > events.len() {
        lemma_ref_prefix_nonzero(events, events.len() as int, name);
    } else if events[n - 1].touches_ref(name) {
    } else {
        lemma_ref_prefix_nonzero(events, n - 1, name);
    }
}

/// An error raised by cursor navigation.
#[derive(Clone, Copy, Debug, PartialEq, Eq, Structural)]
pub enum ReplayError {
    /// The cursor falls outside `[1, max_id + 1]`.
    UnknownCursor,
}

/// A pure fold over the event log: reconstructs reference and visibility
/// state at any cursor.
pub struct EventReplayer {
    events: Vec<Event>,
}

impl EventReplayer {
    /// The event sequence this replayer folds over.
    pub closed spec fn events(&self) -> Seq<Event> {
        self.events@
    }

    /// Build a replayer over the current contents of the store.
    pub fn from_event_log_db(db: &EventLogDb) -> (r: Self)
        ensures
            r.events() == db@,
    {
        let src = db.get_events();
        let mut events: Vec<Event> = Vec::new();
        let n = src.len();
        let mut i: usize = 0;
        while i < n
            invariant
                i <= n,
                n == src.len(),
                src@ == db@,
                events@ == db@.take(i as int),
            decreases n - i,
        {
            events.push(src[i].duplicate());
            proof {
                assert(events@ =~= db@.take(i + 1));
            }
            i += 1;
        }
        proof {
            assert(events@ =~= db@);
        }
        EventReplayer { events }
    }

    /// The cursor one past the last event.
    pub fn make_default_cursor(&self) -> (c: EventCursor)
        requires
            log_wf(self.events()),
        ensures
            c.event_id == self.events().len() + 1,
            cursor_wf(self.events(), c),
    {
        EventCursor { event_id: self.events.len() as u64 + 1 }
    }

    /// The visibility of a commit at a cursor, per the last event below the
    /// cursor that touches it.
    pub fn get_cursor_commit_visibility(&self, cursor: EventCursor, oid: NonZeroOid) -> (v: Option<
        CommitVisibility,
    >)
        ensures
            v == vis_prefix(self.events(), cursor.event_id - 1, oid.num),
    {
        let len = self.events.len();
        let mut n: usize = if cursor.event_id == 0 {
            0
        } else if cursor.event_id - 1 > len as u64 {
            len
        } else {
            (cursor.event_id - 1) as usize
        };
        proof {
            assert(vis_prefix(self.events(), n as int, oid.num) == vis_prefix(
                self.events(),
                cursor.event_id - 1,
                oid.num,
            ));
        }
        while n > 0
            invariant
                n <= self.events@.len(),
                vis_prefix(self.events(), n as int, oid.num) == vis_prefix(
                    self.events(),
                    cursor.event_id - 1,
                    oid.num,
                ),
            decreases n,
        {
            let e = &self.events[n - 1];
            if e.touches(oid.num) {
                if e.visible_after(oid.num) {
                    return Some(CommitVisibility::Visible);
                } else {
                    return Some(CommitVisibility::Hidden);
                }
            }
            n -= 1;
        }
        None
    }

    /// The value of a reference at a cursor, per the last update below the
    /// cursor; `None` when absent or deleted.
    pub fn get_cursor_ref_state(&self, cursor: EventCursor, name: &String) -> (v: Option<u64>)
        ensures
            v == ref_prefix(self.events(), cursor.event_id - 1, name@),
    {
        let len = self.events.len();
        let mut n: usize = if cursor.event_id == 0 {
            0
        } else if cursor.event_id - 1 > len as u64 {
            len
        } else {
            (cursor.event_id - 1) as usize
        };
        proof {
            assert(ref_prefix(self.events(), n as int, name@) == ref_prefix(
                self.events(),
                cursor.event_id - 1,
                name@,
            ));
        }
        while n > 0
            invariant
                n <= self.events@.len(),
                ref_prefix(self.events(), n as int, name@) == ref_prefix(
                    self.events(),
                    cursor.event_id - 1,
                    name@,
                ),
            decreases n,
        {
            let e = &self.events[n - 1];
            if e.matches_ref(name) {
                return e.ref_after();
            }
            n -= 1;
        }
        None
    }

    /// The ids of the events below the cursor that touch the commit,
    /// ascending, for introspection.
    pub fn get_commit_history(&self, cursor: EventCursor, oid: NonZeroOid) -> (r: Vec<u64>)
        requires
            log_wf(self.events()),
        ensures
            r@ == history_prefix(self.events(), cursor.event_id - 1, oid.num),
    {
        let len = self.events.len();
        let n: usize = if cursor.event_id == 0 {
            0
        } else if cursor.event_id - 1 > len as u64 {
            len
        } else {
            (cursor.event_id - 1) as usize
        };
        proof {
            assert(history_prefix(self.events(), n as int, oid.num) == history_prefix(
                self.events(),
                cursor.event_id - 1,
                oid.num,
            ));
        }
        let mut r: Vec<u64> = Vec::new();
        let mut i: usize = 0;
        while i < n
            invariant
                i <= n,
                n <= self.events@.len(),
                log_wf(self.events()),
                r@ == history_prefix(self.events(), i as int, oid.num),
            decreases n - i,
        {
            let e = &self.events[i];
            if e.touches(oid.num) {
                r.push((i as u64) + 1);
            }
            i += 1;
        }
        proof {
            assert(r@ == history_prefix(self.events(), n as int, oid.num));
        }
        r
    }

    /// All commits that are visible at the cursor: exactly those whose last
    /// touching event below the cursor makes them visible.
    #[verifier::loop_isolation(false)]
    pub fn get_active_oids(&self, cursor: EventCursor) -> (r: Vec<u64>)
        ensures
            forall|o: u64|
                #[trigger] r@.contains(o) <==> vis_prefix(self.events(), cursor.event_id - 1, o)
                    == Some(CommitVisibility::Visible),
    {
        let len = self.events.len();
        let n: usize = if cursor.event_id == 0 {
            0
        } else if cursor.event_id - 1 > len as u64 {
            len
        } else {
            (cursor.event_id - 1) as usize
        };
        proof {
            assert forall|o: u64|
                vis_prefix(self.events(), n as int, o) == vis_prefix(
                    self.events(),
                    cursor.event_id - 1,
                    o,
                ) by {}
        }
        let mut r: Vec<u64> = Vec::new();
        let mut i: usize = 0;
        while i < n
            invariant
                i <= n,
                n <= self.events@.len(),
                forall|o: u64|
                    #[trigger] r@.contains(o) ==> vis_prefix(self.events(), n as int, o) == Some(
                        CommitVisibility::Visible,
                    ),
                forall|k: int, o: u64|
                    0 <= k < i && #[trigger] self.events@[k].touches_commit(o) && vis_prefix(
                        self.events(),
                        n as int,
                        o,
                    ) == Some(CommitVisibility::Visible) ==> r@.contains(o),
            decreases n - i,
        {
            let candidates = self.events[i].touched_oids();
            let m = candidates.len();
            let mut q: usize = 0;
            while q < m
                invariant
                    q <= m,
                    i < n,
                    n <= self.events@.len(),
                    m == candidates@.len(),
                    forall|o: u64|
                        #[trigger] r@.contains(o) ==> vis_prefix(self.events(), n as int, o)
                            == Some(CommitVisibility::Visible),
                    forall|k: int, o: u64|
                        0 <= k < i && #[trigger] self.events@[k].touches_commit(o) && vis_prefix(
                            self.events(),
                            n as int,
                            o,
                        ) == Some(CommitVisibility::Visible) ==> r@.contains(o),
                    forall|qq: int|
                        0 <= qq < q && vis_prefix(
                            self.events(),
                            n as int,
                            #[trigger] candidates@[qq],
                        ) == Some(CommitVisibility::Visible) ==> r@.contains(candidates@[qq]),
                    forall|o: u64|
                        self.events@[i as int].touches_commit(o) ==> candidates@.contains(o),
                decreases m - q,
            {
                let o = candidates[q];
                let already = oid_list_contains(&r, o);
                if !already {
                    match self.get_cursor_commit_visibility(
                        EventCursor { event_id: (n as u64) + 1 },
                        NonZeroOid { num: o },
                    ) {
                        Some(CommitVisibility::Visible) => {
                            let ghost r0 = r@;
                            r.push(o);
                            proof {
                                assert(r@ == r0.push(o));
                                assert(r@.contains(o)) by {
                                    assert(r@[r0.len() as int] == o);
                                }
                                assert forall|x: u64| r0.contains(x) implies r@.contains(x) by {
                                    let w = choose|w: int| 0 <= w < r0.len() && r0[w] == x;
                                    assert(r@[w] == x);
                                }
                                assert forall|x: u64| r@.contains(x) implies vis_prefix(
                                    self.events(),
                                    n as int,
                                    x,
                                ) == Some(CommitVisibility::Visible) by {
                                    let w = choose|w: int| 0 <= w < r@.len() && r@[w] == x;
                                    if w < r0.len() {
                                        assert(r0[w] == x);
                                        assert(r0.contains(x));
                                    } else {
                                        assert(x == o);
                                    }
                                }
                            }
                        },
                        _ => {},
                    }
                }
                q += 1;
            }
            proof {
                assert forall|o: u64|
                    self.events@[i as int].touches_commit(o) && vis_prefix(
                        self.events(),
                        n as int,
                        o,
                    ) == Some(CommitVisibility::Visible) implies r@.contains(o) by {
                    assert(candidates@.contains(o));
                    let qq = choose|qq: int|
                        0 <= qq < candidates@.len() && candidates@[qq] == o;
                    assert(vis_prefix(self.events(), n as int, candidates@[qq]) == Some(
                        CommitVisibility::Visible,
                    ));
                }
            }
            i += 1;
        }
        proof {
            assert forall|o: u64|
                vis_prefix(self.events(), n as int, o) == Some(
                    CommitVisibility::Visible,
                ) implies r@.contains(o) by {
                lemma_vis_touched(self.events(), n as int, o);
            }
        }
        r
    }

    /// The event at a position of the log.
    pub fn event_at(&self, i: usize) -> (r: &Event)
        requires
            i < self.events().len(),
        ensures
            *r == self.events()[i as int],
    {
        &self.events[i]
    }

    /// The number of events replayed over.
    pub fn len(&self) -> (n: usize)
        ensures
            n == self.events().len(),
    {
        self.events.len()
    }

    /// Whether a cursor sits on a transaction boundary, as executable code.
    fn is_boundary(&self, c: u64) -> (b: bool)
        requires
            log_wf(self.events()),
        ensures
            b == is_tx_boundary(self.events(), c as int),
    {
        let len = self.events.len();
        if c < 1 || c > len as u64 + 1 {
            false
        } else if c == 1 || c == len as u64 + 1 {
            true
        } else {
            let t1 = self.events[(c - 1) as usize].get_tx_id();
            let t2 = self.events[(c - 2) as usize].get_tx_id();
            t1 != t2
        }
    }

    /// Advance to the next transaction boundary: the smallest boundary above
    /// the cursor, or the cursor itself when it already sits at the end.
    pub fn advance_cursor(&self, cursor: EventCursor) -> (r: Result<EventCursor, ReplayError>)
        requires
            log_wf(self.events()),
        ensures
            r is Err <==> !cursor_wf(self.events(), cursor),
            r matches Ok(c2) ==> {
                &&& cursor.event_id == self.events().len() + 1 ==> c2 == cursor
                &&& cursor.event_id < self.events().len() + 1 ==> {
                    &&& c2.event_id > cursor.event_id
                    &&& is_tx_boundary(self.events(), c2.event_id as int)
                    &&& forall|c3: int|
                        cursor.event_id < c3 < c2.event_id ==> !is_tx_boundary(self.events(), c3)
                }
            },
    {
        let len = self.events.len();
        if cursor.event_id < 1 || cursor.event_id > len as u64 + 1 {
            return Err(ReplayError::UnknownCursor);
        }
        if cursor.event_id == len as u64 + 1 {
            return Ok(cursor);
        }
        let mut c: u64 = cursor.event_id + 1;
        while !self.is_boundary(c)
            invariant
                log_wf(self.events()),
                cursor.event_id < c <= self.events().len() + 1,
                forall|c3: int| cursor.event_id < c3 < c ==> !is_tx_boundary(self.events(), c3),
            decreases self.events@.len() + 1 - c,
        {
            proof {
                // the top cursor is always a boundary, so the loop stops before it
                assert(is_tx_boundary(self.events(), self.events().len() as int + 1));
            }
            c += 1;
        }
        Ok(EventCursor { event_id: c })
    }

    /// Retreat to the previous transaction boundary: the largest boundary
    /// below the cursor, or the cursor itself when it already sits at 1.
    pub fn retreat_cursor(&self, cursor: EventCursor) -> (r: Result<EventCursor, ReplayError>)
        requires
            log_wf(self.events()),
        ensures
            r is Err <==> !cursor_wf(self.events(), cursor),
            r matches Ok(c2) ==> {
                &&& cursor.event_id == 1 ==> c2 == cursor
                &&& cursor.event_id > 1 ==> {
                    &&& c2.event_id < cursor.event_id
                    &&& is_tx_boundary(self.events(), c2.event_id as int)
                    &&& forall|c3: int|
                        c2.event_id < c3 < cursor.event_id ==> !is_tx_boundary(self.events(), c3)
                }
            },
    {
        let len = self.events.len();
        if cursor.event_id < 1 || cursor.event_id > len as u64 + 1 {
            return Err(ReplayError::UnknownCursor);
        }
        if cursor.event_id == 1 {
            return Ok(cursor);
        }
        let mut c: u64 = cursor.event_id - 1;
        while !self.is_boundary(c)
            invariant
                log_wf(self.events()),
                1 <= c < cursor.event_id,
                forall|c3: int| c < c3 < cursor.event_id ==> !is_tx_boundary(self.events(), c3),
            decreases c,
        {
            proof {
                // cursor 1 is always a boundary, so the loop stops at it
                assert(is_tx_boundary(self.events(), 1));
            }
            c -= 1;
        }
        Ok(EventCursor { event_id: c })
    }
}

} // verus!
