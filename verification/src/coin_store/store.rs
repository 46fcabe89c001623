//! The coin store itself: the log, the enabled subset of its mutations, and
//! the operations that append to the one and read the other.

use vstd::prelude::*;

use chrono::Utc;

use crate::coin_store::log::{
    created_span_frames, entry_wf, is_mutation_with_id, last_diff_id, last_event_id,
    lemma_created_prefix, lemma_created_stays,
    lemma_last_ids, lemma_wf_push, log_wf, mutation_ids, Recorded,
};
use crate::coin_store::records::{Diff, Event, NewCommon, NewDiff, NewEvent};
use crate::person::Person;
use crate::schema::{EventAction, ObjState};
use crate::span_frame::{span_frame_exists, SpanFrame};
use crate::storage::StorageError;

verus! {

/// Why a node was not created.
#[derive(Debug, Clone, Copy, PartialEq, Eq, Structural)]
pub enum CreateSpanFrameError {
    StorageFailure(StorageError),
    DuplicateSpanFrame { span: i32, frame: i32 },
}

/// Why rows were refused as the contents of a store.
#[derive(Debug, Clone, Copy, PartialEq, Eq, Structural)]
pub enum LoadError {
    /// The entry at this position is neither a mutation with its diff nor a
    /// lifecycle marker without one, or an id of it is below 1.
    UnsoundEntry { index: usize },
    /// The event at this position has an id that is not above the one
    /// before it.
    EventIdNotAscending { index: usize },
    /// The diff at this position has an id that is not above that of the
    /// diff before it.
    DiffIdNotAscending { index: usize },
    /// Two Open markers name this node.
    DuplicateSpanFrame { span: i32, frame: i32 },
    /// An event that is no mutation of the log is listed as enabled.
    UnknownEnabledEvent { ev_id: i32 },
}

/// A coin store held in memory.
pub struct CoinStore {
    entries: Vec<Recorded>,
    partial: Vec<i32>,
}

/// What a coin store holds: its log, and the ids of the enabled mutations.
pub struct CoinStoreView {
    pub log: Seq<Recorded>,
    pub enabled: Set<i32>,
}

impl CoinStoreView {
    /// A store is sound when its log is and only mutations of the log are
    /// enabled.
    pub open spec fn wf(self) -> bool {
        &&& log_wf(self.log)
        &&& self.enabled.subset_of(mutation_ids(self.log))
    }
}

impl View for CoinStore {
    type V = CoinStoreView;

    closed spec fn view(&self) -> CoinStoreView {
        CoinStoreView { log: self.entries@, enabled: self.partial@.to_set() }
    }
}

/// The current time in milliseconds since the Unix epoch, from
/// `chrono::Utc::now` and `DateTime::timestamp_millis`. Nothing is claimed of
/// the value. `Utc::now` panics where the system clock reads a time before
/// 1970.
#[verifier::external_body]
fn now_millis() -> i64 {
    Utc::now().timestamp_millis()
}

/// True when `after` is `before` with one lifecycle marker appended.
pub open spec fn appended_marker(
    before: Seq<Recorded>,
    after: Seq<Recorded>,
    action: EventAction,
    node: SpanFrame,
    created_on_ts: i64,
    ev_desc: Seq<char>,
) -> bool {
    &&& after.len() == before.len() + 1
    &&& after.drop_last() == before
    &&& after.last().diff is None
    &&& is_event(
        after.last().event,
        last_event_id(before) + 1,
        None,
        action,
        node,
        created_on_ts,
        ev_desc,
    )
}

/// True when `event` has exactly these fields.
pub open spec fn is_event(
    event: Event,
    id: int,
    opt_diff_id: Option<i32>,
    action: EventAction,
    node: SpanFrame,
    created_on_ts: i64,
    ev_desc: Seq<char>,
) -> bool {
    &&& event.id == id
    &&& event.opt_diff_id == opt_diff_id
    &&& event.ev_action == action
    &&& event.span == node.span
    &&& event.frame == node.frame
    &&& event.created_on_ts == created_on_ts
    &&& event.ev_desc@ == ev_desc
}

/// True when `after` is `before` with one mutation appended: a diff with the
/// next diff id, and an event with the next event id that references it.
pub open spec fn appended_mutation(
    before: Seq<Recorded>,
    after: Seq<Recorded>,
    obj_id: i32,
    node: SpanFrame,
    obj_state: ObjState,
    created_on_ts: i64,
    ev_desc: Seq<char>,
    person: Person,
    coins: i32,
) -> bool {
    &&& after.len() == before.len() + 1
    &&& after.drop_last() == before
    &&& after.last().diff == Some(
        Diff { id: (last_diff_id(before) + 1) as i32, obj_id, person, coins },
    )
    &&& is_event(
        after.last().event,
        last_event_id(before) + 1,
        Some((last_diff_id(before) + 1) as i32),
        obj_state.action(),
        node,
        created_on_ts,
        ev_desc,
    )
}

/// What creating the node `(span, frame)` comes to: a duplicate is refused,
/// then a full log, and otherwise the node is created.
pub open spec fn create_span_frame_outcome(log: Seq<Recorded>, span: i32, frame: i32) -> Result<
    SpanFrame,
    CreateSpanFrameError,
> {
    if created_span_frames(log).contains(SpanFrame { span, frame }) {
        Err(CreateSpanFrameError::DuplicateSpanFrame { span, frame })
    } else if last_event_id(log) == i32::MAX {
        Err(CreateSpanFrameError::StorageFailure(StorageError::IdsExhausted))
    } else {
        Ok(SpanFrame { span, frame })
    }
}

/// True when the log has room for one more event and one more diff.
pub open spec fn has_room(log: Seq<Recorded>) -> bool {
    last_event_id(log) < i32::MAX && last_diff_id(log) < i32::MAX
}

impl CoinStore {
    /// An empty store.
    pub fn new() -> (store: Self)
        ensures
            store@.wf(),
            store@.log == Seq::<Recorded>::empty(),
            store@.enabled == Set::<i32>::empty(),
    {
        let store = CoinStore { entries: Vec::new(), partial: Vec::new() };
        proof {
            assert(store.partial@.to_set() =~= Set::<i32>::empty());
            assert(created_span_frames(store.entries@) =~= Seq::<SpanFrame>::empty());
        }
        store
    }

    /// A store with the given log and enabled mutations, if they are sound.
    pub fn load(entries: Vec<Recorded>, enabled: Vec<i32>) -> (r: Result<CoinStore, LoadError>)
        ensures
            r is Ok <==> (CoinStoreView { log: entries@, enabled: enabled@.to_set() }).wf(),
            r matches Ok(store) ==> store@.log == entries@ && store@.enabled
                == enabled@.to_set(),
            r matches Err(LoadError::UnsoundEntry { index }) ==> index < entries@.len() && !entry_wf(
                entries@[index as int],
            ),
            r matches Err(LoadError::EventIdNotAscending { index }) ==> 0 < index < entries@.len()
                && entries@[index as int].event.id <= entries@[index - 1].event.id,
            r matches Err(LoadError::DiffIdNotAscending { index }) ==> index < entries@.len()
                && entries@[index as int].diff is Some && entries@[index as int].diff->Some_0.id
                <= last_diff_id(entries@.take(index as int)),
            r matches Err(LoadError::DuplicateSpanFrame { span, frame })
                ==> !created_span_frames(entries@).no_duplicates(),
            r matches Err(LoadError::UnknownEnabledEvent { ev_id }) ==> enabled@.contains(ev_id)
                && !mutation_ids(entries@).contains(ev_id),
    {
        let mut nodes: Vec<SpanFrame> = Vec::new();
        let mut prev_event: i32 = 0;
        let mut prev_diff: i32 = 0;
        let ghost mut diff_at: int = -1;
        let mut i: usize = 0;
        proof {
            assert(created_span_frames(entries@.take(0)) =~= Seq::<SpanFrame>::empty());
        }
        while i < entries.len()
            invariant
                i <= entries.len(),
                log_wf(entries@.take(i as int)),
                nodes@ == created_span_frames(entries@.take(i as int)),
                prev_event == last_event_id(entries@.take(i as int)),
                prev_diff == last_diff_id(entries@.take(i as int)),
                -1 <= diff_at < i,
                diff_at >= 0 ==> entries@[diff_at].diff is Some && entries@[diff_at].diff->Some_0.id
                    == prev_diff,
                diff_at < 0 ==> prev_diff == 0,
            decreases entries.len() - i,
        {
            let ghost part = entries@.take(i as int);
            let ghost next = entries@.take(i + 1);
            let entry = &entries[i];
            proof {
                assert(next == part.push(*entry));
                assert(next.drop_last() == part);
                lemma_last_ids(part);
            }
            let sound = entry.event.id >= 1 && entry.event.ev_action.mutates()
                == entry.diff.is_some() && match &entry.diff {
                Some(diff) => diff.id >= 1 && match entry.event.opt_diff_id {
                    Some(id) => id == diff.id,
                    None => false,
                },
                None => entry.event.opt_diff_id.is_none(),
            };
            if !sound {
                return Err(LoadError::UnsoundEntry { index: i });
            }
            if entry.event.id <= prev_event {
                proof {
                    assert(i > 0);
                    assert(part.last() == entries@[i - 1]);
                    assert(!(entries@[i - 1].event.id < entries@[i as int].event.id));
                }
                return Err(LoadError::EventIdNotAscending { index: i });
            }
            match &entry.diff {
                Some(diff) => {
                    if diff.id <= prev_diff {
                        proof {
                            assert(diff_at >= 0);
                            assert(!(entries@[diff_at].diff->Some_0.id
                                < entries@[i as int].diff->Some_0.id));
                        }
                        return Err(LoadError::DiffIdNotAscending { index: i });
                    }
                },
                None => {},
            }
            match entry.event.ev_action {
                EventAction::Open => {
                    let node = SpanFrame { span: entry.event.span, frame: entry.event.frame };
                    if span_frame_exists(&nodes, node.span, node.frame) {
                        proof {
                            let at = choose|at: int| 0 <= at < nodes@.len() && nodes@[at] == node;
                            let after = created_span_frames(next);
                            assert(after == nodes@.push(node));
                            assert(after[at] == after[nodes@.len() as int]);
                            lemma_created_prefix(entries@, i + 1);
                            let all = created_span_frames(entries@);
                            assert(all[at] == after[at]);
                            assert(all[nodes@.len() as int] == after[nodes@.len() as int]);
                        }
                        return Err(
                            LoadError::DuplicateSpanFrame { span: node.span, frame: node.frame },
                        );
                    }
                    nodes.push(node);
                },
                _ => {},
            }
            proof {
                lemma_wf_push(part, *entry);
            }
            prev_event = entry.event.id;
            match &entry.diff {
                Some(diff) => {
                    prev_diff = diff.id;
                    proof {
                        diff_at = i as int;
                    }
                },
                None => {},
            }
            i = i + 1;
        }
        proof {
            assert(entries@.take(entries@.len() as int) == entries@);
        }
        let store = CoinStore { entries, partial: Vec::new() };
        let mut k: usize = 0;
        while k < enabled.len()
            invariant
                k <= enabled.len(),
                store.entries@ == entries@,
                forall|j: int| 0 <= j < k ==> mutation_ids(entries@).contains(enabled@[j]),
            decreases enabled.len() - k,
        {
            if !store.is_mutation_id(enabled[k]) {
                proof {
                    assert(enabled@.to_set().contains(enabled@[k as int]));
                }
                return Err(LoadError::UnknownEnabledEvent { ev_id: enabled[k] });
            }
            k = k + 1;
        }
        Ok(CoinStore { entries: store.entries, partial: enabled })
    }

    /// The id of the last event; 0 for an empty log.
    pub fn last_event_id(&self) -> (id: i32)
        requires
            self@.wf(),
        ensures
            id == last_event_id(self@.log),
    {
        let n = self.entries.len();
        if n == 0 {
            0
        } else {
            self.entries[n - 1].event.id
        }
    }

    /// The id of the last diff; 0 when the log holds none.
    pub fn last_diff_id(&self) -> (id: i32)
        requires
            self@.wf(),
        ensures
            id == last_diff_id(self@.log),
    {
        let mut n = self.entries.len();
        proof {
            assert(self.entries@.take(n as int) == self.entries@);
        }
        while n > 0
            invariant
                n <= self.entries.len(),
                last_diff_id(self.entries@) == last_diff_id(self.entries@.take(n as int)),
            decreases n,
        {
            proof {
                assert(self.entries@.take(n as int).drop_last() == self.entries@.take(n - 1));
                assert(self.entries@.take(n as int).last() == self.entries@[n - 1]);
            }
            match &self.entries[n - 1].diff {
                Some(diff) => {
                    return diff.id;
                },
                None => {},
            }
            n = n - 1;
        }
        0
    }

    /// The entries of the log, oldest first.
    pub fn entries(&self) -> (r: &Vec<Recorded>)
        ensures
            r@ == self@.log,
    {
        &self.entries
    }

    /// Replaces the enabled subset.
    pub(crate) fn set_partial(&mut self, ids: Vec<i32>)
        requires
            ids@.to_set().subset_of(mutation_ids(old(self)@.log)),
        ensures
            final(self)@.log == old(self)@.log,
            final(self)@.enabled == ids@.to_set(),
    {
        self.partial = ids;
    }

    /// True when no mutation is enabled.
    pub fn none_enabled(&self) -> (r: bool)
        ensures
            r == (self@.enabled == Set::<i32>::empty()),
    {
        let r = self.partial.len() == 0;
        proof {
            if r {
                assert(self.partial@.to_set() =~= Set::<i32>::empty());
            } else {
                assert(self.partial@.contains(self.partial@[0]));
                assert(self.partial@.to_set().contains(self.partial@[0]));
            }
        }
        r
    }

    /// True when `ev_id` is the id of a mutation of the log.
    pub fn is_mutation_id(&self, ev_id: i32) -> (r: bool)
        ensures
            r == mutation_ids(self@.log).contains(ev_id),
    {
        let mut i: usize = 0;
        while i < self.entries.len()
            invariant
                i <= self.entries.len(),
                forall|j: int|
                    0 <= j < i ==> !is_mutation_with_id(
                        self.entries@[j],
                        ev_id,
                    ),
            decreases self.entries.len() - i,
        {
            if self.entries[i].diff.is_some() && self.entries[i].event.id == ev_id {
                assert(is_mutation_with_id(self.entries@[i as int], ev_id));
                return true;
            }
            i = i + 1;
        }
        false
    }

    /// The events of the log, oldest first.
    pub fn events(&self) -> (r: Vec<Event>)
        ensures
            r@.len() == self@.log.len(),
            forall|i: int| 0 <= i < r@.len() ==> r@[i] == self@.log[i].event,
    {
        let mut out: Vec<Event> = Vec::new();
        let mut i: usize = 0;
        while i < self.entries.len()
            invariant
                i <= self.entries.len(),
                out@.len() == i,
                forall|k: int| 0 <= k < i ==> out@[k] == self.entries@[k].event,
            decreases self.entries.len() - i,
        {
            out.push(self.entries[i].event.clone());
            i = i + 1;
        }
        out
    }

    /// The number of entries of the log.
    pub fn len(&self) -> (n: usize)
        ensures
            n == self@.log.len(),
    {
        self.entries.len()
    }

    /// The ids of the enabled mutations.
    pub fn enabled_ids(&self) -> (r: Vec<i32>)
        ensures
            r@.to_set() == self@.enabled,
    {
        self.partial.clone()
    }

    /// True when the mutation with this event id is enabled.
    pub fn is_enabled(&self, ev_id: i32) -> (r: bool)
        ensures
            r == self@.enabled.contains(ev_id),
    {
        contains_id(&self.partial, ev_id)
    }
}

/// True when `id` is one of `ids`.
pub fn contains_id(ids: &Vec<i32>, id: i32) -> (r: bool)
    ensures
        r == ids@.contains(id),
        r == ids@.to_set().contains(id),
{
    let mut i: usize = 0;
    while i < ids.len()
        invariant
            i <= ids.len(),
            forall|k: int| 0 <= k < i ==> ids@[k] != id,
        decreases ids.len() - i,
    {
        if ids[i] == id {
            return true;
        }
        i = i + 1;
    }
    false
}

/// The nodes created so far, in the order of their creation. No node occurs
/// twice.
pub fn get_created_span_frames(store: &CoinStore) -> (r: Vec<SpanFrame>)
    requires
        store@.wf(),
    ensures
        r@ == created_span_frames(store@.log),
        r@.no_duplicates(),
{
    let mut out: Vec<SpanFrame> = Vec::new();
    let mut i: usize = 0;
    while i < store.entries.len()
        invariant
            i <= store.entries.len(),
            out@ == created_span_frames(store.entries@.take(i as int)),
        decreases store.entries.len() - i,
    {
        proof {
            assert(store.entries@.take(i + 1).drop_last() == store.entries@.take(i as int));
            assert(store.entries@.take(i + 1).last() == store.entries@[i as int]);
        }
        let event = &store.entries[i].event;
        match event.ev_action {
            EventAction::Open => {
                out.push(SpanFrame { span: event.span, frame: event.frame });
            },
            _ => {},
        }
        i = i + 1;
    }
    proof {
        assert(store.entries@.take(store.entries@.len() as int) == store.entries@);
    }
    out
}

/// Appends a lifecycle marker. The caller has made sure that the log has room
/// and that an Open marker opens a new node.
fn append_marker(
    store: &mut CoinStore,
    action: EventAction,
    node: SpanFrame,
    ev_desc: &str,
    created_on_ts: i64,
)
    requires
        old(store)@.wf(),
        !action.is_mutation(),
        last_event_id(old(store)@.log) < i32::MAX,
        action is Open ==> !created_span_frames(old(store)@.log).contains(node),
    ensures
        final(store)@.wf(),
        final(store)@.enabled == old(store)@.enabled,
        appended_marker(
            old(store)@.log,
            final(store)@.log,
            action,
            node,
            created_on_ts,
            ev_desc@,
        ),
{
    let id = store.last_event_id() + 1;
    let new_event = NewEvent {
        opt_diff_id: None,
        ev_action: action,
        span: node.span,
        frame: node.frame,
        created_on_ts,
        ev_desc,
    };
    let entry = Recorded { event: stored_event(id, &new_event), diff: None };
    proof {
        lemma_last_ids(store@.log);
        lemma_wf_push(store@.log, entry);
        lemma_mutation_ids_push(store@.log, entry);
        assert(store.entries@.push(entry).drop_last() == store.entries@);
    }
    store.entries.push(entry);
}

/// The event that a new event becomes once it has its id.
fn stored_event(id: i32, new_event: &NewEvent) -> (event: Event)
    ensures
        is_event(
            event,
            id as int,
            new_event.opt_diff_id,
            new_event.ev_action,
            SpanFrame { span: new_event.span, frame: new_event.frame },
            new_event.created_on_ts,
            new_event.ev_desc@,
        ),
{
    Event {
        id,
        opt_diff_id: new_event.opt_diff_id,
        ev_action: new_event.ev_action,
        span: new_event.span,
        frame: new_event.frame,
        created_on_ts: new_event.created_on_ts,
        ev_desc: new_event.ev_desc.to_owned(),
    }
}

/// Appending an entry adds its event id to the mutation ids if it is a
/// mutation, and leaves them as they are if it is not.
pub proof fn lemma_mutation_ids_push(log: Seq<Recorded>, entry: Recorded)
    ensures
        mutation_ids(log.push(entry)) == if entry.diff is Some {
            mutation_ids(log).insert(entry.event.id)
        } else {
            mutation_ids(log)
        },
{
    let next = log.push(entry);
    let expected = if entry.diff is Some {
        mutation_ids(log).insert(entry.event.id)
    } else {
        mutation_ids(log)
    };
    assert forall|id: i32| mutation_ids(next).contains(id) <==> expected.contains(id) by {
        if mutation_ids(next).contains(id) {
            let i = choose|i: int|
                0 <= i < next.len() && is_mutation_with_id(
                    #[trigger] next[i],
                    id,
                );
            if i < log.len() {
                assert(is_mutation_with_id(log[i], id));
            }
        }
        if expected.contains(id) {
            if mutation_ids(log).contains(id) {
                let i = choose|i: int|
                    0 <= i < log.len() && is_mutation_with_id(
                        #[trigger] log[i],
                        id,
                    );
                assert(is_mutation_with_id(next[i], id));
            } else {
                assert(is_mutation_with_id(next[log.len() as int], id));
            }
        }
    }
    assert(mutation_ids(next) =~= expected);
}

/// Appending an entry that opens no node leaves the created nodes as they
/// are.
pub proof fn lemma_created_push(log: Seq<Recorded>, entry: Recorded)
    ensures
        created_span_frames(log.push(entry)) == if entry.event.ev_action is Open {
            created_span_frames(log).push(
                SpanFrame { span: entry.event.span, frame: entry.event.frame },
            )
        } else {
            created_span_frames(log)
        },
{
    assert(log.push(entry).drop_last() == log);
}

/// No node is created twice: once a node has been created, creating it again
/// is refused as a duplicate, whatever has been appended since.
pub proof fn lemma_no_node_created_twice(log: Seq<Recorded>, n: int, span: i32, frame: i32)
    requires
        0 <= n <= log.len(),
        created_span_frames(log.take(n)).contains(SpanFrame { span, frame }),
    ensures
        create_span_frame_outcome(log, span, frame) == Err::<SpanFrame, CreateSpanFrameError>(
            CreateSpanFrameError::DuplicateSpanFrame { span, frame },
        ),
{
    lemma_created_stays(log, n, SpanFrame { span, frame });
}

/// Creates the node `(span, frame)` at a given time: appends its Open marker,
/// unless the node exists already or the log is full.
pub fn create_span_frame_at(
    store: &mut CoinStore,
    span: i32,
    frame: i32,
    ev_desc: &str,
    created_on_ts: i64,
) -> (r: Result<SpanFrame, CreateSpanFrameError>)
    requires
        old(store)@.wf(),
    ensures
        final(store)@.wf(),
        final(store)@.enabled == old(store)@.enabled,
        r == create_span_frame_outcome(old(store)@.log, span, frame),
        r is Err ==> final(store)@.log == old(store)@.log,
        r is Ok ==> appended_marker(
            old(store)@.log,
            final(store)@.log,
            EventAction::Open,
            SpanFrame { span, frame },
            created_on_ts,
            ev_desc@,
        ),
        r is Ok ==> created_span_frames(final(store)@.log) == created_span_frames(
            old(store)@.log,
        ).push(SpanFrame { span, frame }),
{
    let span_frames = get_created_span_frames(store);
    let node = SpanFrame { span, frame };
    if span_frame_exists(&span_frames, span, frame) {
        return Err(CreateSpanFrameError::DuplicateSpanFrame { span, frame });
    }
    if store.last_event_id() == i32::MAX {
        return Err(CreateSpanFrameError::StorageFailure(StorageError::IdsExhausted));
    }
    append_marker(store, EventAction::Open, node, ev_desc, created_on_ts);
    Ok(node)
}

/// Creates the node `(span, frame)` now. See [`create_span_frame_at`]; the
/// marker's time is read from the clock.
pub fn create_span_frame(store: &mut CoinStore, span: i32, frame: i32, ev_desc: &str) -> (r: Result<
    SpanFrame,
    CreateSpanFrameError,
>)
    requires
        old(store)@.wf(),
    ensures
        final(store)@.wf(),
        final(store)@.enabled == old(store)@.enabled,
        r == create_span_frame_outcome(old(store)@.log, span, frame),
        r is Err ==> final(store)@.log == old(store)@.log,
        r is Ok ==> appended_marker(
            old(store)@.log,
            final(store)@.log,
            EventAction::Open,
            SpanFrame { span, frame },
            final(store)@.log.last().event.created_on_ts,
            ev_desc@,
        ),
        r is Ok ==> created_span_frames(final(store)@.log) == created_span_frames(
            old(store)@.log,
        ).push(SpanFrame { span, frame }),
{
    create_span_frame_at(store, span, frame, ev_desc, now_millis())
}

/// Appends a Close or Reopen marker for `span_frame` at a given time, unless
/// the log is full.
fn mark_span_frame_at(
    store: &mut CoinStore,
    action: EventAction,
    span_frame: SpanFrame,
    ev_desc: &str,
    created_on_ts: i64,
) -> (r: Result<(), StorageError>)
    requires
        old(store)@.wf(),
        action is Close || action is Reopen,
    ensures
        final(store)@.wf(),
        final(store)@.enabled == old(store)@.enabled,
        r is Ok <==> last_event_id(old(store)@.log) < i32::MAX,
        r is Err ==> final(store)@.log == old(store)@.log,
        r is Ok ==> appended_marker(
            old(store)@.log,
            final(store)@.log,
            action,
            span_frame,
            created_on_ts,
            ev_desc@,
        ),
{
    if store.last_event_id() == i32::MAX {
        return Err(StorageError::IdsExhausted);
    }
    append_marker(store, action, span_frame, ev_desc, created_on_ts);
    Ok(())
}

/// Records at a given time that `span_frame` was closed.
pub fn close_span_frame_at(
    store: &mut CoinStore,
    span_frame: SpanFrame,
    ev_desc: &str,
    created_on_ts: i64,
) -> (r: Result<(), StorageError>)
    requires
        old(store)@.wf(),
    ensures
        final(store)@.wf(),
        final(store)@.enabled == old(store)@.enabled,
        r is Ok <==> last_event_id(old(store)@.log) < i32::MAX,
        r is Err ==> final(store)@.log == old(store)@.log,
        r is Ok ==> appended_marker(
            old(store)@.log,
            final(store)@.log,
            EventAction::Close,
            span_frame,
            created_on_ts,
            ev_desc@,
        ),
{
    mark_span_frame_at(store, EventAction::Close, span_frame, ev_desc, created_on_ts)
}

/// Records that `span_frame` was closed now.
pub fn close_span_frame(store: &mut CoinStore, span_frame: SpanFrame, ev_desc: &str) -> (r: Result<
    (),
    StorageError,
>)
    requires
        old(store)@.wf(),
    ensures
        final(store)@.wf(),
        final(store)@.enabled == old(store)@.enabled,
        r is Ok <==> last_event_id(old(store)@.log) < i32::MAX,
        r is Err ==> final(store)@.log == old(store)@.log,
        r is Ok ==> appended_marker(
            old(store)@.log,
            final(store)@.log,
            EventAction::Close,
            span_frame,
            final(store)@.log.last().event.created_on_ts,
            ev_desc@,
        ),
{
    mark_span_frame_at(store, EventAction::Close, span_frame, ev_desc, now_millis())
}

/// Records at a given time that `span_frame` was reopened.
pub fn reopen_span_frame_at(
    store: &mut CoinStore,
    span_frame: SpanFrame,
    ev_desc: &str,
    created_on_ts: i64,
) -> (r: Result<(), StorageError>)
    requires
        old(store)@.wf(),
    ensures
        final(store)@.wf(),
        final(store)@.enabled == old(store)@.enabled,
        r is Ok <==> last_event_id(old(store)@.log) < i32::MAX,
        r is Err ==> final(store)@.log == old(store)@.log,
        r is Ok ==> appended_marker(
            old(store)@.log,
            final(store)@.log,
            EventAction::Reopen,
            span_frame,
            created_on_ts,
            ev_desc@,
        ),
{
    mark_span_frame_at(store, EventAction::Reopen, span_frame, ev_desc, created_on_ts)
}

/// Records that `span_frame` was reopened now.
pub fn reopen_span_frame(store: &mut CoinStore, span_frame: SpanFrame, ev_desc: &str) -> (r: Result<
    (),
    StorageError,
>)
    requires
        old(store)@.wf(),
    ensures
        final(store)@.wf(),
        final(store)@.enabled == old(store)@.enabled,
        r is Ok <==> last_event_id(old(store)@.log) < i32::MAX,
        r is Err ==> final(store)@.log == old(store)@.log,
        r is Ok ==> appended_marker(
            old(store)@.log,
            final(store)@.log,
            EventAction::Reopen,
            span_frame,
            final(store)@.log.last().event.created_on_ts,
            ev_desc@,
        ),
{
    mark_span_frame_at(store, EventAction::Reopen, span_frame, ev_desc, now_millis())
}

/// The diff that a new diff becomes once it has its id.
fn stored_diff(id: i32, new_diff: &NewDiff) -> (diff: Diff)
    ensures
        diff == (Diff {
            id,
            obj_id: new_diff.obj_id,
            person: *new_diff.person,
            coins: new_diff.coins,
        }),
{
    Diff { id, obj_id: new_diff.obj_id, person: new_diff.person.clone(), coins: new_diff.coins }
}

/// Records a mutation of object `obj_id` in the node `span_frame` at a given
/// time: a diff with the payload, then the event that owns it. Both are
/// appended, or, when an id has run out, neither.
pub fn insert_event_for_obj_at<'a>(
    store: &mut CoinStore,
    obj_id: i32,
    span_frame: &SpanFrame,
    obj_state: ObjState,
    ev_desc: &'a str,
    new_common: NewCommon<'a>,
    created_on_ts: i64,
) -> (r: Result<Event, StorageError>)
    requires
        old(store)@.wf(),
    ensures
        final(store)@.wf(),
        final(store)@.enabled == old(store)@.enabled,
        r is Ok <==> has_room(old(store)@.log),
        r is Err ==> final(store)@.log == old(store)@.log,
        r is Ok ==> appended_mutation(
            old(store)@.log,
            final(store)@.log,
            obj_id,
            *span_frame,
            obj_state,
            created_on_ts,
            ev_desc@,
            *new_common.person,
            new_common.coins,
        ),
        r is Ok ==> r->Ok_0 == final(store)@.log.last().event,
{
    let last_event = store.last_event_id();
    let last_diff = store.last_diff_id();
    if last_event == i32::MAX || last_diff == i32::MAX {
        return Err(StorageError::IdsExhausted);
    }
    proof {
        lemma_last_ids(store@.log);
    }
    let new_diff = NewDiff::new_with_common(obj_id, new_common);
    let diff = stored_diff(last_diff + 1, &new_diff);
    let new_event = NewEvent {
        opt_diff_id: Some(diff.id),
        ev_action: EventAction::from(obj_state),
        span: span_frame.span,
        frame: span_frame.frame,
        created_on_ts,
        ev_desc,
    };
    let event = stored_event(last_event + 1, &new_event);
    let out = event.clone();
    let entry = Recorded { event, diff: Some(diff) };
    proof {
        lemma_wf_push(store@.log, entry);
        lemma_mutation_ids_push(store@.log, entry);
        assert(store.entries@.push(entry).drop_last() == store.entries@);
    }
    store.entries.push(entry);
    Ok(out)
}

/// Records a mutation now. See [`insert_event_for_obj_at`]; the event's time
/// is read from the clock.
pub fn insert_event_for_obj<'a>(
    store: &mut CoinStore,
    obj_id: i32,
    span_frame: &SpanFrame,
    obj_state: ObjState,
    ev_desc: &'a str,
    new_common: NewCommon<'a>,
) -> (r: Result<Event, StorageError>)
    requires
        old(store)@.wf(),
    ensures
        final(store)@.wf(),
        final(store)@.enabled == old(store)@.enabled,
        r is Ok <==> has_room(old(store)@.log),
        r is Err ==> final(store)@.log == old(store)@.log,
        r is Ok ==> appended_mutation(
            old(store)@.log,
            final(store)@.log,
            obj_id,
            *span_frame,
            obj_state,
            final(store)@.log.last().event.created_on_ts,
            ev_desc@,
            *new_common.person,
            new_common.coins,
        ),
        r is Ok ==> r->Ok_0 == final(store)@.log.last().event,
{
    insert_event_for_obj_at(store, obj_id, span_frame, obj_state, ev_desc, new_common, now_millis())
}

} // verus!
