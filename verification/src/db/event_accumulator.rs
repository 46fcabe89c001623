//! Keeping head tables up to date with their event tables.
//!
//! A table group is an event table, the head table that materializes it, the
//! base table the head can be sourced from, and a checkpoint: the id of the
//! last event that the head reflects. The capabilities below are what the
//! accumulator needs from a table group; the commands replay events through
//! them.

use vstd::prelude::*;

use crate::sequences::{
    lemma_filter_all, lemma_filter_none, lemma_filter_push, lemma_filter_take,
};
use crate::schema::EventAction;

verus! {

/// What the accumulator is asked to do.
#[derive(Debug, PartialEq, Eq)]
pub enum EaThreadMessage {
    /// The table group may have new events: bring its head up to date.
    DbWrite { table_name: String },
    /// Rebuild the head as of the given event, or of the last one on `None`.
    DbCheckout { table_name: String, opt_event_id: Option<i32> },
    /// Stop.
    Quit,
}

/// Why a capability of a table group failed.
#[derive(Debug, PartialEq, Eq)]
pub enum EventSourcableError {
    /// The storage refused a read or a write.
    StorageFailure(String),
    /// The storage answered with something it should not have.
    AssertionFailed(String),
    /// Anything else.
    Error(String),
}

/// The part of an event that is not a copy of its object.
#[derive(Debug, PartialEq, Eq)]
pub struct EventData {
    pub id: i32,
    pub opt_object_id: Option<i32>,
    pub opt_event_id: Option<i32>,
    pub opt_event_arg: Option<i32>,
    pub event_stack_level: i32,
    pub event_action: EventAction,
    pub created_on: String,
}

impl Clone for EventData {
    fn clone(&self) -> (r: Self)
        ensures
            r == *self,
    {
        EventData {
            id: self.id,
            opt_object_id: self.opt_object_id,
            opt_event_id: self.opt_event_id,
            opt_event_arg: self.opt_event_arg,
            event_stack_level: self.event_stack_level,
            event_action: self.event_action,
            created_on: self.created_on.clone(),
        }
    }
}

/// What a table group holds, as far as the accumulator is concerned.
pub struct TableGroupState<O> {
    /// The checkpoint.
    pub version: Option<i32>,
    /// The event table, oldest event first.
    pub events: Seq<(EventData, O)>,
    /// The head table, by object id.
    pub head: Map<i32, O>,
    /// The base table, by object id.
    pub base: Map<i32, O>,
}

impl<O> TableGroupState<O> {
    /// The event table is sound when the ids grow along it.
    pub open spec fn wf(self) -> bool {
        forall|i: int, j: int|
            0 <= i < j < self.events.len() ==> (#[trigger] self.events[i]).0.id < (
            #[trigger] self.events[j]).0.id
    }
}

/// The test that keeps the events after the event `from`: all of them on
/// `None`.
pub open spec fn is_after<O>(from: Option<i32>) -> spec_fn((EventData, O)) -> bool {
    |event: (EventData, O)| from is None || event.0.id > from->Some_0
}

/// The test that keeps the events up to and including the event `upto`: all
/// of them on `None`.
pub open spec fn is_upto<O>(upto: Option<i32>) -> spec_fn((EventData, O)) -> bool {
    |event: (EventData, O)| upto is None || event.0.id <= upto->Some_0
}

/// An event names what it is about unless it mutates an object and names
/// none.
pub open spec fn applicable(data: EventData) -> bool {
    data.event_action.is_mutation() ==> data.opt_object_id is Some
}

/// The head after one event, or `None` where the head cannot take the event.
/// An insert creates the object's row and needs it to be absent. An update
/// overwrites the row and needs it to be there. A delete removes the row, if
/// there is one. A lifecycle marker changes nothing. A mutation that names
/// no object cannot be taken.
pub open spec fn apply_event<O>(head: Map<i32, O>, data: EventData, object: O) -> Option<
    Map<i32, O>,
> {
    match (data.event_action, data.opt_object_id) {
        (EventAction::Insert, Some(object_id)) => if head.contains_key(object_id) {
            None
        } else {
            Some(head.insert(object_id, object))
        },
        (EventAction::Update, Some(object_id)) => if head.contains_key(object_id) {
            Some(head.insert(object_id, object))
        } else {
            None
        },
        (EventAction::Delete, Some(object_id)) => Some(head.remove(object_id)),
        (EventAction::Insert, None) => None,
        (EventAction::Update, None) => None,
        (EventAction::Delete, None) => None,
        _ => Some(head),
    }
}

/// The head after the events have been applied in their order, or `None`
/// where one of them cannot be taken by the head that the events before it
/// have made.
pub open spec fn replay<O>(head: Map<i32, O>, events: Seq<(EventData, O)>) -> Option<Map<i32, O>>
    decreases events.len(),
{
    if events.len() == 0 {
        Some(head)
    } else {
        match replay(head, events.drop_last()) {
            Some(earlier) => apply_event(earlier, events.last().0, events.last().1),
            None => None,
        }
    }
}

/// The id of the last of the events, or `version` when there is none.
pub open spec fn last_id_or<O>(version: Option<i32>, events: Seq<(EventData, O)>) -> Option<i32> {
    if events.len() == 0 {
        version
    } else {
        Some(events.last().0.id)
    }
}

/// What a write makes of a table group: the events after the checkpoint are
/// applied to the head in their order, and the checkpoint moves to the last of
/// them. `None` where the head cannot take one of them.
pub open spec fn written<O>(before: TableGroupState<O>) -> Option<TableGroupState<O>> {
    let pending = before.events.filter(is_after(before.version));
    match replay(before.head, pending) {
        Some(head) => Some(
            TableGroupState {
                version: last_id_or(before.version, pending),
                events: before.events,
                head,
                base: before.base,
            },
        ),
        None => None,
    }
}

/// What a checkout makes of a table group: the head is rebuilt from nothing
/// by the events up to the target, and the checkpoint is the target, or the
/// last event when none is given. `None` where the head cannot take one of the
/// events.
pub open spec fn checked_out<O>(before: TableGroupState<O>, target: Option<i32>) -> Option<
    TableGroupState<O>,
> {
    let history = before.events.filter(is_upto(target));
    match replay(Map::empty(), history) {
        Some(head) => Some(
            TableGroupState {
                version: match target {
                    Some(id) => Some(id),
                    None => last_id_or(None, history),
                },
                events: before.events,
                head,
                base: before.base,
            },
        ),
        None => None,
    }
}

/// What a reset makes of a table group: the head is empty and there is no
/// checkpoint, as before the first write.
pub open spec fn reset<O>(before: TableGroupState<O>) -> TableGroupState<O> {
    TableGroupState {
        version: None,
        events: before.events,
        head: Map::empty(),
        base: before.base,
    }
}

/// True when the event mutates the object `object_id`.
pub open spec fn touches(data: EventData, object_id: i32) -> bool {
    data.event_action.is_mutation() && data.opt_object_id == Some(object_id)
}

/// In a sound event table the events after a checkpoint, if there are any,
/// end with the last event of the table.
pub proof fn lemma_pending_ends_with_last<O>(events: Seq<(EventData, O)>, version: Option<i32>)
    requires
        forall|i: int, j: int|
            0 <= i < j < events.len() ==> (#[trigger] events[i]).0.id < (#[trigger] events[j]).0.id,
        events.filter(is_after(version)).len() > 0,
    ensures
        events.len() > 0,
        events.filter(is_after(version)).last() == events.last(),
{
    reveal(Seq::filter);
    let pred = is_after::<O>(version);
    if events.len() > 0 && !pred(events.last()) {
        assert forall|i: int| 0 <= i < events.len() implies !pred(#[trigger] events[i]) by {
            if i < events.len() - 1 {
                assert(events[i].0.id < events[events.len() - 1].0.id);
            }
        }
        lemma_filter_none(events, pred);
    }
}

/// Idempotence of a write: on a sound table group, a second write that finds
/// no new event leaves the head and the checkpoint as the first write left
/// them.
pub proof fn lemma_write_idempotent<O>(before: TableGroupState<O>)
    requires
        before.wf(),
        written(before) is Some,
    ensures
        written(written(before)->Some_0) == written(before),
{
    let once = written(before)->Some_0;
    let pending = before.events.filter(is_after(before.version));
    let again = once.events.filter(is_after(once.version));
    if pending.len() == 0 {
        assert(once.head == before.head);
        assert(again == pending);
    } else {
        lemma_pending_ends_with_last(before.events, before.version);
        let pred = is_after::<O>(once.version);
        assert forall|i: int| 0 <= i < before.events.len() implies !pred(
            #[trigger] before.events[i],
        ) by {
            if i < before.events.len() - 1 {
                assert(before.events[i].0.id < before.events[before.events.len() - 1].0.id);
            }
        }
        lemma_filter_none(before.events, pred);
    }
    assert(written(once)->Some_0.head == once.head);
    assert(written(once)->Some_0.version == once.version);
}

/// Ordering of a replay: the head row of an object is what the last event
/// that mutates the object made of it. After an insert or an update it holds
/// that event's object; after a delete there is none.
pub proof fn lemma_replay_reflects_last<O>(
    head: Map<i32, O>,
    events: Seq<(EventData, O)>,
    object_id: i32,
    i: int,
)
    requires
        replay(head, events) is Some,
        0 <= i < events.len(),
        touches(events[i].0, object_id),
        forall|j: int| i < j < events.len() ==> !touches((#[trigger] events[j]).0, object_id),
    ensures
        events[i].0.event_action is Delete ==> !replay(head, events)->Some_0.contains_key(
            object_id,
        ),
        !(events[i].0.event_action is Delete) ==> replay(head, events)->Some_0.contains_key(
            object_id,
        ) && replay(head, events)->Some_0[object_id] == events[i].1,
    decreases events.len(),
{
    if i < events.len() - 1 {
        let init = events.drop_last();
        assert(!touches(events[events.len() - 1].0, object_id));
        assert forall|j: int| i < j < init.len() implies !touches(
            (#[trigger] init[j]).0,
            object_id,
        ) by {
            assert(init[j] == events[j]);
        }
        lemma_replay_reflects_last(head, init, object_id, i);
    }
}

/// A replay leaves the head row of an object that no event mutates as it was.
pub proof fn lemma_replay_spares<O>(head: Map<i32, O>, events: Seq<(EventData, O)>, object_id: i32)
    requires
        replay(head, events) is Some,
        forall|j: int| 0 <= j < events.len() ==> !touches((#[trigger] events[j]).0, object_id),
    ensures
        replay(head, events)->Some_0.contains_key(object_id) == head.contains_key(object_id),
        head.contains_key(object_id) ==> replay(head, events)->Some_0[object_id]
            == head[object_id],
    decreases events.len(),
{
    if events.len() > 0 {
        let init = events.drop_last();
        assert(!touches(events[events.len() - 1].0, object_id));
        assert forall|j: int| 0 <= j < init.len() implies !touches(
            (#[trigger] init[j]).0,
            object_id,
        ) by {
            assert(init[j] == events[j]);
        }
        lemma_replay_spares(head, init, object_id);
    }
}

/// A replay that fails on the first `n` events fails on all of them.
pub proof fn lemma_replay_fails_early<O>(head: Map<i32, O>, events: Seq<(EventData, O)>, n: int)
    requires
        0 <= n <= events.len(),
        replay(head, events.take(n)) is None,
    ensures
        replay(head, events) is None,
    decreases events.len(),
{
    if n < events.len() {
        assert(events.drop_last().take(n) == events.take(n));
        lemma_replay_fails_early(head, events.drop_last(), n);
    } else {
        assert(events.take(n) == events);
    }
}

/// Names the object type of a table group.
pub trait HasEventObject {
    /// The part of an event that is a copy of the object it is about.
    type Object;
}

/// Names the connection through which a table group is reached, and says
/// what the group holds behind it.
pub trait HasTableGroupState: HasEventObject {
    /// The connection to the storage.
    type Conn;

    /// What the table group holds.
    spec fn state(&self, conn: &Self::Conn) -> TableGroupState<Self::Object>;

    /// True when a capability of the table group fails only where its
    /// contract says that it must: an insert of a row that exists, an update
    /// of a row that does not.
    spec fn reliable(&self) -> bool;
}

pub trait ReadEventTableVersion: HasTableGroupState {
    /// Reads the checkpoint. A table group that has never been synchronized
    /// has none.
    fn read_event_table_version(&self, mut_conn: &mut Self::Conn) -> (r: Result<
        Option<i32>,
        EventSourcableError,
    >)
        ensures
            self.reliable() ==> r is Ok,
            self.state(final(mut_conn)) == self.state(old(mut_conn)),
            r matches Ok(version) ==> version == self.state(old(mut_conn)).version,
    ;
}

pub trait WriteEventTableVersion: HasTableGroupState {
    /// Sets the checkpoint.
    fn write_event_table_version(
        &self,
        mut_conn: &mut Self::Conn,
        opt_event_id: Option<i32>,
    ) -> (r: Result<(), EventSourcableError>)
        ensures
            self.reliable() ==> r is Ok,
            self.state(final(mut_conn)).events == self.state(old(mut_conn)).events,
            self.state(final(mut_conn)).head == self.state(old(mut_conn)).head,
            self.state(final(mut_conn)).base == self.state(old(mut_conn)).base,
            r is Ok ==> self.state(final(mut_conn)).version == opt_event_id,
    ;
}

pub trait ReadEventTable: HasTableGroupState {
    /// Reads the events after the event `opt_from_event_id`, or all of them on
    /// `None`, oldest first, each split into its data and its object.
    fn read_event_table(&self, mut_conn: &mut Self::Conn, opt_from_event_id: Option<i32>) -> (r:
        Result<Vec<(EventData, Self::Object)>, EventSourcableError>)
        ensures
            self.reliable() ==> r is Ok,
            self.state(final(mut_conn)) == self.state(old(mut_conn)),
            r matches Ok(events) ==> events@ == self.state(old(mut_conn)).events.filter(
                is_after(opt_from_event_id),
            ),
    ;
}

pub trait InsertIntoHeadTable: HasTableGroupState {
    /// Creates the head row of an object. Where the object has a row already,
    /// the insert fails and changes nothing.
    fn insert_into_head_table(
        &self,
        mut_conn: &mut Self::Conn,
        object_id: i32,
        object: Self::Object,
    ) -> (r: Result<(), EventSourcableError>)
        ensures
            self.state(old(mut_conn)).head.contains_key(object_id) ==> r is Err && self.state(
                final(mut_conn),
            ) == self.state(old(mut_conn)),
            self.reliable() && !self.state(old(mut_conn)).head.contains_key(object_id) ==> r is Ok,
            self.state(final(mut_conn)).events == self.state(old(mut_conn)).events,
            self.state(final(mut_conn)).version == self.state(old(mut_conn)).version,
            self.state(final(mut_conn)).base == self.state(old(mut_conn)).base,
            r is Ok ==> self.state(final(mut_conn)).head == self.state(old(mut_conn)).head.insert(
                object_id,
                object,
            ),
    ;
}

pub trait UpdateHeadTableRow: HasTableGroupState {
    /// Overwrites the head row of an object. Where the object has no row, the
    /// update fails and changes nothing.
    fn update_head_table_row(
        &self,
        mut_conn: &mut Self::Conn,
        object_id: i32,
        object: Self::Object,
    ) -> (r: Result<(), EventSourcableError>)
        ensures
            !self.state(old(mut_conn)).head.contains_key(object_id) ==> r is Err && self.state(
                final(mut_conn),
            ) == self.state(old(mut_conn)),
            self.reliable() && self.state(old(mut_conn)).head.contains_key(object_id) ==> r is Ok,
            self.state(final(mut_conn)).events == self.state(old(mut_conn)).events,
            self.state(final(mut_conn)).version == self.state(old(mut_conn)).version,
            self.state(final(mut_conn)).base == self.state(old(mut_conn)).base,
            r is Ok ==> self.state(final(mut_conn)).head == self.state(old(mut_conn)).head.insert(
                object_id,
                object,
            ),
    ;
}

pub trait DeleteHeadTableRow: HasTableGroupState {
    /// Removes the head row of an object, if it has one.
    fn delete_head_table_row(&self, mut_conn: &mut Self::Conn, object_id: i32) -> (r: Result<
        (),
        EventSourcableError,
    >)
        ensures
            self.reliable() ==> r is Ok,
            self.state(final(mut_conn)).events == self.state(old(mut_conn)).events,
            self.state(final(mut_conn)).version == self.state(old(mut_conn)).version,
            self.state(final(mut_conn)).base == self.state(old(mut_conn)).base,
            r is Ok ==> self.state(final(mut_conn)).head == self.state(old(mut_conn)).head.remove(
                object_id,
            ),
    ;
}

pub trait ClearHeadTable: HasTableGroupState {
    /// Removes every head row.
    fn clear_head_table(&self, mut_conn: &mut Self::Conn) -> (r: Result<(), EventSourcableError>)
        ensures
            self.reliable() ==> r is Ok,
            self.state(final(mut_conn)).events == self.state(old(mut_conn)).events,
            self.state(final(mut_conn)).version == self.state(old(mut_conn)).version,
            self.state(final(mut_conn)).base == self.state(old(mut_conn)).base,
            r is Ok ==> self.state(final(mut_conn)).head == Map::<i32, Self::Object>::empty(),
    ;
}

pub trait SourceHeadTable: HasTableGroupState {
    /// Replaces the head rows by the rows of the base table.
    fn source_head_table_row(&self, mut_conn: &mut Self::Conn) -> (r: Result<
        (),
        EventSourcableError,
    >)
        ensures
            self.reliable() ==> r is Ok,
            self.state(final(mut_conn)).events == self.state(old(mut_conn)).events,
            self.state(final(mut_conn)).version == self.state(old(mut_conn)).version,
            self.state(final(mut_conn)).base == self.state(old(mut_conn)).base,
            r is Ok ==> self.state(final(mut_conn)).head == self.state(old(mut_conn)).base,
    ;
}

/// The capabilities that let the accumulator manage a head table from its
/// events.
pub trait EventSourcable:
    ReadEventTableVersion
    + WriteEventTableVersion
    + ReadEventTable
    + InsertIntoHeadTable
    + UpdateHeadTableRow
    + DeleteHeadTableRow
    + ClearHeadTable
    + SourceHeadTable
{
}

/// Why the accumulator could not serve a command.
#[derive(Debug, PartialEq, Eq)]
pub enum SpawnEaBgWorkerThreadError {
    /// No table group is registered under this name.
    TableNameNotInLockMap(String),
    /// The requester had gone before it could be answered.
    SendError(String),
    /// Every requester had gone.
    RecvError,
    /// The lock of a table group was poisoned.
    PoisonError(String),
    /// The storage could not be reached.
    EstablishConnectionError(String),
    /// A capability of the table group failed.
    EventSourcableError(EventSourcableError),
}

/// What the accumulator did for a command.
#[derive(Debug, PartialEq, Eq)]
pub enum EaOutcome {
    /// The head of the named table group is up to date: to be acknowledged.
    HeadWritten { table_name: String },
    /// The head of the named table group was rebuilt.
    HeadCheckedOut { table_name: String },
    /// The accumulator was asked to stop.
    Quit,
}

/// Applies one event to the head of a table group. An event that the head
/// cannot take is refused with nothing changed.
pub fn apply_to_head<Src: EventSourcable>(
    src: &Src,
    mut_conn: &mut Src::Conn,
    data: &EventData,
    object: Src::Object,
) -> (r: Result<(), EventSourcableError>)
    ensures
        src.state(final(mut_conn)).events == src.state(old(mut_conn)).events,
        src.state(final(mut_conn)).version == src.state(old(mut_conn)).version,
        src.state(final(mut_conn)).base == src.state(old(mut_conn)).base,
        apply_event(src.state(old(mut_conn)).head, *data, object) is None ==> r is Err
            && src.state(final(mut_conn)) == src.state(old(mut_conn)),
        src.reliable() && apply_event(src.state(old(mut_conn)).head, *data, object) is Some
            ==> r is Ok,
        r is Ok ==> Some(src.state(final(mut_conn)).head) == apply_event(
            src.state(old(mut_conn)).head,
            *data,
            object,
        ),
{
    if !data.event_action.mutates() {
        return Ok(());
    }
    let object_id = match data.opt_object_id {
        Some(object_id) => object_id,
        None => {
            return Err(
                EventSourcableError::AssertionFailed(
                    "event mutates an object and names none".to_owned(),
                ),
            );
        },
    };
    match data.event_action {
        EventAction::Insert => src.insert_into_head_table(mut_conn, object_id, object),
        EventAction::Update => src.update_head_table_row(mut_conn, object_id, object),
        _ => src.delete_head_table_row(mut_conn, object_id),
    }
}

/// The items in reverse order.
fn reversed<T>(items: Vec<T>) -> (r: Vec<T>)
    ensures
        r@.len() == items@.len(),
        forall|j: int| 0 <= j < r@.len() ==> r@[j] == items@[items@.len() - 1 - j],
{
    let mut items = items;
    let ghost all = items@;
    let mut out: Vec<T> = Vec::new();
    while items.len() > 0
        invariant
            items@.len() + out@.len() == all.len(),
            items@ == all.take(items@.len() as int),
            forall|j: int| 0 <= j < out@.len() ==> out@[j] == all[all.len() - 1 - j],
        decreases items.len(),
    {
        let item = items.pop().unwrap();
        out.push(item);
    }
    out
}

/// Applies events to the head of a table group in their order, up to and
/// including the event `upto` if one is given, and returns the id of the last
/// event applied.
fn replay_events<Src: EventSourcable>(
    src: &Src,
    mut_conn: &mut Src::Conn,
    events: Vec<(EventData, Src::Object)>,
    upto: Option<i32>,
) -> (r: Result<Option<i32>, EventSourcableError>)
    ensures
        src.state(final(mut_conn)).events == src.state(old(mut_conn)).events,
        src.state(final(mut_conn)).version == src.state(old(mut_conn)).version,
        src.state(final(mut_conn)).base == src.state(old(mut_conn)).base,
        src.reliable() && replay(
            src.state(old(mut_conn)).head,
            events@.filter(is_upto(upto)),
        ) is Some ==> r is Ok,
        r matches Ok(last) ==> {
            &&& Some(src.state(final(mut_conn)).head) == replay(
                src.state(old(mut_conn)).head,
                events@.filter(is_upto(upto)),
            )
            &&& last == last_id_or(None, events@.filter(is_upto(upto)))
        },
{
    let ghost all = events@;
    let ghost pred = is_upto::<Src::Object>(upto);
    let ghost before = src.state(mut_conn);
    let mut stack = reversed(events);
    let mut last: Option<i32> = None;
    let ghost mut done: int = 0;
    proof {
        reveal(Seq::filter);
        assert(all.take(0).filter(pred) =~= Seq::<(EventData, Src::Object)>::empty());
    }
    while stack.len() > 0
        invariant
            0 <= done <= all.len(),
            pred == is_upto::<Src::Object>(upto),
            before == src.state(old(mut_conn)),
            all == events@,
            stack@.len() == all.len() - done,
            forall|j: int| 0 <= j < stack@.len() ==> stack@[j] == all[all.len() - 1 - j],
            src.state(mut_conn).events == before.events,
            src.state(mut_conn).version == before.version,
            src.state(mut_conn).base == before.base,
            Some(src.state(mut_conn).head) == replay(before.head, all.take(done).filter(pred)),
            last == last_id_or(None, all.take(done).filter(pred)),
        decreases stack.len(),
    {
        let (data, object) = stack.pop().unwrap();
        proof {
            assert(all.take(done + 1) == all.take(done).push(all[done]));
            lemma_filter_push(all.take(done), all[done], pred);
            assert(all.take(done).filter(pred).push(all[done]).drop_last() == all.take(
                done,
            ).filter(pred));
        }
        let wanted = match upto {
            Some(id) => data.id <= id,
            None => true,
        };
        if wanted {
            let id = data.id;
            match apply_to_head(src, mut_conn, &data, object) {
                Ok(()) => {},
                Err(e) => {
                    proof {
                        if src.reliable() {
                            let part = all.take(done + 1).filter(pred);
                            assert(replay(before.head, part) is None);
                            lemma_filter_take(all, pred, done + 1);
                            lemma_replay_fails_early(
                                before.head,
                                all.filter(pred),
                                part.len() as int,
                            );
                        }
                    }
                    return Err(e);
                },
            }
            last = Some(id);
        }
        proof {
            done = done + 1;
        }
    }
    proof {
        assert(all.take(all.len() as int) == all);
    }
    Ok(last)
}

/// Write: brings the head of a table group up to date. Reads the checkpoint,
/// reads the events after it, applies them in their order, and moves the
/// checkpoint to the last one applied. With no event after the checkpoint
/// nothing is written.
pub fn db_write<Src: EventSourcable>(src: &Src, mut_conn: &mut Src::Conn) -> (r: Result<
    (),
    EventSourcableError,
>)
    ensures
        src.state(final(mut_conn)).events == src.state(old(mut_conn)).events,
        src.state(final(mut_conn)).base == src.state(old(mut_conn)).base,
        r is Ok ==> Some(src.state(final(mut_conn))) == written(src.state(old(mut_conn))),
        src.reliable() && written(src.state(old(mut_conn))) is Some ==> r is Ok,
{
    let ghost before = src.state(mut_conn);
    let version = match src.read_event_table_version(mut_conn) {
        Ok(version) => version,
        Err(e) => {
            return Err(e);
        },
    };
    let events = match src.read_event_table(mut_conn, version) {
        Ok(events) => events,
        Err(e) => {
            return Err(e);
        },
    };
    proof {
        let pending = events@;
        let all = is_upto::<Src::Object>(None);
        assert(pending.filter(all) == pending) by {
            lemma_filter_all(pending, all);
        }
    }
    let last = match replay_events(src, mut_conn, events, None) {
        Ok(last) => last,
        Err(e) => {
            return Err(e);
        },
    };
    match last {
        Some(id) => {
            match src.write_event_table_version(mut_conn, Some(id)) {
                Ok(()) => {},
                Err(e) => {
                    return Err(e);
                },
            }
        },
        None => {},
    }
    Ok(())
}

/// Checkout: rebuilds the head of a table group as of the event
/// `opt_event_id`, or of the last event on `None`. Clears the head, replays
/// the events from the first up to the target, and sets the checkpoint.
pub fn db_checkout<Src: EventSourcable>(
    src: &Src,
    mut_conn: &mut Src::Conn,
    opt_event_id: Option<i32>,
) -> (r: Result<(), EventSourcableError>)
    ensures
        src.state(final(mut_conn)).events == src.state(old(mut_conn)).events,
        src.state(final(mut_conn)).base == src.state(old(mut_conn)).base,
        r is Ok ==> Some(src.state(final(mut_conn))) == checked_out(
            src.state(old(mut_conn)),
            opt_event_id,
        ),
        src.reliable() && checked_out(src.state(old(mut_conn)), opt_event_id) is Some ==> r is Ok,
{
    let ghost before = src.state(mut_conn);
    match src.clear_head_table(mut_conn) {
        Ok(()) => {},
        Err(e) => {
            return Err(e);
        },
    }
    let events = match src.read_event_table(mut_conn, None) {
        Ok(events) => events,
        Err(e) => {
            return Err(e);
        },
    };
    proof {
        lemma_filter_all(before.events, is_after::<Src::Object>(None));
    }
    let last = match replay_events(src, mut_conn, events, opt_event_id) {
        Ok(last) => last,
        Err(e) => {
            return Err(e);
        },
    };
    let version = match opt_event_id {
        Some(id) => Some(id),
        None => last,
    };
    match src.write_event_table_version(mut_conn, version) {
        Ok(()) => {},
        Err(e) => {
            return Err(e);
        },
    }
    Ok(())
}

/// Reset: puts a table group back to where it was before its first write.
/// Clears the head and takes the checkpoint away. The events stay; a write
/// after the reset applies them all again.
pub fn db_reset<Src: EventSourcable>(src: &Src, mut_conn: &mut Src::Conn) -> (r: Result<
    (),
    EventSourcableError,
>)
    ensures
        src.state(final(mut_conn)).events == src.state(old(mut_conn)).events,
        src.state(final(mut_conn)).base == src.state(old(mut_conn)).base,
        src.reliable() ==> r is Ok,
        r is Ok ==> src.state(final(mut_conn)) == reset(src.state(old(mut_conn))),
{
    match src.clear_head_table(mut_conn) {
        Ok(()) => {},
        Err(e) => {
            return Err(e);
        },
    }
    src.write_event_table_version(mut_conn, None)
}

/// The position of the table group called `table_name` among `names`.
pub open spec fn table_position(names: Seq<String>, table_name: Seq<char>) -> Option<int>
    decreases names.len(),
{
    if names.len() == 0 {
        None
    } else {
        match table_position(names.drop_last(), table_name) {
            Some(i) => Some(i),
            None => if names.last()@ == table_name {
                Some(names.len() - 1)
            } else {
                None
            },
        }
    }
}

/// Finds the table group called `table_name` among the registered names: the
/// first of that name.
pub fn find_table(names: &Vec<String>, table_name: &String) -> (r: Result<
    usize,
    SpawnEaBgWorkerThreadError,
>)
    ensures
        match table_position(names@, table_name@) {
            Some(i) => r == Ok::<usize, SpawnEaBgWorkerThreadError>(i as usize),
            None => r matches Err(SpawnEaBgWorkerThreadError::TableNameNotInLockMap(name))
                && name@ == table_name@,
        },
{
    let mut i: usize = 0;
    while i < names.len()
        invariant
            i <= names.len(),
            table_position(names@.take(i as int), table_name@) is None,
        decreases names.len() - i,
    {
        proof {
            assert(names@.take(i + 1).drop_last() == names@.take(i as int));
            assert(names@.take(i + 1).last() == names@[i as int]);
        }
        if names[i] == *table_name {
            proof {
                lemma_table_position_prefix(names@, table_name@, i + 1);
            }
            return Ok(i);
        }
        i = i + 1;
    }
    proof {
        assert(names@.take(names@.len() as int) == names@);
    }
    Err(SpawnEaBgWorkerThreadError::TableNameNotInLockMap(table_name.clone()))
}

/// A position found in a prefix of the names is the position in all of them.
proof fn lemma_table_position_prefix(names: Seq<String>, table_name: Seq<char>, n: int)
    requires
        0 <= n <= names.len(),
        table_position(names.take(n), table_name) is Some,
    ensures
        table_position(names, table_name) == table_position(names.take(n), table_name),
    decreases names.len(),
{
    if n == names.len() {
        assert(names.take(n) == names);
    } else {
        assert(names.drop_last().take(n) == names.take(n));
        lemma_table_position_prefix(names.drop_last(), table_name, n);
    }
}

/// Serves one command on the table group `src`, which is the one that the
/// command names. A write is answered by the name of the table group, so that
/// the requester can tell whose head is up to date.
pub fn serve_ea_message<Src: EventSourcable>(
    src: &Src,
    mut_conn: &mut Src::Conn,
    message: EaThreadMessage,
) -> (r: Result<EaOutcome, SpawnEaBgWorkerThreadError>)
    ensures
        src.state(final(mut_conn)).events == src.state(old(mut_conn)).events,
        src.state(final(mut_conn)).base == src.state(old(mut_conn)).base,
        message is Quit ==> r == Ok::<EaOutcome, SpawnEaBgWorkerThreadError>(EaOutcome::Quit)
            && src.state(final(mut_conn)) == src.state(old(mut_conn)),
        r matches Err(e) ==> e is EventSourcableError,
        src.reliable() ==> (r is Ok <==> match message {
            EaThreadMessage::DbWrite { .. } => written(src.state(old(mut_conn))) is Some,
            EaThreadMessage::DbCheckout { opt_event_id, .. } => checked_out(
                src.state(old(mut_conn)),
                opt_event_id,
            ) is Some,
            EaThreadMessage::Quit => true,
        }),
        r is Ok ==> (match message {
            EaThreadMessage::DbWrite { table_name } => {
                &&& r->Ok_0 == EaOutcome::HeadWritten { table_name }
                &&& Some(src.state(final(mut_conn))) == written(src.state(old(mut_conn)))
            },
            EaThreadMessage::DbCheckout { table_name, opt_event_id } => {
                &&& r->Ok_0 == EaOutcome::HeadCheckedOut { table_name }
                &&& Some(src.state(final(mut_conn))) == checked_out(
                    src.state(old(mut_conn)),
                    opt_event_id,
                )
            },
            EaThreadMessage::Quit => true,
        }),
{
    match message {
        EaThreadMessage::DbWrite { table_name } => match db_write(src, mut_conn) {
            Ok(()) => Ok(EaOutcome::HeadWritten { table_name }),
            Err(e) => Err(SpawnEaBgWorkerThreadError::EventSourcableError(e)),
        },
        EaThreadMessage::DbCheckout { table_name, opt_event_id } => match db_checkout(
            src,
            mut_conn,
            opt_event_id,
        ) {
            Ok(()) => Ok(EaOutcome::HeadCheckedOut { table_name }),
            Err(e) => Err(SpawnEaBgWorkerThreadError::EventSourcableError(e)),
        },
        EaThreadMessage::Quit => Ok(EaOutcome::Quit),
    }
}

} // verus!
