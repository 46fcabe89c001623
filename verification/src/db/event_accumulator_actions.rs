//! The credit store: a table group held in memory, and the insert that waits
//! until the head reflects it.

use std::collections::HashMap;
use vstd::prelude::*;

use chrono::offset::Local;

use crate::db::event_accumulator::{
    applicable, is_after, serve_ea_message, written, ClearHeadTable, DeleteHeadTableRow,
    EaOutcome, EaThreadMessage, EventData, EventSourcable, EventSourcableError, HasEventObject,
    HasTableGroupState, InsertIntoHeadTable, ReadEventTable, ReadEventTableVersion,
    SourceHeadTable, SpawnEaBgWorkerThreadError, TableGroupState, UpdateHeadTableRow,
    WriteEventTableVersion,
};
use crate::schema::EventAction;
use crate::sequences::lemma_filter_push;
use crate::storage::StorageError;

verus! {

broadcast use vstd::std_specs::hash::group_hash_axioms;

/// The head tables that the accumulator keeps.
#[derive(Debug, Clone, Copy, PartialEq, Eq, Structural)]
pub enum HeadTable {
    CreditStore,
}

/// An answer of the accumulator that breaks what the requester relies on.
#[derive(Debug, PartialEq, Eq)]
pub enum DbActionAssertionError {
    /// The accumulator acknowledged another table than the one asked for.
    InvalidTableServiced { expected: String, actual: String },
    /// An event mutates an object and names none.
    MutationWithoutObject,
}

/// Why an action on the credit store failed.
#[derive(Debug, PartialEq, Eq)]
pub enum DbActionError {
    /// The store could not take the row.
    StorageFailure(StorageError),
    /// The accumulator had gone before the command reached it.
    SendError(String),
    /// The accumulator had gone before it answered.
    RecvError,
    /// The accumulator could not do the work.
    EaWorkError(SpawnEaBgWorkerThreadError),
    /// The accumulator's answer broke an invariant.
    AssertionFailed(DbActionAssertionError),
    /// The bytes of the name add up to more than an object id can hold.
    ObjectIdOutOfRange,
}

/// An object of the credit store: a person and their credits.
#[derive(Debug, PartialEq, Eq)]
pub struct CreditStoreObject {
    pub person: String,
    pub credits: i32,
}

/// A row of the base table of the credit store.
#[derive(Debug, PartialEq, Eq)]
pub struct CreditStoreRec {
    pub id: i32,
    pub person: String,
    pub credits: i32,
}

/// An event of the credit store that has not been given an id yet.
#[derive(Debug)]
pub struct NewCreditStoreEvent<'a> {
    pub person: String,
    pub credits: i32,
    pub event_action: EventAction,
    pub opt_object_id: Option<i32>,
    pub opt_event_id: Option<i32>,
    pub opt_event_arg: Option<i32>,
    pub event_stack_level: i32,
    pub created_on: &'a str,
}

/// A row of the event table of the credit store.
#[derive(Debug, PartialEq, Eq)]
pub struct CreditStoreEvent {
    pub id: i32,
    pub person: String,
    pub credits: i32,
    pub event_action: EventAction,
    pub opt_object_id: Option<i32>,
    pub opt_event_id: Option<i32>,
    pub opt_event_arg: Option<i32>,
    pub event_stack_level: i32,
    pub created_on: String,
}

impl Clone for CreditStoreObject {
    fn clone(&self) -> (r: Self)
        ensures
            r == *self,
    {
        CreditStoreObject { person: self.person.clone(), credits: self.credits }
    }
}

impl Clone for CreditStoreEvent {
    fn clone(&self) -> (r: Self)
        ensures
            r == *self,
    {
        CreditStoreEvent {
            id: self.id,
            person: self.person.clone(),
            credits: self.credits,
            event_action: self.event_action,
            opt_object_id: self.opt_object_id,
            opt_event_id: self.opt_event_id,
            opt_event_arg: self.opt_event_arg,
            event_stack_level: self.event_stack_level,
            created_on: self.created_on.clone(),
        }
    }
}

/// The data of an event of the credit store.
pub open spec fn event_data(event: CreditStoreEvent) -> EventData {
    EventData {
        id: event.id,
        opt_object_id: event.opt_object_id,
        opt_event_id: event.opt_event_id,
        opt_event_arg: event.opt_event_arg,
        event_stack_level: event.event_stack_level,
        event_action: event.event_action,
        created_on: event.created_on,
    }
}

/// The object of an event of the credit store.
pub open spec fn event_object(event: CreditStoreEvent) -> CreditStoreObject {
    CreditStoreObject { person: event.person, credits: event.credits }
}

/// The events of the credit store, each split into its data and its object.
pub open spec fn decomposed(events: Seq<CreditStoreEvent>) -> Seq<(EventData, CreditStoreObject)> {
    Seq::new(events.len(), |i: int| (event_data(events[i]), event_object(events[i])))
}

/// Sound tables are a sound table group.
pub proof fn lemma_table_group_wf(db: CreditStoreDbView)
    requires
        db.wf(),
    ensures
        db.table_group().wf(),
{
    let events = db.table_group().events;
    assert forall|i: int, j: int| 0 <= i < j < events.len() implies (#[trigger] events[i]).0.id < (
    #[trigger] events[j]).0.id by {
        assert(db.events[i].id < db.events[j].id);
    }
}

/// Event tables that split into the same data and objects are the same.
pub proof fn lemma_decomposed_injective(a: Seq<CreditStoreEvent>, b: Seq<CreditStoreEvent>)
    requires
        decomposed(a) == decomposed(b),
    ensures
        a == b,
{
    assert(a.len() == decomposed(a).len());
    assert(b.len() == decomposed(b).len());
    assert forall|i: int| 0 <= i < a.len() implies a[i] == b[i] by {
        assert(decomposed(a)[i] == decomposed(b)[i]);
    }
    assert(a =~= b);
}

/// The sum of the bytes of a name.
pub open spec fn byte_sum(bytes: Seq<u8>) -> int
    decreases bytes.len(),
{
    if bytes.len() == 0 {
        0
    } else {
        byte_sum(bytes.drop_last()) + bytes.last() as int
    }
}

/// The four tables of the credit store, held in memory.
pub struct CreditStoreDb {
    events: Vec<CreditStoreEvent>,
    head: HashMap<i32, CreditStoreObject>,
    base: HashMap<i32, CreditStoreObject>,
    version: Option<i32>,
}

/// What the tables of the credit store hold.
pub struct CreditStoreDbView {
    pub events: Seq<CreditStoreEvent>,
    pub head: Map<i32, CreditStoreObject>,
    pub base: Map<i32, CreditStoreObject>,
    pub version: Option<i32>,
}

impl CreditStoreDbView {
    /// The tables are sound when the event ids are positive and grow along
    /// the event table, and every event that mutates an object names it.
    pub open spec fn wf(self) -> bool {
        &&& forall|i: int| 0 <= i < self.events.len() ==> (#[trigger] self.events[i]).id >= 1
        &&& forall|i: int, j: int|
            0 <= i < j < self.events.len() ==> (#[trigger] self.events[i]).id < (
            #[trigger] self.events[j]).id
        &&& forall|i: int|
            0 <= i < self.events.len() ==> applicable(event_data(#[trigger] self.events[i]))
    }

    /// The id of the last event; 0 when there is none.
    pub open spec fn last_event_id(self) -> int {
        if self.events.len() == 0 {
            0
        } else {
            self.events.last().id as int
        }
    }

    /// The tables as a table group.
    pub open spec fn table_group(self) -> TableGroupState<CreditStoreObject> {
        TableGroupState {
            version: self.version,
            events: decomposed(self.events),
            head: self.head,
            base: self.base,
        }
    }
}

impl View for CreditStoreDb {
    type V = CreditStoreDbView;

    closed spec fn view(&self) -> CreditStoreDbView {
        CreditStoreDbView {
            events: self.events@,
            head: self.head@,
            base: self.base@,
            version: self.version,
        }
    }
}

/// The local time as text, from `chrono::offset::Local::now` and its `Debug`
/// form. Nothing is claimed of the text. `Local::now` panics where the system
/// clock reads a time before 1970, and where the time zone data of the
/// machine give no offset for the time that the clock reads.
#[verifier::external_body]
fn local_now_text() -> String {
    format!("{:?}", Local::now())
}

impl HeadTable {
    /// The name of the head table.
    pub open spec fn name(self) -> Seq<char> {
        "credit_store_head"@
    }

    /// The name of the head table, as an owned string.
    pub fn to_string(&self) -> (r: String)
        ensures
            r@ == self.name(),
    {
        match self {
            HeadTable::CreditStore => "credit_store_head".to_owned(),
        }
    }
}

impl CreditStoreDb {
    /// Empty tables, never synchronized.
    pub fn new() -> (db: Self)
        ensures
            db@.wf(),
            db@.events == Seq::<CreditStoreEvent>::empty(),
            db@.head == Map::<i32, CreditStoreObject>::empty(),
            db@.base == Map::<i32, CreditStoreObject>::empty(),
            db@.version is None,
    {
        CreditStoreDb {
            events: Vec::new(),
            head: HashMap::new(),
            base: HashMap::new(),
            version: None,
        }
    }

    /// Tables with the given events and checkpoint and with an empty head and
    /// base, if the events are sound; `None` if they are not.
    pub fn load(events: Vec<CreditStoreEvent>, version: Option<i32>) -> (r: Option<CreditStoreDb>)
        ensures
            r is Some <==> (CreditStoreDbView {
                events: events@,
                head: Map::empty(),
                base: Map::empty(),
                version,
            }).wf(),
            r matches Some(db) ==> db@ == (CreditStoreDbView {
                events: events@,
                head: Map::empty(),
                base: Map::empty(),
                version,
            }),
    {
        let mut prev: i32 = 0;
        let mut i: usize = 0;
        while i < events.len()
            invariant
                i <= events.len(),
                forall|k: int| 0 <= k < i ==> (#[trigger] events@[k]).id >= 1,
                forall|a: int, b: int|
                    0 <= a < b < i ==> (#[trigger] events@[a]).id < (#[trigger] events@[b]).id,
                forall|k: int| 0 <= k < i ==> applicable(event_data(#[trigger] events@[k])),
                i == 0 ==> prev == 0,
                i > 0 ==> prev == events@[i - 1].id,
            decreases events.len() - i,
        {
            let event = &events[i];
            if event.id <= prev {
                proof {
                    if i > 0 {
                        assert(!(events@[i - 1].id < events@[i as int].id));
                    }
                }
                return None;
            }
            if event.event_action.mutates() && event.opt_object_id.is_none() {
                assert(!applicable(event_data(events@[i as int])));
                return None;
            }
            prev = event.id;
            i = i + 1;
        }
        Some(CreditStoreDb { events, head: HashMap::new(), base: HashMap::new(), version })
    }

    /// The checkpoint.
    pub fn version(&self) -> (r: Option<i32>)
        ensures
            r == self@.version,
    {
        self.version
    }

    /// The head row of an object.
    pub fn head_row(&self, object_id: i32) -> (r: Option<CreditStoreObject>)
        ensures
            r == if self@.head.contains_key(object_id) {
                Some(self@.head[object_id])
            } else {
                None
            },
    {
        match self.head.get(&object_id) {
            Some(object) => Some(object.clone()),
            None => None,
        }
    }

    /// The number of head rows.
    pub fn head_len(&self) -> (r: usize)
        ensures
            r == self@.head.len(),
    {
        self.head.len()
    }

    /// The number of events.
    pub fn events_len(&self) -> (r: usize)
        ensures
            r == self@.events.len(),
    {
        self.events.len()
    }

    /// The events, oldest first.
    pub fn events(&self) -> (r: Vec<CreditStoreEvent>)
        ensures
            r@ == self@.events,
    {
        let mut out: Vec<CreditStoreEvent> = Vec::new();
        let mut i: usize = 0;
        while i < self.events.len()
            invariant
                i <= self.events.len(),
                out@ == self.events@.take(i as int),
            decreases self.events.len() - i,
        {
            out.push(self.events[i].clone());
            proof {
                assert(self.events@.take(i + 1) == self.events@.take(i as int).push(
                    self.events@[i as int],
                ));
            }
            i = i + 1;
        }
        proof {
            assert(self.events@.take(self.events@.len() as int) == self.events@);
        }
        out
    }

    /// Puts a row into the base table, in place of the row of that id if
    /// there is one.
    pub fn insert_base_row(&mut self, row: CreditStoreRec)
        ensures
            final(self)@.base == old(self)@.base.insert(
                row.id,
                CreditStoreObject { person: row.person, credits: row.credits },
            ),
            final(self)@.events == old(self)@.events,
            final(self)@.head == old(self)@.head,
            final(self)@.version == old(self)@.version,
    {
        self.base.insert(row.id, CreditStoreObject { person: row.person, credits: row.credits });
    }

    /// Appends an event under the next id, unless the ids have run out or the
    /// event mutates an object without naming it.
    pub fn insert_event(&mut self, new_event: NewCreditStoreEvent) -> (r: Result<
        CreditStoreEvent,
        DbActionError,
    >)
        requires
            old(self)@.wf(),
        ensures
            final(self)@.wf(),
            final(self)@.head == old(self)@.head,
            final(self)@.base == old(self)@.base,
            final(self)@.version == old(self)@.version,
            r is Err ==> final(self)@.events == old(self)@.events,
            r is Ok <==> old(self)@.last_event_id() < i32::MAX && (
            new_event.event_action.is_mutation() ==> new_event.opt_object_id is Some),
            r matches Ok(event) ==> {
                &&& final(self)@.events == old(self)@.events.push(event)
                &&& event.id == old(self)@.last_event_id() + 1
                &&& event.person == new_event.person
                &&& event.credits == new_event.credits
                &&& event.event_action == new_event.event_action
                &&& event.opt_object_id == new_event.opt_object_id
                &&& event.opt_event_id == new_event.opt_event_id
                &&& event.opt_event_arg == new_event.opt_event_arg
                &&& event.event_stack_level == new_event.event_stack_level
                &&& event.created_on@ == new_event.created_on@
            },
            r matches Err(e) ==> e == (if old(self)@.last_event_id() == i32::MAX {
                DbActionError::StorageFailure(StorageError::IdsExhausted)
            } else {
                DbActionError::AssertionFailed(DbActionAssertionError::MutationWithoutObject)
            }),
    {
        let n = self.events.len();
        let last: i32 = if n == 0 {
            0
        } else {
            self.events[n - 1].id
        };
        if last == i32::MAX {
            return Err(DbActionError::StorageFailure(StorageError::IdsExhausted));
        }
        if new_event.event_action.mutates() && new_event.opt_object_id.is_none() {
            return Err(
                DbActionError::AssertionFailed(DbActionAssertionError::MutationWithoutObject),
            );
        }
        let event = CreditStoreEvent {
            id: last + 1,
            person: new_event.person,
            credits: new_event.credits,
            event_action: new_event.event_action,
            opt_object_id: new_event.opt_object_id,
            opt_event_id: new_event.opt_event_id,
            opt_event_arg: new_event.opt_event_arg,
            event_stack_level: new_event.event_stack_level,
            created_on: new_event.created_on.to_owned(),
        };
        let out = event.clone();
        self.events.push(event);
        Ok(out)
    }
}

/// The table group of the credit store.
pub struct CreditStoreEventSourcable {}

impl HasEventObject for CreditStoreEventSourcable {
    type Object = CreditStoreObject;
}

impl HasTableGroupState for CreditStoreEventSourcable {
    type Conn = CreditStoreDb;

    open spec fn state(&self, conn: &CreditStoreDb) -> TableGroupState<CreditStoreObject> {
        conn@.table_group()
    }

    open spec fn reliable(&self) -> bool {
        true
    }
}

impl ReadEventTableVersion for CreditStoreEventSourcable {
    fn read_event_table_version(&self, mut_conn: &mut CreditStoreDb) -> (r: Result<
        Option<i32>,
        EventSourcableError,
    >)
        ensures
            final(mut_conn)@ == old(mut_conn)@,
    {
        Ok(mut_conn.version)
    }
}

impl WriteEventTableVersion for CreditStoreEventSourcable {
    fn write_event_table_version(
        &self,
        mut_conn: &mut CreditStoreDb,
        opt_event_id: Option<i32>,
    ) -> (r: Result<(), EventSourcableError>)
        ensures
            final(mut_conn)@.events == old(mut_conn)@.events,
            final(mut_conn)@.base == old(mut_conn)@.base,
    {
        mut_conn.version = opt_event_id;
        Ok(())
    }
}

impl ReadEventTable for CreditStoreEventSourcable {
    fn read_event_table(&self, mut_conn: &mut CreditStoreDb, opt_from_event_id: Option<i32>) -> (r:
        Result<Vec<(EventData, CreditStoreObject)>, EventSourcableError>)
        ensures
            final(mut_conn)@ == old(mut_conn)@,
    {
        let mut out: Vec<(EventData, CreditStoreObject)> = Vec::new();
        let mut i: usize = 0;
        let ghost all = decomposed(mut_conn.events@);
        let ghost pred = is_after::<CreditStoreObject>(opt_from_event_id);
        proof {
            reveal(Seq::filter);
        }
        while i < mut_conn.events.len()
            invariant
                i <= mut_conn.events.len(),
                all == decomposed(mut_conn.events@),
                pred == is_after::<CreditStoreObject>(opt_from_event_id),
                out@ == all.take(i as int).filter(pred),
            decreases mut_conn.events.len() - i,
        {
            proof {
                assert(all.take(i + 1) == all.take(i as int).push(all[i as int]));
                lemma_filter_push(
                    all.take(i as int),
                    all[i as int],
                    pred,
                );
            }
            let entry = &mut_conn.events[i];
            let wanted = match opt_from_event_id {
                Some(from_event_id) => entry.id > from_event_id,
                None => true,
            };
            if wanted {
                out.push(
                    (
                        EventData {
                            id: entry.id,
                            opt_object_id: entry.opt_object_id,
                            opt_event_id: entry.opt_event_id,
                            opt_event_arg: entry.opt_event_arg,
                            event_stack_level: entry.event_stack_level,
                            event_action: entry.event_action,
                            created_on: entry.created_on.clone(),
                        },
                        CreditStoreObject { person: entry.person.clone(), credits: entry.credits },
                    ),
                );
            }
            i = i + 1;
        }
        proof {
            assert(all.take(all.len() as int) == all);
        }
        Ok(out)
    }
}

impl InsertIntoHeadTable for CreditStoreEventSourcable {
    fn insert_into_head_table(
        &self,
        mut_conn: &mut CreditStoreDb,
        object_id: i32,
        object: CreditStoreObject,
    ) -> (r: Result<(), EventSourcableError>)
        ensures
            final(mut_conn)@.events == old(mut_conn)@.events,
            final(mut_conn)@.base == old(mut_conn)@.base,
            r is Ok <==> !old(mut_conn)@.head.contains_key(object_id),
            r is Err ==> final(mut_conn)@ == old(mut_conn)@,
    {
        if mut_conn.head.contains_key(&object_id) {
            Err(EventSourcableError::StorageFailure("the object has a head row already".to_owned()))
        } else {
            mut_conn.head.insert(object_id, object);
            Ok(())
        }
    }
}

impl UpdateHeadTableRow for CreditStoreEventSourcable {
    fn update_head_table_row(
        &self,
        mut_conn: &mut CreditStoreDb,
        object_id: i32,
        object: CreditStoreObject,
    ) -> (r: Result<(), EventSourcableError>)
        ensures
            final(mut_conn)@.events == old(mut_conn)@.events,
            final(mut_conn)@.base == old(mut_conn)@.base,
            r is Ok <==> old(mut_conn)@.head.contains_key(object_id),
            r is Err ==> final(mut_conn)@ == old(mut_conn)@,
    {
        if mut_conn.head.contains_key(&object_id) {
            mut_conn.head.insert(object_id, object);
            Ok(())
        } else {
            Err(EventSourcableError::StorageFailure("the object has no head row".to_owned()))
        }
    }
}

impl DeleteHeadTableRow for CreditStoreEventSourcable {
    fn delete_head_table_row(&self, mut_conn: &mut CreditStoreDb, object_id: i32) -> (r: Result<
        (),
        EventSourcableError,
    >)
        ensures
            final(mut_conn)@.events == old(mut_conn)@.events,
            final(mut_conn)@.base == old(mut_conn)@.base,
    {
        mut_conn.head.remove(&object_id);
        Ok(())
    }
}

impl ClearHeadTable for CreditStoreEventSourcable {
    fn clear_head_table(&self, mut_conn: &mut CreditStoreDb) -> (r: Result<
        (),
        EventSourcableError,
    >)
        ensures
            final(mut_conn)@.events == old(mut_conn)@.events,
            final(mut_conn)@.base == old(mut_conn)@.base,
    {
        mut_conn.head.clear();
        Ok(())
    }
}

impl SourceHeadTable for CreditStoreEventSourcable {
    fn source_head_table_row(&self, mut_conn: &mut CreditStoreDb) -> (r: Result<
        (),
        EventSourcableError,
    >)
        ensures
            final(mut_conn)@.events == old(mut_conn)@.events,
            final(mut_conn)@.base == old(mut_conn)@.base,
    {
        mut_conn.head = mut_conn.base.clone();
        Ok(())
    }
}

impl EventSourcable for CreditStoreEventSourcable {

}

/// The command that asks the accumulator to bring `head_table` up to date.
pub fn send_write_event_for_head(head_table: HeadTable) -> (message: EaThreadMessage)
    ensures
        message matches EaThreadMessage::DbWrite { table_name } && table_name@ == head_table.name(),
{
    let table_name = head_table.to_string();
    EaThreadMessage::DbWrite { table_name }
}

/// Checks that the accumulator acknowledged the table that was asked for.
/// Any other name is refused as an invalid table, with the name that was
/// expected and the name that came.
pub fn check_table_serviced(head_table: HeadTable, table_serviced: String) -> (r: Result<
    (),
    DbActionAssertionError,
>)
    ensures
        r is Ok <==> table_serviced@ == head_table.name(),
        r matches Err(e) ==> (e matches DbActionAssertionError::InvalidTableServiced {
            expected,
            actual,
        } && expected@ == head_table.name() && actual == table_serviced),
{
    let expected = head_table.to_string();
    if table_serviced != expected {
        Err(DbActionAssertionError::InvalidTableServiced { expected, actual: table_serviced })
    } else {
        Ok(())
    }
}

/// Adding a byte never lowers the sum.
pub proof fn lemma_byte_sum_grows(bytes: Seq<u8>, n: int)
    requires
        0 <= n <= bytes.len(),
    ensures
        0 <= byte_sum(bytes.take(n)) <= byte_sum(bytes),
    decreases bytes.len() - n,
{
    if n == 0 {
        assert(bytes.take(0) =~= Seq::<u8>::empty());
        lemma_byte_sum_nonnegative(bytes);
    } else if n == bytes.len() {
        assert(bytes.take(n) == bytes);
        lemma_byte_sum_nonnegative(bytes);
    } else {
        lemma_byte_sum_grows(bytes, n + 1);
        assert(bytes.take(n + 1).drop_last() == bytes.take(n));
        lemma_byte_sum_nonnegative(bytes.take(n));
    }
}

proof fn lemma_byte_sum_nonnegative(bytes: Seq<u8>)
    ensures
        0 <= byte_sum(bytes),
    decreases bytes.len(),
{
    if bytes.len() > 0 {
        lemma_byte_sum_nonnegative(bytes.drop_last());
    }
}

/// The object id of a person in the credit store: the sum of the bytes of the
/// name, if an object id can hold it.
pub fn credit_object_id(person: &str) -> (r: Option<i32>)
    ensures
        r == if byte_sum(vstd::utf8::encode_utf8(person@)) <= i32::MAX {
            Some(byte_sum(vstd::utf8::encode_utf8(person@)) as i32)
        } else {
            None
        },
{
    let bytes = person.as_bytes();
    let mut sum: i32 = 0;
    let mut i: usize = 0;
    while i < bytes.len()
        invariant
            i <= bytes.len(),
            bytes@ == vstd::utf8::encode_utf8(person@),
            sum == byte_sum(bytes@.take(i as int)),
            sum >= 0,
        decreases bytes.len() - i,
    {
        proof {
            assert(bytes@.take(i + 1).drop_last() == bytes@.take(i as int));
            assert(bytes@.take(i + 1).last() == bytes@[i as int]);
        }
        let byte = bytes[i];
        if sum > i32::MAX - byte as i32 {
            proof {
                lemma_byte_sum_grows(bytes@, i + 1);
            }
            return None;
        }
        sum = sum + byte as i32;
        i = i + 1;
    }
    proof {
        assert(bytes@.take(bytes@.len() as int) == bytes@);
    }
    Some(sum)
}

/// What stands in the way of inserting an object, if anything.
pub open spec fn insert_obstacle(db: CreditStoreDbView, person: Seq<u8>) -> Option<DbActionError> {
    if byte_sum(person) > i32::MAX {
        Some(DbActionError::ObjectIdOutOfRange)
    } else if db.last_event_id() == i32::MAX {
        Some(DbActionError::StorageFailure(StorageError::IdsExhausted))
    } else {
        None
    }
}

/// True when `after` is `before` with the insert event for `object` appended
/// under the next id.
pub open spec fn appended_insert(
    before: Seq<CreditStoreEvent>,
    after: Seq<CreditStoreEvent>,
    object: CreditStoreObject,
    event_stack_level: i32,
) -> bool {
    &&& after.len() == before.len() + 1
    &&& after.drop_last() == before
    &&& after.last().id == (if before.len() == 0 {
        0
    } else {
        before.last().id as int
    }) + 1
    &&& after.last().person == object.person
    &&& after.last().credits == object.credits
    &&& after.last().event_action == EventAction::Insert
    &&& after.last().opt_object_id == Some(byte_sum(vstd::utf8::encode_utf8(object.person@)) as i32)
    &&& after.last().opt_event_id is None
    &&& after.last().opt_event_arg is None
    &&& after.last().event_stack_level == event_stack_level
}

/// What the requester of a write makes of the answer. `None` stands for an
/// accumulator that has gone without an answer. An answer that names the head
/// table asked for gives back `entry`; one that names another table is an
/// invalid table; a failure of the accumulator is handed on.
pub fn settle_write_answer<T>(
    head_table: HeadTable,
    entry: T,
    answer: Option<Result<String, SpawnEaBgWorkerThreadError>>,
) -> (r: Result<T, DbActionError>)
    ensures
        match answer {
            None => r == Err::<T, DbActionError>(DbActionError::RecvError),
            Some(Err(e)) => r == Err::<T, DbActionError>(DbActionError::EaWorkError(e)),
            Some(Ok(table_serviced)) => if table_serviced@ == head_table.name() {
                r == Ok::<T, DbActionError>(entry)
            } else {
                r matches Err(
                    DbActionError::AssertionFailed(
                        DbActionAssertionError::InvalidTableServiced { expected, actual },
                    ),
                ) && expected@ == head_table.name() && actual == table_serviced
            },
        },
{
    match answer {
        None => Err(DbActionError::RecvError),
        Some(Err(e)) => Err(DbActionError::EaWorkError(e)),
        Some(Ok(table_serviced)) => match check_table_serviced(head_table, table_serviced) {
            Ok(()) => Ok(entry),
            Err(e) => Err(DbActionError::AssertionFailed(e)),
        },
    }
}

/// Records the creation of `object` and returns once the head reflects it:
/// appends an insert event for the object, under the object id that the name
/// gives, has the head written, and checks that the answer names the head of
/// the credit store.
///
/// Fails with nothing changed when the name gives no object id or the event
/// ids have run out. Otherwise the event is appended, and the insert succeeds
/// exactly when the head can take every event after the checkpoint, the new
/// one included: it cannot where the object has a head row already.
pub fn credit_store_event_blocking_insert(
    mut_conn: &mut CreditStoreDb,
    object: &CreditStoreObject,
    event_stack_level: i32,
) -> (r: Result<CreditStoreEvent, DbActionError>)
    requires
        old(mut_conn)@.wf(),
    ensures
        final(mut_conn)@.wf(),
        final(mut_conn)@.base == old(mut_conn)@.base,
        match insert_obstacle(old(mut_conn)@, vstd::utf8::encode_utf8(object.person@)) {
            Some(e) => r == Err::<CreditStoreEvent, DbActionError>(e) && final(mut_conn)@ == old(
                mut_conn,
            )@,
            None => {
                &&& appended_insert(
                    old(mut_conn)@.events,
                    final(mut_conn)@.events,
                    *object,
                    event_stack_level,
                )
                &&& r is Ok <==> written(
                    (CreditStoreDbView {
                        events: final(mut_conn)@.events,
                        ..old(mut_conn)@
                    }).table_group(),
                ) is Some
                &&& r matches Err(e) ==> e matches DbActionError::EaWorkError(
                    SpawnEaBgWorkerThreadError::EventSourcableError(_),
                )
            },
        },
        r matches Ok(entry) ==> {
            &&& entry == final(mut_conn)@.events.last()
            &&& Some(final(mut_conn)@.table_group()) == written(
                (CreditStoreDbView {
                    events: final(mut_conn)@.events,
                    ..old(mut_conn)@
                }).table_group(),
            )
        },
{
    let new_object_id = match credit_object_id(object.person.as_str()) {
        Some(id) => id,
        None => {
            return Err(DbActionError::ObjectIdOutOfRange);
        },
    };
    let created_on = local_now_text();
    let new_event = NewCreditStoreEvent {
        person: object.person.clone(),
        credits: object.credits,
        opt_object_id: Some(new_object_id),
        opt_event_id: None,
        opt_event_arg: None,
        event_stack_level,
        event_action: EventAction::Insert,
        created_on: created_on.as_str(),
    };
    let entry = match mut_conn.insert_event(new_event) {
        Ok(entry) => entry,
        Err(e) => {
            return Err(e);
        },
    };
    let message = send_write_event_for_head(HeadTable::CreditStore);
    let src = CreditStoreEventSourcable {  };
    let ghost appended = mut_conn@;
    let served = serve_ea_message(&src, mut_conn, message);
    proof {
        lemma_decomposed_injective(mut_conn@.events, appended.events);
        assert(appended.events.drop_last() == old(mut_conn)@.events);
    }
    let answer = match served {
        Ok(EaOutcome::HeadWritten { table_name }) => Some(Ok(table_name)),
        Ok(_) => None,
        Err(e) => Some(Err(e)),
    };
    settle_write_answer(HeadTable::CreditStore, entry, answer)
}

} // verus!
