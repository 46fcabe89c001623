use credit_store_demo::storage::StorageError;
use credit_store_demo::db::event_accumulator::{
    apply_to_head, db_checkout, db_reset, db_write, find_table, serve_ea_message, ClearHeadTable,
    DeleteHeadTableRow, EaOutcome, EaThreadMessage, EventData, EventSourcable,
    EventSourcableError, HasEventObject, HasTableGroupState, InsertIntoHeadTable, ReadEventTable,
    ReadEventTableVersion, SourceHeadTable, SpawnEaBgWorkerThreadError, TableGroupState,
    UpdateHeadTableRow, WriteEventTableVersion,
};
use credit_store_demo::db::event_accumulator_actions::{
    check_table_serviced, credit_object_id, credit_store_event_blocking_insert,
    send_write_event_for_head, settle_write_answer, CreditStoreDb, CreditStoreEvent, CreditStoreEventSourcable,
    CreditStoreObject, CreditStoreRec, DbActionAssertionError, DbActionError, HeadTable,
    NewCreditStoreEvent,
};
use credit_store_demo::schema::EventAction;

fn object(person: &str, credits: i32) -> CreditStoreObject {
    CreditStoreObject { person: person.to_string(), credits }
}

fn new_event(person: &str, credits: i32, action: EventAction, object_id: Option<i32>) -> NewCreditStoreEvent<'static> {
    NewCreditStoreEvent {
        person: person.to_string(),
        credits,
        event_action: action,
        opt_object_id: object_id,
        opt_event_id: None,
        opt_event_arg: None,
        event_stack_level: 0,
        created_on: "then",
    }
}

fn stored(id: i32, person: &str, credits: i32, action: EventAction, object_id: Option<i32>) -> CreditStoreEvent {
    CreditStoreEvent {
        id,
        person: person.to_string(),
        credits,
        event_action: action,
        opt_object_id: object_id,
        opt_event_id: None,
        opt_event_arg: None,
        event_stack_level: 0,
        created_on: "then".to_string(),
    }
}

fn data(id: i32, action: EventAction, object_id: Option<i32>) -> EventData {
    EventData {
        id,
        opt_object_id: object_id,
        opt_event_id: None,
        opt_event_arg: None,
        event_stack_level: 0,
        event_action: action,
        created_on: "then".to_string(),
    }
}

/// A table group over plain vectors whose head refuses to insert an object
/// with the id `refused`, besides what every head refuses: an insert of a row
/// that exists and an update of a row that does not.
struct Picky {
    refused: i32,
}

struct PickyConn {
    version: Option<i32>,
    events: Vec<(EventData, i32)>,
    head: Vec<(i32, i32)>,
}

impl HasEventObject for Picky {
    type Object = i32;
}

impl HasTableGroupState for Picky {
    type Conn = PickyConn;

    fn state(&self, _conn: &PickyConn) -> TableGroupState<i32> {
        unreachable!()
    }

    fn reliable(&self) -> bool {
        unreachable!()
    }
}

impl ReadEventTableVersion for Picky {
    fn read_event_table_version(&self, conn: &mut PickyConn) -> Result<Option<i32>, EventSourcableError> {
        Ok(conn.version)
    }
}

impl WriteEventTableVersion for Picky {
    fn write_event_table_version(&self, conn: &mut PickyConn, v: Option<i32>) -> Result<(), EventSourcableError> {
        conn.version = v;
        Ok(())
    }
}

impl ReadEventTable for Picky {
    fn read_event_table(
        &self,
        conn: &mut PickyConn,
        from: Option<i32>,
    ) -> Result<Vec<(EventData, i32)>, EventSourcableError> {
        Ok(conn.events.iter().filter(|e| from.map_or(true, |f| e.0.id > f)).cloned().collect())
    }
}

impl InsertIntoHeadTable for Picky {
    fn insert_into_head_table(&self, conn: &mut PickyConn, id: i32, object: i32) -> Result<(), EventSourcableError> {
        if id == self.refused {
            return Err(EventSourcableError::StorageFailure("refused".to_string()));
        }
        if conn.head.iter().any(|row| row.0 == id) {
            return Err(EventSourcableError::StorageFailure("row exists".to_string()));
        }
        conn.head.push((id, object));
        Ok(())
    }
}

impl UpdateHeadTableRow for Picky {
    fn update_head_table_row(&self, conn: &mut PickyConn, id: i32, object: i32) -> Result<(), EventSourcableError> {
        if !conn.head.iter().any(|row| row.0 == id) {
            return Err(EventSourcableError::StorageFailure("no such row".to_string()));
        }
        conn.head.retain(|row| row.0 != id);
        conn.head.push((id, object));
        Ok(())
    }
}

impl DeleteHeadTableRow for Picky {
    fn delete_head_table_row(&self, conn: &mut PickyConn, id: i32) -> Result<(), EventSourcableError> {
        conn.head.retain(|row| row.0 != id);
        Ok(())
    }
}

impl ClearHeadTable for Picky {
    fn clear_head_table(&self, conn: &mut PickyConn) -> Result<(), EventSourcableError> {
        conn.head.clear();
        Ok(())
    }
}

impl SourceHeadTable for Picky {
    fn source_head_table_row(&self, _conn: &mut PickyConn) -> Result<(), EventSourcableError> {
        Err(EventSourcableError::Error("no base table".to_string()))
    }
}

impl EventSourcable for Picky {}

#[test]
fn head_table_is_named() {
    assert_eq!(HeadTable::CreditStore.to_string(), "credit_store_head");
}

#[test]
fn write_command_names_the_head_table() {
    assert_eq!(
        send_write_event_for_head(HeadTable::CreditStore),
        EaThreadMessage::DbWrite { table_name: "credit_store_head".to_string() }
    );
}

#[test]
fn acknowledgment_must_name_the_head_table() {
    assert_eq!(check_table_serviced(HeadTable::CreditStore, "credit_store_head".to_string()), Ok(()));
    assert_eq!(
        check_table_serviced(HeadTable::CreditStore, "coin_store_head".to_string()),
        Err(DbActionAssertionError::InvalidTableServiced {
            expected: "credit_store_head".to_string(),
            actual: "coin_store_head".to_string(),
        })
    );
    assert!(check_table_serviced(HeadTable::CreditStore, "".to_string()).is_err());
}

#[test]
fn credit_object_id_is_the_sum_of_the_bytes() {
    assert_eq!(credit_object_id(""), Some(0));
    assert_eq!(credit_object_id("a"), Some(97));
    assert_eq!(credit_object_id("alice"), Some(510));
    assert_eq!(credit_object_id("bob"), Some(307));
    assert_eq!(credit_object_id("\u{e9}"), Some(0xc3 + 0xa9));
}

#[test]
fn credit_object_id_of_a_name_that_adds_up_too_high_is_none() {
    let fits = "\u{7f}".repeat(16_909_320);
    assert_eq!(credit_object_id(&fits), Some(2_147_483_640));
    let too_long = "\u{7f}".repeat(16_909_321);
    assert_eq!(credit_object_id(&too_long), None);
}

#[test]
fn blocking_insert_appends_the_event_and_writes_the_head() {
    let mut db = CreditStoreDb::new();
    let entry = credit_store_event_blocking_insert(&mut db, &object("alice", 10), 3).unwrap();
    assert_eq!(entry.id, 1);
    assert_eq!(entry.person, "alice");
    assert_eq!(entry.credits, 10);
    assert_eq!(entry.event_action, EventAction::Insert);
    assert_eq!(entry.opt_object_id, Some(510));
    assert_eq!(entry.opt_event_id, None);
    assert_eq!(entry.opt_event_arg, None);
    assert_eq!(entry.event_stack_level, 3);
    assert!(!entry.created_on.is_empty());
    assert_eq!(db.events(), vec![entry.clone()]);
    assert_eq!(db.head_len(), 1);
    assert_eq!(db.head_row(510), Some(object("alice", 10)));
    assert_eq!(db.version(), Some(1));
}

#[test]
fn blocking_insert_of_a_known_object_appends_the_event_and_fails() {
    let mut db = CreditStoreDb::new();
    let first = credit_store_event_blocking_insert(&mut db, &object("alice", 10), 0).unwrap();
    let second = credit_store_event_blocking_insert(&mut db, &object("alice", 99), 0);
    assert!(matches!(
        second,
        Err(DbActionError::EaWorkError(SpawnEaBgWorkerThreadError::EventSourcableError(
            EventSourcableError::StorageFailure(_)
        )))
    ));
    let events = db.events();
    assert_eq!(events.len(), 2);
    assert_eq!(events[0], first);
    assert_eq!(events[1].id, 2);
    assert_eq!(events[1].credits, 99);
    assert_eq!(events[1].event_action, EventAction::Insert);
    assert_eq!(db.head_len(), 1);
    assert_eq!(db.head_row(510), Some(object("alice", 10)));
    assert_eq!(db.version(), Some(1));
}

#[test]
fn blocking_insert_of_another_object_succeeds_after_a_first() {
    let mut db = CreditStoreDb::new();
    credit_store_event_blocking_insert(&mut db, &object("alice", 10), 0).unwrap();
    let entry = credit_store_event_blocking_insert(&mut db, &object("bob", 20), 1).unwrap();
    assert_eq!(entry.id, 2);
    assert_eq!(entry.opt_object_id, Some(307));
    assert_eq!(db.head_len(), 2);
    assert_eq!(db.head_row(307), Some(object("bob", 20)));
    assert_eq!(db.version(), Some(2));
}

#[test]
fn answer_that_names_the_table_gives_the_entry() {
    assert_eq!(
        settle_write_answer(HeadTable::CreditStore, 41, Some(Ok("credit_store_head".to_string()))),
        Ok(41)
    );
}

#[test]
fn answer_that_names_another_table_is_an_invalid_table() {
    assert_eq!(
        settle_write_answer(HeadTable::CreditStore, 41, Some(Ok("coin_store_head".to_string()))),
        Err(DbActionError::AssertionFailed(DbActionAssertionError::InvalidTableServiced {
            expected: "credit_store_head".to_string(),
            actual: "coin_store_head".to_string(),
        }))
    );
}

#[test]
fn failure_of_the_accumulator_is_handed_on() {
    assert_eq!(
        settle_write_answer(
            HeadTable::CreditStore,
            41,
            Some(Err(SpawnEaBgWorkerThreadError::TableNameNotInLockMap("t".to_string())))
        ),
        Err(DbActionError::EaWorkError(SpawnEaBgWorkerThreadError::TableNameNotInLockMap(
            "t".to_string()
        )))
    );
}

#[test]
fn an_accumulator_that_has_gone_is_never_a_success() {
    assert_eq!(
        settle_write_answer(HeadTable::CreditStore, 41, None),
        Err(DbActionError::RecvError)
    );
}

#[test]
fn update_of_a_missing_head_row_fails_and_changes_nothing() {
    let mut db = CreditStoreDb::new();
    let src = CreditStoreEventSourcable {};
    src.insert_into_head_table(&mut db, 1, object("A", 1)).unwrap();
    let r = src.update_head_table_row(&mut db, 2, object("B", 2));
    assert!(matches!(r, Err(EventSourcableError::StorageFailure(_))));
    assert_eq!(db.head_len(), 1);
    assert_eq!(db.head_row(1), Some(object("A", 1)));
    assert_eq!(db.head_row(2), None);
}

#[test]
fn insert_of_an_existing_head_row_fails_and_changes_nothing() {
    let mut db = CreditStoreDb::new();
    let src = CreditStoreEventSourcable {};
    src.insert_into_head_table(&mut db, 1, object("A", 1)).unwrap();
    let r = src.insert_into_head_table(&mut db, 1, object("A", 2));
    assert!(matches!(r, Err(EventSourcableError::StorageFailure(_))));
    assert_eq!(db.head_len(), 1);
    assert_eq!(db.head_row(1), Some(object("A", 1)));
}

#[test]
fn a_write_with_an_update_of_a_missing_row_fails_and_keeps_the_checkpoint() {
    let mut db = CreditStoreDb::new();
    let src = CreditStoreEventSourcable {};
    db.insert_event(new_event("A", 10, EventAction::Insert, Some(65))).unwrap();
    db.insert_event(new_event("B", 20, EventAction::Update, Some(66))).unwrap();
    db.insert_event(new_event("C", 30, EventAction::Insert, Some(67))).unwrap();
    assert!(matches!(db_write(&src, &mut db), Err(EventSourcableError::StorageFailure(_))));
    assert_eq!(db.version(), None);
    assert_eq!(db.head_len(), 1);
    assert_eq!(db.head_row(65), Some(object("A", 10)));
    assert_eq!(db.head_row(66), None);
    assert_eq!(db.head_row(67), None);
    assert_eq!(db.events_len(), 3);
}

#[test]
fn a_write_with_an_insert_of_an_existing_row_fails() {
    let mut db = CreditStoreDb::new();
    let src = CreditStoreEventSourcable {};
    db.insert_event(new_event("A", 10, EventAction::Insert, Some(65))).unwrap();
    db.insert_event(new_event("A", 20, EventAction::Insert, Some(65))).unwrap();
    assert!(db_write(&src, &mut db).is_err());
    assert_eq!(db.version(), None);
    assert_eq!(db.head_row(65), Some(object("A", 10)));
    assert!(db_checkout(&src, &mut db, None).is_err());
    assert_eq!(db_checkout(&src, &mut db, Some(1)), Ok(()));
    assert_eq!(db.head_row(65), Some(object("A", 10)));
    assert_eq!(db.version(), Some(1));
}

#[test]
fn an_insert_after_a_delete_finds_the_row_gone() {
    let mut db = CreditStoreDb::new();
    let src = CreditStoreEventSourcable {};
    db.insert_event(new_event("A", 10, EventAction::Insert, Some(65))).unwrap();
    db.insert_event(new_event("A", 0, EventAction::Delete, Some(65))).unwrap();
    db.insert_event(new_event("A", 30, EventAction::Insert, Some(65))).unwrap();
    db.insert_event(new_event("B", 0, EventAction::Delete, Some(66))).unwrap();
    assert_eq!(db_write(&src, &mut db), Ok(()));
    assert_eq!(db.head_len(), 1);
    assert_eq!(db.head_row(65), Some(object("A", 30)));
    assert_eq!(db.version(), Some(4));
}

#[test]
fn reset_empties_the_head_and_takes_the_checkpoint_away() {
    let mut db = CreditStoreDb::new();
    let src = CreditStoreEventSourcable {};
    db.insert_base_row(CreditStoreRec { id: 9, person: "Z".to_string(), credits: 1 });
    db.insert_event(new_event("A", 10, EventAction::Insert, Some(65))).unwrap();
    db.insert_event(new_event("B", 20, EventAction::Insert, Some(66))).unwrap();
    db_write(&src, &mut db).unwrap();
    assert_eq!(db.head_len(), 2);
    assert_eq!(db.version(), Some(2));
    assert_eq!(db_reset(&src, &mut db), Ok(()));
    assert_eq!(db.head_len(), 0);
    assert_eq!(db.head_row(65), None);
    assert_eq!(db.version(), None);
    assert_eq!(db.events_len(), 2);
    src.source_head_table_row(&mut db).unwrap();
    assert_eq!(db.head_row(9), Some(object("Z", 1)));
}

#[test]
fn a_write_after_a_reset_applies_every_event_again() {
    let mut db = CreditStoreDb::new();
    let src = CreditStoreEventSourcable {};
    db.insert_event(new_event("A", 10, EventAction::Insert, Some(65))).unwrap();
    db.insert_event(new_event("A", 25, EventAction::Update, Some(65))).unwrap();
    db_write(&src, &mut db).unwrap();
    db_reset(&src, &mut db).unwrap();
    db_write(&src, &mut db).unwrap();
    assert_eq!(db.head_len(), 1);
    assert_eq!(db.head_row(65), Some(object("A", 25)));
    assert_eq!(db.version(), Some(2));
}

#[test]
fn reset_of_a_fresh_table_group_changes_nothing() {
    let mut db = CreditStoreDb::new();
    assert_eq!(db_reset(&CreditStoreEventSourcable {}, &mut db), Ok(()));
    assert_eq!(db.head_len(), 0);
    assert_eq!(db.version(), None);
}

#[test]
fn blocking_insert_fails_with_nothing_changed_when_the_name_gives_no_id() {
    let mut db = CreditStoreDb::new();
    let long = CreditStoreObject { person: "\u{7f}".repeat(16_909_321), credits: 1 };
    assert_eq!(
        credit_store_event_blocking_insert(&mut db, &long, 0),
        Err(DbActionError::ObjectIdOutOfRange)
    );
    assert_eq!(db.events_len(), 0);
    assert_eq!(db.head_len(), 0);
    assert_eq!(db.version(), None);
}

#[test]
fn blocking_insert_fails_with_nothing_changed_when_the_ids_have_run_out() {
    let events = vec![stored(i32::MAX, "alice", 1, EventAction::Insert, Some(510))];
    let mut db = CreditStoreDb::load(events, None).unwrap();
    assert_eq!(
        credit_store_event_blocking_insert(&mut db, &object("bob", 2), 0),
        Err(DbActionError::StorageFailure(StorageError::IdsExhausted))
    );
    assert_eq!(db.events_len(), 1);
    assert_eq!(db.head_len(), 0);
    assert_eq!(db.version(), None);
}

#[test]
fn insert_then_update_leaves_one_row_with_the_update() {
    let mut db = CreditStoreDb::new();
    db.insert_event(new_event("A", 10, EventAction::Insert, Some(65))).unwrap();
    db.insert_event(new_event("A", 25, EventAction::Update, Some(65))).unwrap();
    assert_eq!(db_write(&CreditStoreEventSourcable {}, &mut db), Ok(()));
    assert_eq!(db.head_len(), 1);
    assert_eq!(db.head_row(65), Some(object("A", 25)));
    assert_eq!(db.version(), Some(2));
}

#[test]
fn head_reflects_the_last_mutation_of_each_object() {
    let mut db = CreditStoreDb::new();
    db.insert_event(new_event("A", 1, EventAction::Insert, Some(1))).unwrap();
    db.insert_event(new_event("B", 2, EventAction::Insert, Some(2))).unwrap();
    db.insert_event(new_event("A", 3, EventAction::Update, Some(1))).unwrap();
    db.insert_event(new_event("C", 4, EventAction::Insert, Some(3))).unwrap();
    db.insert_event(new_event("B", 0, EventAction::Delete, Some(2))).unwrap();
    db.insert_event(new_event("A", 5, EventAction::Update, Some(1))).unwrap();
    db.insert_event(new_event("", 0, EventAction::Close, None)).unwrap();
    db_write(&CreditStoreEventSourcable {}, &mut db).unwrap();
    assert_eq!(db.head_len(), 2);
    assert_eq!(db.head_row(1), Some(object("A", 5)));
    assert_eq!(db.head_row(2), None);
    assert_eq!(db.head_row(3), Some(object("C", 4)));
    assert_eq!(db.version(), Some(7));
}

#[test]
fn a_second_write_without_new_events_changes_nothing() {
    let mut db = CreditStoreDb::new();
    let src = CreditStoreEventSourcable {};
    db.insert_event(new_event("A", 10, EventAction::Insert, Some(65))).unwrap();
    db.insert_event(new_event("B", 20, EventAction::Insert, Some(66))).unwrap();
    db.insert_event(new_event("A", 0, EventAction::Delete, Some(65))).unwrap();
    db_write(&src, &mut db).unwrap();
    let version = db.version();
    let rows = (db.head_len(), db.head_row(65), db.head_row(66));
    assert_eq!(version, Some(3));
    db_write(&src, &mut db).unwrap();
    assert_eq!(db.version(), version);
    assert_eq!((db.head_len(), db.head_row(65), db.head_row(66)), rows);
    assert_eq!(db.events_len(), 3);
}

#[test]
fn a_write_on_an_empty_table_group_leaves_it_unsynchronized() {
    let mut db = CreditStoreDb::new();
    assert_eq!(db_write(&CreditStoreEventSourcable {}, &mut db), Ok(()));
    assert_eq!(db.version(), None);
    assert_eq!(db.head_len(), 0);
}

#[test]
fn a_write_applies_only_the_events_after_the_checkpoint() {
    let events = vec![
        stored(1, "A", 10, EventAction::Insert, Some(65)),
        stored(2, "B", 20, EventAction::Insert, Some(66)),
        stored(5, "C", 30, EventAction::Insert, Some(67)),
    ];
    let mut db = CreditStoreDb::load(events, Some(2)).unwrap();
    db_write(&CreditStoreEventSourcable {}, &mut db).unwrap();
    assert_eq!(db.head_len(), 1);
    assert_eq!(db.head_row(67), Some(object("C", 30)));
    assert_eq!(db.version(), Some(5));
}

#[test]
fn checkout_rebuilds_the_head_as_of_an_event() {
    let mut db = CreditStoreDb::new();
    let src = CreditStoreEventSourcable {};
    db.insert_event(new_event("A", 10, EventAction::Insert, Some(65))).unwrap();
    db.insert_event(new_event("A", 25, EventAction::Update, Some(65))).unwrap();
    db.insert_event(new_event("B", 7, EventAction::Insert, Some(66))).unwrap();
    db.insert_event(new_event("A", 0, EventAction::Delete, Some(65))).unwrap();
    db_write(&src, &mut db).unwrap();
    assert_eq!(db_checkout(&src, &mut db, Some(2)), Ok(()));
    assert_eq!(db.head_len(), 1);
    assert_eq!(db.head_row(65), Some(object("A", 25)));
    assert_eq!(db.version(), Some(2));
    assert_eq!(db_checkout(&src, &mut db, Some(1)), Ok(()));
    assert_eq!(db.head_row(65), Some(object("A", 10)));
    assert_eq!(db.version(), Some(1));
    assert_eq!(db_checkout(&src, &mut db, None), Ok(()));
    assert_eq!(db.head_len(), 1);
    assert_eq!(db.head_row(66), Some(object("B", 7)));
    assert_eq!(db.version(), Some(4));
    assert_eq!(db.events_len(), 4);
}

#[test]
fn checkout_then_write_catches_up() {
    let mut db = CreditStoreDb::new();
    let src = CreditStoreEventSourcable {};
    db.insert_event(new_event("A", 10, EventAction::Insert, Some(65))).unwrap();
    db.insert_event(new_event("A", 25, EventAction::Update, Some(65))).unwrap();
    db_checkout(&src, &mut db, Some(1)).unwrap();
    db_write(&src, &mut db).unwrap();
    assert_eq!(db.head_row(65), Some(object("A", 25)));
    assert_eq!(db.version(), Some(2));
}

#[test]
fn checkout_of_an_id_between_events_keeps_the_id_as_checkpoint() {
    let events = vec![
        stored(1, "A", 10, EventAction::Insert, Some(65)),
        stored(7, "A", 11, EventAction::Update, Some(65)),
    ];
    let mut db = CreditStoreDb::load(events, None).unwrap();
    db_checkout(&CreditStoreEventSourcable {}, &mut db, Some(5)).unwrap();
    assert_eq!(db.head_row(65), Some(object("A", 10)));
    assert_eq!(db.version(), Some(5));
    db_checkout(&CreditStoreEventSourcable {}, &mut db, Some(0)).unwrap();
    assert_eq!(db.head_len(), 0);
    assert_eq!(db.version(), Some(0));
}

#[test]
fn checkout_latest_of_an_empty_table_group_has_no_checkpoint() {
    let mut db = CreditStoreDb::load(vec![], Some(3)).unwrap();
    db_checkout(&CreditStoreEventSourcable {}, &mut db, None).unwrap();
    assert_eq!(db.version(), None);
}

#[test]
fn head_can_be_sourced_from_the_base_table() {
    let mut db = CreditStoreDb::new();
    let src = CreditStoreEventSourcable {};
    db.insert_base_row(CreditStoreRec { id: 1, person: "A".to_string(), credits: 5 });
    db.insert_base_row(CreditStoreRec { id: 2, person: "B".to_string(), credits: 6 });
    db.insert_base_row(CreditStoreRec { id: 1, person: "A".to_string(), credits: 7 });
    src.insert_into_head_table(&mut db, 9, object("Z", 0)).unwrap();
    assert_eq!(src.source_head_table_row(&mut db), Ok(()));
    assert_eq!(db.head_len(), 2);
    assert_eq!(db.head_row(1), Some(object("A", 7)));
    assert_eq!(db.head_row(2), Some(object("B", 6)));
    assert_eq!(db.head_row(9), None);
}

#[test]
fn capabilities_of_the_credit_store() {
    let mut db = CreditStoreDb::new();
    let src = CreditStoreEventSourcable {};
    assert_eq!(src.read_event_table_version(&mut db), Ok(None));
    assert_eq!(src.write_event_table_version(&mut db, Some(4)), Ok(()));
    assert_eq!(src.read_event_table_version(&mut db), Ok(Some(4)));
    assert_eq!(src.insert_into_head_table(&mut db, 1, object("A", 1)), Ok(()));
    assert_eq!(src.update_head_table_row(&mut db, 1, object("A", 2)), Ok(()));
    assert_eq!(db.head_row(1), Some(object("A", 2)));
    assert_eq!(src.delete_head_table_row(&mut db, 1), Ok(()));
    assert_eq!(src.delete_head_table_row(&mut db, 1), Ok(()));
    assert_eq!(db.head_len(), 0);
    src.insert_into_head_table(&mut db, 2, object("B", 1)).unwrap();
    assert_eq!(src.clear_head_table(&mut db), Ok(()));
    assert_eq!(db.head_len(), 0);
}

#[test]
fn read_event_table_gives_the_events_after_an_id() {
    let events = vec![
        stored(2, "A", 10, EventAction::Insert, Some(65)),
        stored(4, "B", 20, EventAction::Update, Some(66)),
        stored(6, "", 0, EventAction::Open, None),
    ];
    let mut db = CreditStoreDb::load(events, None).unwrap();
    let src = CreditStoreEventSourcable {};
    let all = src.read_event_table(&mut db, None).unwrap();
    assert_eq!(all.len(), 3);
    assert_eq!(all[0], (data(2, EventAction::Insert, Some(65)), object("A", 10)));
    assert_eq!(all[2], (data(6, EventAction::Open, None), object("", 0)));
    let later = src.read_event_table(&mut db, Some(2)).unwrap();
    assert_eq!(later.iter().map(|e| e.0.id).collect::<Vec<i32>>(), vec![4, 6]);
    assert_eq!(src.read_event_table(&mut db, Some(3)).unwrap().len(), 2);
    assert!(src.read_event_table(&mut db, Some(6)).unwrap().is_empty());
    assert_eq!(src.read_event_table(&mut db, Some(-1)).unwrap().len(), 3);
}

#[test]
fn insert_event_refuses_a_mutation_that_names_no_object() {
    let mut db = CreditStoreDb::new();
    assert_eq!(
        db.insert_event(new_event("A", 1, EventAction::Update, None)),
        Err(DbActionError::AssertionFailed(DbActionAssertionError::MutationWithoutObject))
    );
    assert_eq!(db.events_len(), 0);
    let marker = db.insert_event(new_event("", 0, EventAction::Reopen, None)).unwrap();
    assert_eq!(marker.id, 1);
    assert_eq!(marker.created_on, "then");
}

#[test]
fn load_refuses_unsound_events() {
    assert!(CreditStoreDb::load(vec![stored(0, "A", 1, EventAction::Insert, Some(1))], None).is_none());
    assert!(CreditStoreDb::load(
        vec![stored(2, "A", 1, EventAction::Insert, Some(1)), stored(2, "A", 1, EventAction::Update, Some(1))],
        None
    )
    .is_none());
    assert!(CreditStoreDb::load(vec![stored(1, "A", 1, EventAction::Delete, None)], None).is_none());
    assert!(CreditStoreDb::load(vec![stored(1, "A", 1, EventAction::Close, None)], Some(9)).is_some());
}

#[test]
fn apply_to_head_goes_by_the_action() {
    let mut db = CreditStoreDb::new();
    let src = CreditStoreEventSourcable {};
    assert_eq!(apply_to_head(&src, &mut db, &data(1, EventAction::Insert, Some(5)), object("A", 1)), Ok(()));
    assert_eq!(db.head_row(5), Some(object("A", 1)));
    assert_eq!(apply_to_head(&src, &mut db, &data(2, EventAction::Update, Some(5)), object("A", 2)), Ok(()));
    assert_eq!(db.head_row(5), Some(object("A", 2)));
    assert_eq!(apply_to_head(&src, &mut db, &data(3, EventAction::Open, Some(5)), object("A", 3)), Ok(()));
    assert_eq!(apply_to_head(&src, &mut db, &data(4, EventAction::Close, None), object("A", 3)), Ok(()));
    assert_eq!(apply_to_head(&src, &mut db, &data(5, EventAction::Reopen, None), object("A", 3)), Ok(()));
    assert_eq!(db.head_row(5), Some(object("A", 2)));
    assert_eq!(apply_to_head(&src, &mut db, &data(6, EventAction::Delete, Some(5)), object("A", 0)), Ok(()));
    assert_eq!(db.head_len(), 0);
}

#[test]
fn apply_to_head_refuses_what_the_head_cannot_take() {
    let mut db = CreditStoreDb::new();
    let src = CreditStoreEventSourcable {};
    let r = apply_to_head(&src, &mut db, &data(1, EventAction::Update, Some(5)), object("A", 1));
    assert!(matches!(r, Err(EventSourcableError::StorageFailure(_))));
    assert_eq!(db.head_len(), 0);
    apply_to_head(&src, &mut db, &data(2, EventAction::Insert, Some(5)), object("A", 2)).unwrap();
    let r = apply_to_head(&src, &mut db, &data(3, EventAction::Insert, Some(5)), object("A", 3));
    assert!(matches!(r, Err(EventSourcableError::StorageFailure(_))));
    assert_eq!(db.head_row(5), Some(object("A", 2)));
    assert_eq!(apply_to_head(&src, &mut db, &data(4, EventAction::Delete, Some(6)), object("", 0)), Ok(()));
    assert_eq!(db.head_len(), 1);
}

#[test]
fn apply_to_head_refuses_a_mutation_that_names_no_object() {
    let mut db = CreditStoreDb::new();
    let src = CreditStoreEventSourcable {};
    for action in vec![EventAction::Insert, EventAction::Update, EventAction::Delete] {
        let r = apply_to_head(&src, &mut db, &data(1, action, None), object("A", 1));
        assert!(matches!(r, Err(EventSourcableError::AssertionFailed(_))));
    }
    assert_eq!(db.head_len(), 0);
}

#[test]
fn serving_a_write_acknowledges_the_table_asked_for() {
    let mut db = CreditStoreDb::new();
    db.insert_event(new_event("A", 10, EventAction::Insert, Some(65))).unwrap();
    let outcome = serve_ea_message(
        &CreditStoreEventSourcable {},
        &mut db,
        EaThreadMessage::DbWrite { table_name: "credit_store_head".to_string() },
    );
    assert_eq!(outcome, Ok(EaOutcome::HeadWritten { table_name: "credit_store_head".to_string() }));
    assert_eq!(db.head_row(65), Some(object("A", 10)));
}

#[test]
fn serving_a_checkout_and_a_quit() {
    let mut db = CreditStoreDb::new();
    let src = CreditStoreEventSourcable {};
    db.insert_event(new_event("A", 10, EventAction::Insert, Some(65))).unwrap();
    db.insert_event(new_event("A", 11, EventAction::Update, Some(65))).unwrap();
    let outcome = serve_ea_message(
        &src,
        &mut db,
        EaThreadMessage::DbCheckout { table_name: "t".to_string(), opt_event_id: Some(1) },
    );
    assert_eq!(outcome, Ok(EaOutcome::HeadCheckedOut { table_name: "t".to_string() }));
    assert_eq!(db.head_row(65), Some(object("A", 10)));
    assert_eq!(serve_ea_message(&src, &mut db, EaThreadMessage::Quit), Ok(EaOutcome::Quit));
    assert_eq!(db.head_row(65), Some(object("A", 10)));
    assert_eq!(db.version(), Some(1));
}

#[test]
fn find_table_gives_the_first_of_the_name() {
    let names = vec!["a".to_string(), "b".to_string(), "a".to_string()];
    assert_eq!(find_table(&names, &"a".to_string()), Ok(0));
    assert_eq!(find_table(&names, &"b".to_string()), Ok(1));
    assert_eq!(
        find_table(&names, &"c".to_string()),
        Err(SpawnEaBgWorkerThreadError::TableNameNotInLockMap("c".to_string()))
    );
    assert_eq!(
        find_table(&vec![], &"".to_string()),
        Err(SpawnEaBgWorkerThreadError::TableNameNotInLockMap("".to_string()))
    );
}

#[test]
fn a_failed_capability_fails_the_request_and_leaves_the_checkpoint() {
    let src = Picky { refused: 2 };
    let mut conn = PickyConn {
        version: None,
        events: vec![
            (data(1, EventAction::Insert, Some(1)), 10),
            (data(2, EventAction::Insert, Some(2)), 20),
            (data(3, EventAction::Insert, Some(3)), 30),
        ],
        head: vec![],
    };
    assert_eq!(
        serve_ea_message(&src, &mut conn, EaThreadMessage::DbWrite { table_name: "t".to_string() }),
        Err(SpawnEaBgWorkerThreadError::EventSourcableError(EventSourcableError::StorageFailure(
            "refused".to_string()
        )))
    );
    assert_eq!(conn.version, None);
    assert_eq!(conn.head, vec![(1, 10)]);
    assert_eq!(conn.events.len(), 3);
}

#[test]
fn the_accumulator_serves_on_after_a_failed_request() {
    let src = Picky { refused: 2 };
    let mut conn = PickyConn {
        version: None,
        events: vec![
            (data(1, EventAction::Insert, Some(1)), 10),
            (data(2, EventAction::Insert, Some(2)), 20),
            (data(3, EventAction::Update, Some(1)), 30),
        ],
        head: vec![],
    };
    assert!(db_write(&src, &mut conn).is_err());
    assert_eq!(db_checkout(&src, &mut conn, Some(1)), Ok(()));
    assert_eq!(conn.version, Some(1));
    assert_eq!(conn.head, vec![(1, 10)]);
    assert!(db_checkout(&src, &mut conn, None).is_err());
    let willing = Picky { refused: 0 };
    assert_eq!(db_write(&willing, &mut conn), Ok(()));
    assert_eq!(conn.version, Some(3));
    assert_eq!(conn.head, vec![(2, 20), (1, 30)]);
    assert_eq!(
        serve_ea_message(&willing, &mut conn, EaThreadMessage::Quit),
        Ok(EaOutcome::Quit)
    );
}

#[test]
fn an_implementor_may_report_any_error() {
    let src = Picky { refused: 0 };
    let mut conn = PickyConn { version: None, events: vec![], head: vec![] };
    assert_eq!(
        src.source_head_table_row(&mut conn),
        Err(EventSourcableError::Error("no base table".to_string()))
    );
}
