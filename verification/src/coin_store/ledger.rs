//! A coin store together with the node of the branch tree that is being
//! worked in, and the commands that act on both.

use vstd::prelude::*;

use crate::coin_store::log::{
    created_span_frames, events_grouped, events_grouped_partial, last_event_id,
    lemma_events_grouped_len, lemma_ids_bound_length, mutation_ids, row_enabled, Recorded,
};
use crate::coin_store::projection::{get_events_grouped, get_events_grouped_partial};
use crate::coin_store::records::{Event, EventGrouped, Hist, NewCommon};
use crate::coin_store::selection::{
    described, flipped, identified, set_coin_store_events_partial_to_full,
    set_coin_store_events_partial_to_full_if_empty, sync_coin_store_events_partial,
    toggle_by_description, toggle_by_id,
};
use crate::coin_store::store::{
    appended_marker, appended_mutation, create_span_frame, create_span_frame_outcome,
    get_created_span_frames, has_room, insert_event_for_obj, lemma_created_push,
    lemma_mutation_ids_push, CoinStore, CoinStoreView, CreateSpanFrameError,
};
use crate::coin_store::wallet::{get_hist, hist};
use crate::person::{checksum_as_object_id, key_checksum, Person};
use crate::schema::{EventAction, ObjState};
use crate::sequences::lemma_filter_push;
use crate::span_frame::{
    find_hard_reset_target, find_pop_target, find_push_target, find_soft_reset_target,
    find_switch_target, hard_reset_target, lemma_latest_in_span, pop_target, push_target,
    soft_reset_target, span_frame_exists, switch_target, NavigationError, SpanFrame,
};
use crate::storage::StorageError;

verus! {

/// Why a navigation command did not move.
#[derive(Debug, Clone, Copy, PartialEq, Eq, Structural)]
pub enum SpanFrameError {
    /// The step has no target.
    Navigation(NavigationError),
    /// The target could not be created.
    Create(CreateSpanFrameError),
}

/// Why a mutation was not recorded.
#[derive(Debug, Clone, Copy, PartialEq, Eq, Structural)]
pub enum MutationError {
    /// The person to add is known to the store.
    UserAlreadyExists,
    /// The person to change is not known to the store.
    UserDoesNotExist,
    /// The amount does not fit a signed 32-bit number.
    AmountOutOfRange,
    /// The store could not take the rows.
    StorageFailure(StorageError),
}

/// A coin store and the current node.
pub struct Ledger {
    store: CoinStore,
    cur_span_frame: SpanFrame,
}

/// What a ledger holds.
pub struct LedgerView {
    pub store: CoinStoreView,
    pub cur_span_frame: SpanFrame,
}

impl LedgerView {
    /// A ledger is sound when its store is and the current node has been
    /// created.
    pub open spec fn wf(self) -> bool {
        &&& self.store.wf()
        &&& created_span_frames(self.store.log).contains(self.cur_span_frame)
    }

    /// The nodes created so far.
    pub open spec fn nodes(self) -> Seq<SpanFrame> {
        created_span_frames(self.store.log)
    }
}

impl View for Ledger {
    type V = LedgerView;

    closed spec fn view(&self) -> LedgerView {
        LedgerView { store: self.store@, cur_span_frame: self.cur_span_frame }
    }
}

/// The first node: frame 1 of span 1.
pub open spec fn root() -> SpanFrame {
    SpanFrame { span: 1, frame: 1 }
}

/// True when the first node has been created.
pub open spec fn has_root(log: Seq<Recorded>) -> bool {
    created_span_frames(log).contains(root())
}

/// The description of the first node's Open marker.
pub open spec fn first_frame_desc() -> Seq<char> {
    "First Frame!"@
}

/// The test that keeps the rows of one node.
pub open spec fn row_in_node(node: SpanFrame) -> spec_fn(EventGrouped) -> bool {
    |row: EventGrouped| row.grp_span == node.span && row.grp_frame == node.frame
}

/// True when some diff of the log carries this name.
pub open spec fn person_known(log: Seq<Recorded>, name: Seq<char>) -> bool {
    exists|i: int|
        0 <= i < log.len() && (#[trigger] log[i]).diff is Some && log[i].diff->Some_0.person@
            == name
}

/// What a navigation step that creates its target comes to.
pub open spec fn creation_outcome(
    log: Seq<Recorded>,
    target: Result<SpanFrame, NavigationError>,
) -> Result<SpanFrame, SpanFrameError> {
    match target {
        Err(e) => Err(SpanFrameError::Navigation(e)),
        Ok(node) => match create_span_frame_outcome(log, node.span, node.frame) {
            Err(e) => Err(SpanFrameError::Create(e)),
            Ok(created) => Ok(created),
        },
    }
}

/// What a navigation step that moves to an existing node comes to.
pub open spec fn move_outcome(target: Result<SpanFrame, NavigationError>) -> Result<
    SpanFrame,
    SpanFrameError,
> {
    match target {
        Err(e) => Err(SpanFrameError::Navigation(e)),
        Ok(node) => Ok(node),
    }
}

/// True when `after` is `before` moved to a node `node` that was created by
/// the step, with the description `ev_desc` on its Open marker.
pub open spec fn moved_to_new(
    before: LedgerView,
    after: LedgerView,
    node: SpanFrame,
    ev_desc: Seq<char>,
) -> bool {
    &&& after.cur_span_frame == node
    &&& after.store.enabled == before.store.enabled
    &&& appended_marker(
        before.store.log,
        after.store.log,
        EventAction::Open,
        node,
        after.store.log.last().event.created_on_ts,
        ev_desc,
    )
    &&& after.nodes() == before.nodes().push(node)
}

/// True when `after` is `before` with one mutation of `person` recorded in
/// the current node and enabled.
pub open spec fn recorded_mutation(
    before: LedgerView,
    after: LedgerView,
    event: Event,
    person: Person,
    obj_state: ObjState,
    coins: i32,
    ev_desc: Seq<char>,
) -> bool {
    &&& after.cur_span_frame == before.cur_span_frame
    &&& appended_mutation(
        before.store.log,
        after.store.log,
        checksum_as_object_id(key_checksum(person@)),
        before.cur_span_frame,
        obj_state,
        after.store.log.last().event.created_on_ts,
        ev_desc,
        person,
        coins,
    )
    &&& event == after.store.log.last().event
    &&& after.store.enabled == before.store.enabled.insert(event.id)
}

/// True when two texts are the same.
fn same_text(a: &str, b: &str) -> (r: bool)
    ensures
        r == (a@ == b@),
{
    a.to_owned() == b.to_owned()
}

/// The node (1, 1): found if it exists, created if it does not.
pub fn get_or_create_init_span_frame(store: &mut CoinStore) -> (r: Result<
    SpanFrame,
    CreateSpanFrameError,
>)
    requires
        old(store)@.wf(),
    ensures
        final(store)@.wf(),
        final(store)@.enabled == old(store)@.enabled,
        has_root(old(store)@.log) ==> r == Ok::<SpanFrame, CreateSpanFrameError>(root())
            && final(store)@.log == old(store)@.log,
        !has_root(old(store)@.log) ==> r == create_span_frame_outcome(old(store)@.log, 1, 1),
        r is Err ==> final(store)@.log == old(store)@.log,
        r is Ok ==> has_root(final(store)@.log),
        r is Ok && !has_root(old(store)@.log) ==> appended_marker(
            old(store)@.log,
            final(store)@.log,
            EventAction::Open,
            root(),
            final(store)@.log.last().event.created_on_ts,
            first_frame_desc(),
        ),
{
    let spanframes = get_created_span_frames(store);
    if span_frame_exists(&spanframes, 1, 1) {
        Ok(SpanFrame { span: 1, frame: 1 })
    } else {
        let r = create_span_frame(store, 1, 1, "First Frame!");
        proof {
            if r is Ok {
                let nodes = created_span_frames(old(store)@.log);
                assert(nodes.push(root())[nodes.len() as int] == root());
            }
        }
        r
    }
}

impl Ledger {
    /// Opens a ledger on `store`: the current node is (1, 1), which is created
    /// if the store lacks it, and if no mutation is enabled, all are.
    pub fn open(store: CoinStore) -> (r: Result<Ledger, CreateSpanFrameError>)
        requires
            store@.wf(),
        ensures
            r matches Ok(ledger) ==> {
                &&& ledger@.wf()
                &&& ledger@.cur_span_frame == root()
                &&& ledger@.store.enabled == if store@.enabled == Set::<i32>::empty() {
                    mutation_ids(store@.log)
                } else {
                    store@.enabled
                }
                &&& if has_root(store@.log) {
                    ledger@.store.log == store@.log
                } else {
                    appended_marker(
                        store@.log,
                        ledger@.store.log,
                        EventAction::Open,
                        root(),
                        ledger@.store.log.last().event.created_on_ts,
                        first_frame_desc(),
                    )
                }
            },
            r is Err <==> !has_root(store@.log) && last_event_id(store@.log) == i32::MAX,
            r matches Err(e) ==> e == CreateSpanFrameError::StorageFailure(
                StorageError::IdsExhausted,
            ),
    {
        let mut store = store;
        let ghost before = store@;
        match get_or_create_init_span_frame(&mut store) {
            Err(e) => Err(e),
            Ok(cur_span_frame) => {
                proof {
                    if !has_root(before.log) {
                        lemma_mutation_ids_push(before.log, store@.log.last());
                        assert(store@.log == before.log.push(store@.log.last()));
                    }
                }
                set_coin_store_events_partial_to_full_if_empty(
                    &mut store,
                );
                Ok(Ledger { store, cur_span_frame })
            },
        }
    }

    /// The current node.
    pub fn cur_span_frame(&self) -> (r: SpanFrame)
        ensures
            r == self@.cur_span_frame,
    {
        self.cur_span_frame
    }

    /// The store.
    pub fn store(&self) -> (r: &CoinStore)
        ensures
            r@ == self@.store,
    {
        &self.store
    }

    /// Moves to the node `target` of a step, creating it first.
    fn move_to_new(
        &mut self,
        target: Result<SpanFrame, NavigationError>,
        ev_desc: &str,
    ) -> (r: Result<SpanFrame, SpanFrameError>)
        requires
            old(self)@.wf(),
        ensures
            final(self)@.wf(),
            r == creation_outcome(old(self)@.store.log, target),
            r is Err ==> final(self)@ == old(self)@,
            r matches Ok(node) ==> moved_to_new(old(self)@, final(self)@, node, ev_desc@),
    {
        match target {
            Err(e) => Err(SpanFrameError::Navigation(e)),
            Ok(node) => {
                let ghost nodes = created_span_frames(self.store@.log);
                match create_span_frame(&mut self.store, node.span, node.frame, ev_desc) {
                    Err(e) => Err(SpanFrameError::Create(e)),
                    Ok(sf) => {
                        proof {
                            assert(nodes.push(sf)[nodes.len() as int] == sf);
                        }
                        self.cur_span_frame = sf;
                        Ok(sf)
                    },
                }
            },
        }
    }

    /// Moves to the existing node `target` of a step.
    fn move_to_existing(&mut self, target: Result<SpanFrame, NavigationError>) -> (r: Result<
        SpanFrame,
        SpanFrameError,
    >)
        requires
            old(self)@.wf(),
            target matches Ok(node) ==> old(self)@.nodes().contains(node),
        ensures
            final(self)@.wf(),
            r == move_outcome(target),
            final(self)@.store == old(self)@.store,
            r is Err ==> final(self)@ == old(self)@,
            r matches Ok(node) ==> final(self)@.cur_span_frame == node,
    {
        match target {
            Err(e) => Err(SpanFrameError::Navigation(e)),
            Ok(node) => {
                self.cur_span_frame = node;
                Ok(node)
            },
        }
    }
}

/// Push: creates the node after the latest of the span above the current one,
/// or frame 1 of that span if it is empty, and moves there.
pub fn coin_store_span_push(ledger: &mut Ledger) -> (r: Result<SpanFrame, SpanFrameError>)
    requires
        old(ledger)@.wf(),
    ensures
        final(ledger)@.wf(),
        r == creation_outcome(
            old(ledger)@.store.log,
            push_target(old(ledger)@.nodes(), old(ledger)@.cur_span_frame),
        ),
        r is Err ==> final(ledger)@ == old(ledger)@,
        r matches Ok(node) ==> moved_to_new(
            old(ledger)@,
            final(ledger)@,
            node,
            "push new spanframe"@,
        ),
{
    let span_frames = get_created_span_frames(&ledger.store);
    let target = find_push_target(&span_frames, &ledger.cur_span_frame);
    ledger.move_to_new(target, "push new spanframe")
}

/// A push followed by a pop leads back to the span of the start, though not
/// always to its frame: the pop moves to the latest node of that span. A start
/// in span 0 is left out, because the push then leads to span 1, the lowest
/// span that a pop accepts.
pub proof fn lemma_push_then_pop(
    before: LedgerView,
    pushed: LedgerView,
    node: SpanFrame,
    ev_desc: Seq<char>,
)
    requires
        before.wf(),
        before.cur_span_frame.span != 0,
        creation_outcome(
            before.store.log,
            push_target(before.nodes(), before.cur_span_frame),
        ) == Ok::<SpanFrame, SpanFrameError>(node),
        moved_to_new(before, pushed, node, ev_desc),
    ensures
        pop_target(pushed.nodes(), pushed.cur_span_frame) is Ok,
        pop_target(pushed.nodes(), pushed.cur_span_frame)->Ok_0.span
            == before.cur_span_frame.span,
{
    let nodes = pushed.nodes();
    let start = before.cur_span_frame;
    let at = choose|at: int| 0 <= at < before.nodes().len() && before.nodes()[at] == start;
    assert(nodes[at].span == start.span);
    lemma_latest_in_span(nodes, start.span as int);
}

/// Pop: moves to the latest node of the span below the current one. Nothing
/// is created.
pub fn coin_store_span_pop(ledger: &mut Ledger) -> (r: Result<SpanFrame, SpanFrameError>)
    requires
        old(ledger)@.wf(),
    ensures
        final(ledger)@.wf(),
        r == move_outcome(pop_target(old(ledger)@.nodes(), old(ledger)@.cur_span_frame)),
        final(ledger)@.store == old(ledger)@.store,
        r is Err ==> final(ledger)@ == old(ledger)@,
        r matches Ok(node) ==> final(ledger)@.cur_span_frame == node,
{
    let span_frames = get_created_span_frames(&ledger.store);
    let target = find_pop_target(&span_frames, &ledger.cur_span_frame);
    proof {
        if target is Ok {
            lemma_latest_in_span(span_frames@, ledger.cur_span_frame.span - 1);
        }
    }
    ledger.move_to_existing(target)
}

/// Switch: moves to the node `(span, frame)` if it has been created.
pub fn coin_store_switch(ledger: &mut Ledger, span: i32, frame: i32) -> (r: Result<
    SpanFrame,
    SpanFrameError,
>)
    requires
        old(ledger)@.wf(),
    ensures
        final(ledger)@.wf(),
        r == move_outcome(switch_target(old(ledger)@.nodes(), span, frame)),
        final(ledger)@.store == old(ledger)@.store,
        r is Err ==> final(ledger)@ == old(ledger)@,
        r matches Ok(node) ==> final(ledger)@.cur_span_frame == node,
{
    let span_frames = get_created_span_frames(&ledger.store);
    let target = find_switch_target(&span_frames, span, frame);
    ledger.move_to_existing(target)
}

/// Soft reset: creates the node after the latest of the current span and
/// moves there.
pub fn coin_store_soft_reset(ledger: &mut Ledger) -> (r: Result<SpanFrame, SpanFrameError>)
    requires
        old(ledger)@.wf(),
    ensures
        final(ledger)@.wf(),
        r == creation_outcome(
            old(ledger)@.store.log,
            soft_reset_target(old(ledger)@.nodes(), old(ledger)@.cur_span_frame),
        ),
        r is Err ==> final(ledger)@ == old(ledger)@,
        r matches Ok(node) ==> moved_to_new(old(ledger)@, final(ledger)@, node, "soft reset"@),
{
    let span_frames = get_created_span_frames(&ledger.store);
    let target = find_soft_reset_target(&span_frames, &ledger.cur_span_frame);
    ledger.move_to_new(target, "soft reset")
}

/// Hard reset: creates the node after the latest of span 1 and moves there.
pub fn coin_store_hard_reset(ledger: &mut Ledger) -> (r: Result<SpanFrame, SpanFrameError>)
    requires
        old(ledger)@.wf(),
    ensures
        final(ledger)@.wf(),
        r == creation_outcome(old(ledger)@.store.log, hard_reset_target(old(ledger)@.nodes())),
        r is Err ==> final(ledger)@ == old(ledger)@,
        r matches Ok(node) ==> moved_to_new(old(ledger)@, final(ledger)@, node, "hard reset"@),
{
    let span_frames = get_created_span_frames(&ledger.store);
    let target = find_hard_reset_target(&span_frames);
    ledger.move_to_new(target, "hard reset")
}

/// Destructive reset: on the answer "yes", and on no other, deletes every
/// diff and event, enables nothing, and recreates the node (1, 1) as the
/// current one. Returns whether it did.
pub fn coin_store_actually_reset(ledger: &mut Ledger, del_resp: &str) -> (deleted: bool)
    requires
        old(ledger)@.wf(),
    ensures
        final(ledger)@.wf(),
        deleted == (del_resp@ == "yes"@),
        !deleted ==> final(ledger)@ == old(ledger)@,
        deleted ==> {
            &&& final(ledger)@.cur_span_frame == root()
            &&& final(ledger)@.store.enabled == Set::<i32>::empty()
            &&& final(ledger)@.nodes() == seq![root()]
            &&& appended_marker(
                Seq::empty(),
                final(ledger)@.store.log,
                EventAction::Open,
                root(),
                final(ledger)@.store.log.last().event.created_on_ts,
                first_frame_desc(),
            )
        },
{
    if same_text(del_resp, "yes") {
        ledger.store = CoinStore::new();
        set_coin_store_events_partial_to_full(&mut ledger.store);
        proof {
            assert(mutation_ids(Seq::<Recorded>::empty()) =~= Set::<i32>::empty());
            assert(created_span_frames(Seq::<Recorded>::empty()) =~= Seq::<SpanFrame>::empty());
        }
        match get_or_create_init_span_frame(&mut ledger.store) {
            Ok(sf) => {
                ledger.cur_span_frame = sf;
            },
            Err(_) => {},
        }
        proof {
            let log = ledger@.store.log;
            assert(log.drop_last() =~= Seq::<Recorded>::empty());
            assert(created_span_frames(log) =~= seq![root()]);
        }
        true
    } else {
        false
    }
}

/// The created nodes in the order of their creation, each with a mark that
/// is set on the current one.
pub fn coin_store_ls(ledger: &Ledger) -> (r: Vec<(SpanFrame, bool)>)
    requires
        ledger@.wf(),
    ensures
        r@.len() == ledger@.nodes().len(),
        forall|i: int|
            0 <= i < r@.len() ==> (#[trigger] r@[i]).0 == ledger@.nodes()[i] && r@[i].1 == (
            ledger@.nodes()[i] == ledger@.cur_span_frame),
{
    let span_frames = get_created_span_frames(&ledger.store);
    let mut out: Vec<(SpanFrame, bool)> = Vec::new();
    let mut i: usize = 0;
    while i < span_frames.len()
        invariant
            i <= span_frames.len(),
            out@.len() == i,
            forall|k: int|
                0 <= k < i ==> (#[trigger] out@[k]).0 == span_frames@[k] && out@[k].1 == (
                span_frames@[k] == ledger.cur_span_frame),
        decreases span_frames.len() - i,
    {
        let span_frame = span_frames[i];
        let current = span_frame.span == ledger.cur_span_frame.span && span_frame.frame
            == ledger.cur_span_frame.frame;
        out.push((span_frame, current));
        i = i + 1;
    }
    out
}

/// The rows of `rows` that lie in `node`.
pub fn rows_in_node(rows: Vec<EventGrouped>, node: &SpanFrame) -> (r: Vec<EventGrouped>)
    ensures
        r@ == rows@.filter(row_in_node(*node)),
{
    let mut out: Vec<EventGrouped> = Vec::new();
    let mut i: usize = 0;
    let ghost pred = row_in_node(*node);
    proof {
        reveal(Seq::filter);
    }
    while i < rows.len()
        invariant
            i <= rows.len(),
            pred == row_in_node(*node),
            out@ == rows@.take(i as int).filter(pred),
        decreases rows.len() - i,
    {
        proof {
            assert(rows@.take(i + 1) == rows@.take(i as int).push(rows@[i as int]));
            lemma_filter_push(rows@.take(i as int), rows@[i as int], pred);
        }
        if rows[i].grp_span == node.span && rows[i].grp_frame == node.frame {
            out.push(rows[i].clone());
        }
        i = i + 1;
    }
    proof {
        assert(rows@.take(rows@.len() as int) == rows@);
    }
    out
}

/// The mutations recorded in the current node.
pub fn coin_store_show_records(ledger: &Ledger) -> (r: Vec<EventGrouped>)
    requires
        ledger@.wf(),
    ensures
        r@ == events_grouped(ledger@.store.log).filter(row_in_node(ledger@.cur_span_frame)),
{
    rows_in_node(get_events_grouped(&ledger.store), &ledger.cur_span_frame)
}

/// The enabled mutations recorded in the current node.
pub fn coin_store_show_partial_records(ledger: &Ledger) -> (r: Vec<EventGrouped>)
    requires
        ledger@.wf(),
    ensures
        r@ == events_grouped_partial(ledger@.store.log, ledger@.store.enabled).filter(
            row_in_node(ledger@.cur_span_frame),
        ),
{
    rows_in_node(get_events_grouped_partial(&ledger.store), &ledger.cur_span_frame)
}

/// The balances of the current node over all its mutations.
pub fn coin_store_show_wallet(ledger: &Ledger) -> (r: Vec<Hist>)
    requires
        ledger@.wf(),
    ensures
        r@ == hist(events_grouped(ledger@.store.log), ledger@.cur_span_frame),
{
    let rows = get_events_grouped(&ledger.store);
    proof {
        lemma_events_grouped_len(ledger@.store.log);
        if ledger@.store.log.len() > 0 {
            lemma_ids_bound_length(ledger@.store.log, 0);
        }
    }
    get_hist(&rows, &ledger.cur_span_frame)
}

/// The balances of the current node over its enabled mutations.
pub fn coin_store_show_partial_wallet(ledger: &Ledger) -> (r: Vec<Hist>)
    requires
        ledger@.wf(),
    ensures
        r@ == hist(
            events_grouped_partial(ledger@.store.log, ledger@.store.enabled),
            ledger@.cur_span_frame,
        ),
{
    let rows = get_events_grouped_partial(&ledger.store);
    proof {
        lemma_events_grouped_len(ledger@.store.log);
        events_grouped(ledger@.store.log).lemma_filter_len(
            row_enabled(ledger@.store.enabled),
        );
        if ledger@.store.log.len() > 0 {
            lemma_ids_bound_length(ledger@.store.log, 0);
        }
    }
    get_hist(&rows, &ledger.cur_span_frame)
}

/// True when some diff of the store carries the name of `person`.
pub fn is_known(store: &CoinStore, person: &Person) -> (r: bool)
    ensures
        r == person_known(store@.log, person@),
{
    let entries = store.entries();
    let mut i: usize = 0;
    while i < entries.len()
        invariant
            i <= entries.len(),
            entries@ == store@.log,
            forall|j: int|
                0 <= j < i ==> !((#[trigger] entries@[j]).diff is Some
                    && entries@[j].diff->Some_0.person@ == person@),
        decreases entries.len() - i,
    {
        match &entries[i].diff {
            Some(diff) => {
                if diff.person == *person {
                    assert(store@.log[i as int].diff is Some
                        && store@.log[i as int].diff->Some_0.person@ == person@);
                    return true;
                }
            },
            None => {},
        }
        i = i + 1;
    }
    false
}

/// Records a mutation of `person` in the current node and enables it.
fn record(
    ledger: &mut Ledger,
    person: &Person,
    obj_state: ObjState,
    coins: i32,
    ev_desc: &str,
) -> (r: Result<Event, MutationError>)
    requires
        old(ledger)@.wf(),
    ensures
        final(ledger)@.wf(),
        r is Ok <==> has_room(old(ledger)@.store.log),
        r matches Err(e) ==> e == MutationError::StorageFailure(StorageError::IdsExhausted)
            && final(ledger)@ == old(ledger)@,
        r matches Ok(event) ==> recorded_mutation(
            old(ledger)@,
            final(ledger)@,
            event,
            *person,
            obj_state,
            coins,
            ev_desc@,
        ),
{
    let new_common = NewCommon { coins, person };
    let obj_id = person.object_id();
    let ghost before = ledger@;
    match insert_event_for_obj(
        &mut ledger.store,
        obj_id,
        &ledger.cur_span_frame,
        obj_state,
        ev_desc,
        new_common,
    ) {
        Err(e) => Err(MutationError::StorageFailure(e)),
        Ok(ev) => {
            proof {
                let log = ledger@.store.log;
                assert(log == before.store.log.push(log.last()));
                lemma_mutation_ids_push(before.store.log, log.last());
                lemma_created_push(before.store.log, log.last());
                assert(identified(log, ev.id as int) =~= set![ev.id]);
                assert(before.store.enabled.union(set![ev.id]) =~= before.store.enabled.insert(
                    ev.id,
                ));
            }
            sync_coin_store_events_partial(&mut ledger.store, ev.id);
            Ok(ev)
        },
    }
}

/// Adds `person` to the store with no coins, in the current node. A person
/// whom the store knows already is refused.
pub fn coin_store_add_user(ledger: &mut Ledger, person: &Person) -> (r: Result<
    Event,
    MutationError,
>)
    requires
        old(ledger)@.wf(),
    ensures
        final(ledger)@.wf(),
        r is Err ==> final(ledger)@ == old(ledger)@,
        r is Err ==> r->Err_0 == (if person_known(old(ledger)@.store.log, person@) {
            MutationError::UserAlreadyExists
        } else {
            MutationError::StorageFailure(StorageError::IdsExhausted)
        }),
        r is Ok <==> !person_known(old(ledger)@.store.log, person@) && has_room(
            old(ledger)@.store.log,
        ),
        r matches Ok(event) ==> recorded_mutation(
            old(ledger)@,
            final(ledger)@,
            event,
            *person,
            ObjState::Insert,
            0,
            "create user"@,
        ),
{
    if is_known(&ledger.store, person) {
        return Err(MutationError::UserAlreadyExists);
    }
    record(ledger, person, ObjState::Insert, 0, "create user")
}

/// Deletes `person` in the current node. A person whom the store does not
/// know is refused.
pub fn coin_store_delete_user(ledger: &mut Ledger, person: &Person) -> (r: Result<
    Event,
    MutationError,
>)
    requires
        old(ledger)@.wf(),
    ensures
        final(ledger)@.wf(),
        r is Err ==> final(ledger)@ == old(ledger)@,
        r is Err ==> r->Err_0 == (if !person_known(old(ledger)@.store.log, person@) {
            MutationError::UserDoesNotExist
        } else {
            MutationError::StorageFailure(StorageError::IdsExhausted)
        }),
        r is Ok <==> person_known(old(ledger)@.store.log, person@) && has_room(
            old(ledger)@.store.log,
        ),
        r matches Ok(event) ==> recorded_mutation(
            old(ledger)@,
            final(ledger)@,
            event,
            *person,
            ObjState::Delete,
            0,
            "create user"@,
        ),
{
    if !is_known(&ledger.store, person) {
        return Err(MutationError::UserDoesNotExist);
    }
    record(ledger, person, ObjState::Delete, 0, "create user")
}

/// What an adjustment of `coins`, added or taken, comes to for a person.
pub open spec fn adjustment_outcome(log: Seq<Recorded>, name: Seq<char>, coins: u32) -> Result<
    (),
    MutationError,
> {
    if !person_known(log, name) {
        Err(MutationError::UserDoesNotExist)
    } else if coins > i32::MAX {
        Err(MutationError::AmountOutOfRange)
    } else if !has_room(log) {
        Err(MutationError::StorageFailure(StorageError::IdsExhausted))
    } else {
        Ok(())
    }
}

/// Adds `coins` to the balance of `person` in the current node.
pub fn coin_store_income(ledger: &mut Ledger, person: &Person, coins: u32, desc: &str) -> (r:
    Result<Event, MutationError>)
    requires
        old(ledger)@.wf(),
    ensures
        final(ledger)@.wf(),
        r is Err ==> final(ledger)@ == old(ledger)@,
        r is Err ==> Err::<(), MutationError>(r->Err_0) == adjustment_outcome(
            old(ledger)@.store.log,
            person@,
            coins,
        ),
        r is Ok <==> adjustment_outcome(old(ledger)@.store.log, person@, coins) is Ok,
        r matches Ok(event) ==> recorded_mutation(
            old(ledger)@,
            final(ledger)@,
            event,
            *person,
            ObjState::Update,
            coins as i32,
            desc@,
        ),
{
    if !is_known(&ledger.store, person) {
        return Err(MutationError::UserDoesNotExist);
    }
    if coins > 0x7fff_ffff {
        return Err(MutationError::AmountOutOfRange);
    }
    record(ledger, person, ObjState::Update, coins as i32, desc)
}

/// Takes `coins` from the balance of `person` in the current node.
pub fn coin_store_expense(ledger: &mut Ledger, person: &Person, coins: u32, desc: &str) -> (r:
    Result<Event, MutationError>)
    requires
        old(ledger)@.wf(),
    ensures
        final(ledger)@.wf(),
        r is Err ==> final(ledger)@ == old(ledger)@,
        r is Err ==> Err::<(), MutationError>(r->Err_0) == adjustment_outcome(
            old(ledger)@.store.log,
            person@,
            coins,
        ),
        r is Ok <==> adjustment_outcome(old(ledger)@.store.log, person@, coins) is Ok,
        r matches Ok(event) ==> recorded_mutation(
            old(ledger)@,
            final(ledger)@,
            event,
            *person,
            ObjState::Update,
            (-(coins as int)) as i32,
            desc@,
        ),
{
    if !is_known(&ledger.store, person) {
        return Err(MutationError::UserDoesNotExist);
    }
    if coins > 0x7fff_ffff {
        return Err(MutationError::AmountOutOfRange);
    }
    record(ledger, person, ObjState::Update, -(coins as i32), desc)
}

/// Toggle by id: flips the mutation with event id `ev_id_toggled` between
/// enabled and disabled, and leaves every other mutation as it is.
pub fn coin_store_toggle_by_id(ledger: &mut Ledger, ev_id_toggled: u32)
    requires
        old(ledger)@.wf(),
    ensures
        final(ledger)@.wf(),
        final(ledger)@.cur_span_frame == old(ledger)@.cur_span_frame,
        final(ledger)@.store.log == old(ledger)@.store.log,
        final(ledger)@.store.enabled == flipped(
            old(ledger)@.store.enabled,
            identified(old(ledger)@.store.log, ev_id_toggled as int),
        ),
{
    toggle_by_id(&mut ledger.store, ev_id_toggled);
}

/// Toggle by description: flips every mutation whose description contains
/// `desc_to_filter`, and leaves every other mutation as it is.
pub fn coin_store_undo_toggle_by_desc(ledger: &mut Ledger, desc_to_filter: &str)
    requires
        old(ledger)@.wf(),
    ensures
        final(ledger)@.wf(),
        final(ledger)@.cur_span_frame == old(ledger)@.cur_span_frame,
        final(ledger)@.store.log == old(ledger)@.store.log,
        final(ledger)@.store.enabled == flipped(
            old(ledger)@.store.enabled,
            described(old(ledger)@.store.log, desc_to_filter@),
        ),
{
    toggle_by_description(&mut ledger.store, desc_to_filter);
}

} // verus!
