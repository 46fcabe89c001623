//! The mathematical model of a coin store's log, and what is derived from it.

use vstd::prelude::*;

use crate::coin_store::records::{Diff, Event, EventGrouped};
use crate::span_frame::SpanFrame;

verus! {

/// One entry of the log: an event and, for a mutation, the diff it owns.
pub struct Recorded {
    pub event: Event,
    pub diff: Option<Diff>,
}

/// The id of the last event of the log; 0 for an empty log.
pub open spec fn last_event_id(log: Seq<Recorded>) -> int {
    if log.len() == 0 {
        0
    } else {
        log.last().event.id as int
    }
}

/// The id of the last diff of the log; 0 when there is none.
pub open spec fn last_diff_id(log: Seq<Recorded>) -> int
    decreases log.len(),
{
    if log.len() == 0 {
        0
    } else {
        match log.last().diff {
            Some(diff) => diff.id as int,
            None => last_diff_id(log.drop_last()),
        }
    }
}

/// An entry is sound when it is a mutation that owns and references a diff, or
/// a lifecycle marker that does neither.
pub open spec fn entry_wf(entry: Recorded) -> bool {
    &&& entry.event.id >= 1
    &&& entry.event.ev_action.is_mutation() <==> entry.diff is Some
    &&& match entry.diff {
        Some(diff) => diff.id >= 1 && entry.event.opt_diff_id == Some(diff.id),
        None => entry.event.opt_diff_id is None,
    }
}

/// The nodes that have been opened, in the order of their Open markers.
pub open spec fn created_span_frames(log: Seq<Recorded>) -> Seq<SpanFrame>
    decreases log.len(),
{
    if log.len() == 0 {
        Seq::empty()
    } else {
        let earlier = created_span_frames(log.drop_last());
        let event = log.last().event;
        if event.ev_action is Open {
            earlier.push(SpanFrame { span: event.span, frame: event.frame })
        } else {
            earlier
        }
    }
}

/// A log is sound when every entry is, event ids and diff ids grow along it,
/// and no node has been opened twice.
pub open spec fn log_wf(log: Seq<Recorded>) -> bool {
    &&& forall|i: int| 0 <= i < log.len() ==> entry_wf(#[trigger] log[i])
    &&& forall|i: int, j: int|
        0 <= i < j < log.len() ==> (#[trigger] log[i]).event.id < (#[trigger] log[j]).event.id
    &&& forall|i: int, j: int|
        0 <= i < j < log.len() && (#[trigger] log[i]).diff is Some && (
        #[trigger] log[j]).diff is Some ==> log[i].diff->Some_0.id < log[j].diff->Some_0.id
    &&& created_span_frames(log).no_duplicates()
}

/// The ids of the mutation events of the log.
pub open spec fn mutation_ids(log: Seq<Recorded>) -> Set<i32> {
    Set::new(
        |id: i32| exists|i: int| 0 <= i < log.len() && is_mutation_with_id(#[trigger] log[i], id),
    )
}

/// True when `entry` is a mutation whose event has this id.
pub open spec fn is_mutation_with_id(entry: Recorded, id: i32) -> bool {
    entry.diff is Some && entry.event.id == id
}

/// The number of rows that belong to object `obj_id`.
pub open spec fn occurrences(rows: Seq<EventGrouped>, obj_id: i32) -> nat
    decreases rows.len(),
{
    if rows.len() == 0 {
        0
    } else {
        occurrences(rows.drop_last(), obj_id) + if rows.last().obj_id == obj_id {
            1nat
        } else {
            0nat
        }
    }
}

/// The row that joins a mutation event with its diff, as occurrence `dup` of
/// its object.
pub open spec fn grouped_row(event: Event, diff: Diff, dup: nat) -> EventGrouped {
    EventGrouped {
        id: event.id,
        grp_id: diff.obj_id,
        grp_span: event.span,
        grp_frame: event.frame,
        dup: dup as i32,
        ev_id: event.id,
        obj_id: diff.obj_id,
        ev_action: event.ev_action,
        span: event.span,
        frame: event.frame,
        created_on_ts: event.created_on_ts,
        person: diff.person,
        coins: diff.coins,
        ev_desc: event.ev_desc,
    }
}

/// The grouped projection: one row for each mutation of the log, in log
/// order, each counted among the mutations of its object, first is 1.
pub open spec fn events_grouped(log: Seq<Recorded>) -> Seq<EventGrouped>
    decreases log.len(),
{
    if log.len() == 0 {
        Seq::empty()
    } else {
        let earlier = events_grouped(log.drop_last());
        match log.last().diff {
            Some(diff) => earlier.push(
                grouped_row(log.last().event, diff, occurrences(earlier, diff.obj_id) + 1),
            ),
            None => earlier,
        }
    }
}

/// The mutations of the log, each as its event and its diff, with a mark that
/// is set when the mutation is enabled.
pub open spec fn events_joined_enabled(log: Seq<Recorded>, enabled: Set<i32>) -> Seq<
    (bool, Event, Diff),
>
    decreases log.len(),
{
    if log.len() == 0 {
        Seq::empty()
    } else {
        let earlier = events_joined_enabled(log.drop_last(), enabled);
        match log.last().diff {
            Some(diff) => earlier.push(
                (enabled.contains(log.last().event.id), log.last().event, diff),
            ),
            None => earlier,
        }
    }
}

/// The test that keeps the rows whose event is enabled.
pub open spec fn row_enabled(enabled: Set<i32>) -> spec_fn(EventGrouped) -> bool {
    |row: EventGrouped| enabled.contains(row.ev_id)
}

/// The rows of the projection whose event is enabled.
pub open spec fn events_grouped_partial(log: Seq<Recorded>, enabled: Set<i32>) -> Seq<
    EventGrouped,
> {
    events_grouped(log).filter(row_enabled(enabled))
}

/// A row counts no more occurrences of its object than the projection holds:
/// its `dup` is at most the number of rows of its object.
pub proof fn lemma_dup_bound(log: Seq<Recorded>, i: int)
    requires
        log_wf(log),
        0 <= i < events_grouped(log).len(),
    ensures
        events_grouped(log).len() <= log.len(),
        1 <= events_grouped(log)[i].dup <= occurrences(
            events_grouped(log),
            events_grouped(log)[i].obj_id,
        ),
    decreases log.len(),
{
    let n = log.len() - 1;
    let init = log.drop_last();
    let earlier = events_grouped(init);
    lemma_wf_prefix(log, n);
    assert(log.take(n) == init);
    lemma_ids_bound_length(log, 0);
    if earlier.len() > 0 {
        lemma_dup_bound(init, 0);
    }
    lemma_occurrences_len(earlier, events_grouped(log)[i].obj_id);
    match log.last().diff {
        Some(diff) => {
            let rows = events_grouped(log);
            assert(rows.drop_last() == earlier);
            if i < earlier.len() {
                lemma_dup_bound(init, i);
            } else {
                lemma_occurrences_len(earlier, diff.obj_id);
            }
        },
        None => {
            lemma_dup_bound(init, i);
        },
    }
}

/// The projection has no more rows than the log has entries.
pub proof fn lemma_events_grouped_len(log: Seq<Recorded>)
    ensures
        events_grouped(log).len() <= log.len(),
    decreases log.len(),
{
    if log.len() > 0 {
        lemma_events_grouped_len(log.drop_last());
    }
}

/// An object has no more rows than there are.
pub proof fn lemma_occurrences_len(rows: Seq<EventGrouped>, obj_id: i32)
    ensures
        occurrences(rows, obj_id) <= rows.len(),
    decreases rows.len(),
{
    if rows.len() > 0 {
        lemma_occurrences_len(rows.drop_last(), obj_id);
    }
}

/// Recording a mutation adds exactly one row to the projection, for the
/// object of the mutation, and the row's `dup` is greater than that of every
/// earlier row of the object.
pub proof fn lemma_mutation_adds_one_row(log: Seq<Recorded>, entry: Recorded)
    requires
        log_wf(log),
        log_wf(log.push(entry)),
        entry.diff is Some,
    ensures
        events_grouped(log.push(entry)).drop_last() == events_grouped(log),
        events_grouped(log.push(entry)).last().obj_id == entry.diff->Some_0.obj_id,
        events_grouped(log.push(entry)).last().ev_id == entry.event.id,
        occurrences(events_grouped(log.push(entry)), entry.diff->Some_0.obj_id) == occurrences(
            events_grouped(log),
            entry.diff->Some_0.obj_id,
        ) + 1,
        forall|obj_id: i32|
            obj_id != entry.diff->Some_0.obj_id ==> occurrences(
                events_grouped(log.push(entry)),
                obj_id,
            ) == occurrences(events_grouped(log), obj_id),
        forall|i: int|
            0 <= i < events_grouped(log).len() && (#[trigger] events_grouped(log)[i]).obj_id
                == entry.diff->Some_0.obj_id ==> events_grouped(log)[i].dup < events_grouped(
                log.push(entry),
            ).last().dup,
{
    let next = log.push(entry);
    let rows = events_grouped(log);
    let after = events_grouped(next);
    let obj_id = entry.diff->Some_0.obj_id;
    assert(next.drop_last() == log);
    assert(after.drop_last() == rows);
    lemma_occurrences_len(rows, obj_id);
    lemma_events_grouped_len(log);
    lemma_ids_bound_length(next, 0);
    assert(after.last().dup == occurrences(rows, obj_id) + 1);
    assert forall|i: int|
        0 <= i < rows.len() && (#[trigger] rows[i]).obj_id == obj_id implies rows[i].dup
        < after.last().dup by {
        lemma_dup_bound(log, i);
    }
}

/// The projection matches the mutations of the log one to one: its rows
/// carry the ids of the mutation events, each once, in ascending order, and
/// no other id.
pub proof fn lemma_projection_one_to_one(log: Seq<Recorded>)
    requires
        log_wf(log),
    ensures
        forall|i: int, j: int|
            0 <= i < j < events_grouped(log).len() ==> (#[trigger] events_grouped(log)[i]).ev_id
                < (#[trigger] events_grouped(log)[j]).ev_id,
        forall|i: int|
            0 <= i < events_grouped(log).len() ==> (#[trigger] events_grouped(log)[i]).ev_id
                <= last_event_id(log),
        forall|id: i32|
            mutation_ids(log).contains(id) <==> exists|i: int|
                0 <= i < events_grouped(log).len() && (#[trigger] events_grouped(log)[i]).ev_id
                    == id,
    decreases log.len(),
{
    let rows = events_grouped(log);
    if log.len() > 0 {
        let n = log.len() - 1;
        let init = log.drop_last();
        let earlier = events_grouped(init);
        lemma_wf_prefix(log, n);
        assert(log.take(n) == init);
        lemma_projection_one_to_one(init);
        lemma_last_ids(log);
        assert(init.len() > 0 ==> init.last() == log[n - 1]);
        assert(last_event_id(init) <= log[n].event.id);
        assert forall|i: int| 0 <= i < rows.len() implies (#[trigger] rows[i]).ev_id
            <= last_event_id(log) by {
            if i < earlier.len() {
                assert(rows[i] == earlier[i]);
            }
        }
        assert forall|i: int, j: int| 0 <= i < j < rows.len() implies (#[trigger] rows[i]).ev_id < (
        #[trigger] rows[j]).ev_id by {
            assert(rows[i] == earlier[i]);
            if j < earlier.len() {
                assert(rows[j] == earlier[j]);
            } else {
                assert(init.len() > 0);
                assert(log[n - 1].event.id < log[n].event.id);
            }
        }
        assert forall|id: i32| mutation_ids(log).contains(id) <==> exists|i: int|
            0 <= i < rows.len() && (#[trigger] rows[i]).ev_id == id by {
            if mutation_ids(log).contains(id) {
                let k = choose|k: int|
                    0 <= k < log.len() && is_mutation_with_id(#[trigger] log[k], id);
                if k < n {
                    assert(is_mutation_with_id(init[k], id));
                    assert(mutation_ids(init).contains(id));
                    let i = choose|i: int|
                        0 <= i < earlier.len() && (#[trigger] earlier[i]).ev_id == id;
                    assert(rows[i] == earlier[i]);
                } else {
                    assert(rows[rows.len() - 1].ev_id == id);
                }
            }
            if exists|i: int| 0 <= i < rows.len() && (#[trigger] rows[i]).ev_id == id {
                let i = choose|i: int| 0 <= i < rows.len() && (#[trigger] rows[i]).ev_id == id;
                if i < earlier.len() {
                    assert(rows[i] == earlier[i]);
                    assert(mutation_ids(init).contains(id));
                    let k = choose|k: int|
                        0 <= k < init.len() && is_mutation_with_id(#[trigger] init[k], id);
                    assert(is_mutation_with_id(log[k], id));
                } else {
                    assert(is_mutation_with_id(log[n], id));
                }
            }
        }
    }
}

/// No node is created twice: the created nodes of a sound log are all
/// different.
pub proof fn lemma_created_nodes_differ(log: Seq<Recorded>, i: int, j: int)
    requires
        log_wf(log),
        0 <= i < j < created_span_frames(log).len(),
    ensures
        created_span_frames(log)[i] != created_span_frames(log)[j],
{
}

/// A node stays created: what a prefix of the log has opened, the log has
/// opened.
pub proof fn lemma_created_stays(log: Seq<Recorded>, n: int, node: SpanFrame)
    requires
        0 <= n <= log.len(),
        created_span_frames(log.take(n)).contains(node),
    ensures
        created_span_frames(log).contains(node),
{
    lemma_created_prefix(log, n);
    let part = created_span_frames(log.take(n));
    let i = choose|i: int| 0 <= i < part.len() && part[i] == node;
    assert(created_span_frames(log)[i] == node);
}

/// In a sound log the event at position `i` has an id above `i`, so a log
/// holds fewer than 2^31 entries.
pub proof fn lemma_ids_bound_length(log: Seq<Recorded>, i: int)
    requires
        log_wf(log),
        0 <= i < log.len(),
    ensures
        log[i].event.id > i,
        log.len() <= i32::MAX,
    decreases i,
{
    if i > 0 {
        lemma_ids_bound_length(log, i - 1);
    }
    if i < log.len() - 1 {
        lemma_ids_bound_length_up(log, i, log.len() - 1);
    }
}

proof fn lemma_ids_bound_length_up(log: Seq<Recorded>, i: int, k: int)
    requires
        log_wf(log),
        0 <= i <= k < log.len(),
        log[i].event.id > i,
    ensures
        log[k].event.id > k,
    decreases k - i,
{
    if i < k {
        assert(log[i].event.id < log[i + 1].event.id);
        lemma_ids_bound_length_up(log, i + 1, k);
    }
}

/// Every id of the log, of an event or of a diff, is at most the last one.
pub proof fn lemma_last_ids(log: Seq<Recorded>)
    requires
        log_wf(log),
    ensures
        0 <= last_event_id(log) <= i32::MAX,
        0 <= last_diff_id(log) <= i32::MAX,
        forall|i: int| 0 <= i < log.len() ==> (#[trigger] log[i]).event.id <= last_event_id(log),
        forall|i: int|
            0 <= i < log.len() && (#[trigger] log[i]).diff is Some ==> log[i].diff->Some_0.id
                <= last_diff_id(log),
    decreases log.len(),
{
    if log.len() > 0 {
        let init = log.drop_last();
        lemma_wf_prefix(log, log.len() - 1);
        assert(log.take(log.len() - 1) == init);
        lemma_last_ids(init);
        assert(entry_wf(log[log.len() - 1]));
        assert forall|i: int|
            0 <= i < log.len() && (#[trigger] log[i]).diff is Some implies log[i].diff->Some_0.id
            <= last_diff_id(log) by {
            if i < log.len() - 1 {
                assert(init[i] == log[i]);
                if log.last().diff is Some {
                    assert(log[i].diff->Some_0.id < log[log.len() - 1].diff->Some_0.id);
                }
            }
        }
    }
}

/// The nodes opened by a prefix of the log are a prefix of the nodes opened
/// by the log.
pub proof fn lemma_created_prefix(log: Seq<Recorded>, n: int)
    requires
        0 <= n <= log.len(),
    ensures
        created_span_frames(log.take(n)).len() <= created_span_frames(log).len(),
        created_span_frames(log.take(n)) == created_span_frames(log).take(
            created_span_frames(log.take(n)).len() as int,
        ),
    decreases log.len(),
{
    if n == log.len() {
        assert(log.take(n) == log);
    } else {
        let init = log.drop_last();
        lemma_created_prefix(init, n);
        assert(init.take(n) == log.take(n));
        let part = created_span_frames(log.take(n));
        assert(created_span_frames(init).take(part.len() as int) == created_span_frames(log).take(
            part.len() as int,
        ));
    }
}

/// Every prefix of a sound log is sound.
pub proof fn lemma_wf_prefix(log: Seq<Recorded>, n: int)
    requires
        log_wf(log),
        0 <= n <= log.len(),
    ensures
        log_wf(log.take(n)),
{
    let part = log.take(n);
    lemma_created_prefix(log, n);
    let created = created_span_frames(log);
    let sub = created_span_frames(part);
    assert forall|i: int, j: int| 0 <= i < sub.len() && 0 <= j < sub.len() && i != j implies sub[i]
        != sub[j] by {
        assert(sub[i] == created[i]);
        assert(sub[j] == created[j]);
    }
}

/// Appending a sound entry whose ids are new, and which opens no node that
/// exists, keeps a log sound.
pub proof fn lemma_wf_push(log: Seq<Recorded>, entry: Recorded)
    requires
        log_wf(log),
        entry_wf(entry),
        entry.event.id > last_event_id(log),
        entry.diff is Some ==> entry.diff->Some_0.id > last_diff_id(log),
        entry.event.ev_action is Open ==> !created_span_frames(log).contains(
            SpanFrame { span: entry.event.span, frame: entry.event.frame },
        ),
    ensures
        log_wf(log.push(entry)),
        last_event_id(log.push(entry)) == entry.event.id,
        last_diff_id(log.push(entry)) == (match entry.diff {
            Some(diff) => diff.id as int,
            None => last_diff_id(log),
        }),
{
    let next = log.push(entry);
    lemma_last_ids(log);
    assert(next.drop_last() == log);
    assert(next.last() == entry);
    let created = created_span_frames(log);
    if entry.event.ev_action is Open {
        let node = SpanFrame { span: entry.event.span, frame: entry.event.frame };
        let after = created.push(node);
        assert forall|i: int, j: int|
            0 <= i < after.len() && 0 <= j < after.len() && i != j implies after[i] != after[j] by {
            if i < created.len() && j < created.len() {
            } else if i < created.len() {
                assert(created.contains(created[i]));
            } else {
                assert(created.contains(created[j]));
            }
        }
    }
    assert forall|i: int, j: int| 0 <= i < j < next.len() implies (#[trigger] next[i]).event.id < (
    #[trigger] next[j]).event.id by {
        if j == log.len() {
            assert(next[i] == log[i]);
        }
    }
}

} // verus!
