//! Reading the grouped projection of a coin store.

use vstd::prelude::*;

use crate::coin_store::log::{
    events_grouped, events_grouped_partial, events_joined_enabled, grouped_row,
    lemma_events_grouped_len, lemma_ids_bound_length, occurrences, row_enabled,
};
use crate::coin_store::records::{Diff, Event, EventGrouped};
use crate::coin_store::store::CoinStore;
use crate::sequences::lemma_filter_push;

verus! {

/// The number of rows that belong to object `obj_id`.
pub fn count_occurrences(rows: &Vec<EventGrouped>, obj_id: i32) -> (n: usize)
    ensures
        n == occurrences(rows@, obj_id),
        n <= rows@.len(),
{
    let mut n: usize = 0;
    let mut i: usize = 0;
    while i < rows.len()
        invariant
            i <= rows.len(),
            n <= i,
            n == occurrences(rows@.take(i as int), obj_id),
        decreases rows.len() - i,
    {
        proof {
            assert(rows@.take(i + 1).drop_last() == rows@.take(i as int));
            assert(rows@.take(i + 1).last() == rows@[i as int]);
        }
        if rows[i].obj_id == obj_id {
            n = n + 1;
        }
        i = i + 1;
    }
    proof {
        assert(rows@.take(rows@.len() as int) == rows@);
    }
    n
}

/// Joins a mutation event with its diff.
fn join_row(event: &Event, diff: &Diff, dup: i32) -> (row: EventGrouped)
    requires
        dup >= 0,
    ensures
        row == grouped_row(*event, *diff, dup as nat),
{
    EventGrouped {
        id: event.id,
        grp_id: diff.obj_id,
        grp_span: event.span,
        grp_frame: event.frame,
        dup,
        ev_id: event.id,
        obj_id: diff.obj_id,
        ev_action: event.ev_action,
        span: event.span,
        frame: event.frame,
        created_on_ts: event.created_on_ts,
        person: diff.person.clone(),
        coins: diff.coins,
        ev_desc: event.ev_desc.clone(),
    }
}

/// The grouped projection of the store: one row for each mutation, in the
/// order of the event ids.
pub fn get_events_grouped(store: &CoinStore) -> (rows: Vec<EventGrouped>)
    requires
        store@.wf(),
    ensures
        rows@ == events_grouped(store@.log),
{
    let entries = store.entries();
    let mut rows: Vec<EventGrouped> = Vec::new();
    let mut i: usize = 0;
    proof {
        if entries@.len() > 0 {
            lemma_ids_bound_length(entries@, 0);
        }
    }
    while i < entries.len()
        invariant
            i <= entries.len(),
            entries@.len() <= i32::MAX,
            rows@ == events_grouped(entries@.take(i as int)),
        decreases entries.len() - i,
    {
        proof {
            assert(entries@.take(i + 1).drop_last() == entries@.take(i as int));
            assert(entries@.take(i + 1).last() == entries@[i as int]);
            lemma_events_grouped_len(entries@.take(i as int));
        }
        match &entries[i].diff {
            Some(diff) => {
                let seen = count_occurrences(&rows, diff.obj_id);
                let dup: i32 = (seen + 1) as i32;
                rows.push(join_row(&entries[i].event, diff, dup));
            },
            None => {},
        }
        i = i + 1;
    }
    proof {
        assert(entries@.take(entries@.len() as int) == entries@);
    }
    rows
}

/// The rows of the projection whose event is enabled.
pub fn get_events_grouped_partial(store: &CoinStore) -> (rows: Vec<EventGrouped>)
    requires
        store@.wf(),
    ensures
        rows@ == events_grouped_partial(store@.log, store@.enabled),
{
    let all = get_events_grouped(store);
    let mut rows: Vec<EventGrouped> = Vec::new();
    let mut i: usize = 0;
    let ghost pred = row_enabled(store@.enabled);
    proof {
        reveal(Seq::filter);
    }
    while i < all.len()
        invariant
            i <= all.len(),
            pred == row_enabled(store@.enabled),
            rows@ == all@.take(i as int).filter(pred),
        decreases all.len() - i,
    {
        proof {
            assert(all@.take(i + 1) == all@.take(i as int).push(all@[i as int]));
            lemma_filter_push(all@.take(i as int), all@[i as int], pred);
        }
        if store.is_enabled(all[i].ev_id) {
            rows.push(all[i].clone());
        }
        i = i + 1;
    }
    proof {
        assert(all@.take(all@.len() as int) == all@);
    }
    rows
}

/// The mutations of the store, oldest first, each with its diff and with a
/// mark that is set when it is enabled.
pub fn get_events_joined_enabled(store: &CoinStore) -> (rows: Vec<(bool, Event, Diff)>)
    ensures
        rows@ == events_joined_enabled(store@.log, store@.enabled),
{
    let entries = store.entries();
    let mut rows: Vec<(bool, Event, Diff)> = Vec::new();
    let mut i: usize = 0;
    while i < entries.len()
        invariant
            i <= entries.len(),
            rows@ == events_joined_enabled(entries@.take(i as int), store@.enabled),
        decreases entries.len() - i,
    {
        proof {
            assert(entries@.take(i + 1).drop_last() == entries@.take(i as int));
            assert(entries@.take(i + 1).last() == entries@[i as int]);
        }
        match &entries[i].diff {
            Some(diff) => {
                let event = &entries[i].event;
                rows.push((store.is_enabled(event.id), event.clone(), diff.clone()));
            },
            None => {},
        }
        i = i + 1;
    }
    proof {
        assert(entries@.take(entries@.len() as int) == entries@);
    }
    rows
}

} // verus!
