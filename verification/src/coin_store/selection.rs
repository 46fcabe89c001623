//! The enabled subset of the mutations of a coin store, and the operations
//! that replace it.
//!
//! Each operation rewrites the whole subset from the grouped projection, so
//! the subset never holds an id that the projection lacks.

use vstd::prelude::*;

use crate::coin_store::log::{is_mutation_with_id, log_wf, mutation_ids, Recorded};
use crate::coin_store::records::EventGrouped;
use crate::coin_store::store::CoinStore;

verus! {

/// Why a set of rows was refused as the enabled subset.
#[derive(Debug, Clone, Copy, PartialEq, Eq, Structural)]
pub enum SelectionError {
    /// A row names an event that is no mutation of the log.
    UnknownEvent { ev_id: i32 },
}

/// True when `needle` occurs in `text` as a run of consecutive characters.
pub open spec fn has_substring(text: Seq<char>, needle: Seq<char>) -> bool {
    exists|i: int|
        0 <= i <= text.len() - needle.len() && #[trigger] text.subrange(i, i + needle.len())
            == needle
}

/// Calls `str::contains` with a string as the pattern, which is true exactly
/// when the pattern occurs in the text as a substring.
#[verifier::external_body]
fn text_contains(text: &str, needle: &str) -> (r: bool)
    ensures
        r == has_substring(text@, needle@),
{
    text.contains(needle)
}

/// The set in which exactly the members of `targets` have changed sides.
pub open spec fn flipped(enabled: Set<i32>, targets: Set<i32>) -> Set<i32> {
    Set::new(|id: i32| enabled.contains(id) != targets.contains(id))
}

/// The mutation with event id `target`, if the log has one: a set of one id
/// or of none.
pub open spec fn identified(log: Seq<Recorded>, target: int) -> Set<i32> {
    Set::new(|id: i32| mutation_ids(log).contains(id) && id == target)
}

/// The ids of the mutations whose description contains `needle`.
pub open spec fn described(log: Seq<Recorded>, needle: Seq<char>) -> Set<i32> {
    Set::new(
        |id: i32|
            exists|i: int|
                0 <= i < log.len() && is_mutation_with_id(#[trigger] log[i], id) && has_substring(
                    log[i].event.ev_desc@,
                    needle,
                ),
    )
}

/// The ids of the mutations that are marked in `keep`, which has a mark for
/// each entry of the log.
pub open spec fn kept_ids(log: Seq<Recorded>, keep: Seq<bool>, upto: int) -> Set<i32> {
    Set::new(
        |id: i32|
            exists|i: int| 0 <= i < upto && is_mutation_with_id(#[trigger] log[i], id) && keep[i],
    )
}

/// The event ids of a sequence of rows.
pub open spec fn row_ids(rows: Seq<EventGrouped>) -> Set<i32> {
    Set::new(|id: i32| exists|i: int| 0 <= i < rows.len() && (#[trigger] rows[i]).ev_id == id)
}

/// A toggle is its own inverse: flipping the same mutations twice, by id or
/// by description, restores the enabled subset.
pub proof fn lemma_toggle_twice(enabled: Set<i32>, targets: Set<i32>)
    ensures
        flipped(flipped(enabled, targets), targets) == enabled,
{
    assert(flipped(flipped(enabled, targets), targets) =~= enabled);
}

/// A toggle by description spares every mutation whose description does not
/// contain the text: it is enabled after the toggle exactly if it was before.
pub proof fn lemma_toggle_by_description_spares(
    log: Seq<Recorded>,
    enabled: Set<i32>,
    needle: Seq<char>,
    i: int,
)
    requires
        log_wf(log),
        0 <= i < log.len(),
        log[i].diff is Some,
        !has_substring(log[i].event.ev_desc@, needle),
    ensures
        flipped(enabled, described(log, needle)).contains(log[i].event.id) == enabled.contains(
            log[i].event.id,
        ),
{
    let id = log[i].event.id;
    if described(log, needle).contains(id) {
        let m = choose|m: int|
            0 <= m < log.len() && is_mutation_with_id(#[trigger] log[m], id) && has_substring(
                log[m].event.ev_desc@,
                needle,
            );
        if m < i {
            assert(log[m].event.id < log[i].event.id);
        } else if i < m {
            assert(log[i].event.id < log[m].event.id);
        }
    }
}

/// Enables exactly the marked mutations.
fn replace_enabled(store: &mut CoinStore, keep: &Vec<bool>)
    requires
        old(store)@.wf(),
        keep@.len() == old(store)@.log.len(),
    ensures
        final(store)@.wf(),
        final(store)@.log == old(store)@.log,
        final(store)@.enabled == kept_ids(old(store)@.log, keep@, keep@.len() as int),
{
    let mut ids: Vec<i32> = Vec::new();
    let mut i: usize = 0;
    let ghost log = store@.log;
    let n = store.entries().len();
    while i < n
        invariant
            i <= n,
            n == log.len(),
            n == keep@.len(),
            log == store@.log,
            ids@.to_set() == kept_ids(log, keep@, i as int),
        decreases n - i,
    {
        let ghost before = ids@;
        let entry = &store.entries()[i];
        if entry.diff.is_some() && keep[i] {
            ids.push(entry.event.id);
            proof {
                let id = entry.event.id;
                assert forall|k: i32| ids@.to_set().contains(k) <==> kept_ids(
                    log,
                    keep@,
                    i + 1,
                ).contains(k) by {
                    if ids@.contains(k) {
                        let j = choose|j: int| 0 <= j < ids@.len() && ids@[j] == k;
                        if j < before.len() {
                            assert(before[j] == k);
                            assert(before.to_set().contains(k));
                        } else {
                            assert(is_mutation_with_id(log[i as int], k));
                        }
                    }
                    if kept_ids(log, keep@, i + 1).contains(k) {
                        let j = choose|j: int|
                            0 <= j < i + 1 && is_mutation_with_id(#[trigger] log[j], k) && keep@[j];
                        if j < i {
                            assert(before.to_set().contains(k));
                            let m = choose|m: int| 0 <= m < before.len() && before[m] == k;
                            assert(ids@[m] == k);
                        } else {
                            assert(ids@[before.len() as int] == k);
                        }
                    }
                }
                assert(ids@.to_set() =~= kept_ids(log, keep@, i + 1));
            }
        } else {
            proof {
                assert forall|k: i32| kept_ids(log, keep@, i as int).contains(k) <==> kept_ids(
                    log,
                    keep@,
                    i + 1,
                ).contains(k) by {
                    if kept_ids(log, keep@, i + 1).contains(k) {
                        let j = choose|j: int|
                            0 <= j < i + 1 && is_mutation_with_id(#[trigger] log[j], k) && keep@[j];
                        assert(j < i);
                    }
                }
                assert(kept_ids(log, keep@, i as int) =~= kept_ids(log, keep@, i + 1));
            }
        }
        i = i + 1;
    }
    proof {
        assert forall|k: i32| ids@.to_set().contains(k) implies mutation_ids(log).contains(k) by {
            let j = choose|j: int|
                0 <= j < n && is_mutation_with_id(#[trigger] log[j], k) && keep@[j];
        }
    }
    store.set_partial(ids);
}

/// Enables the mutation with event id `new_event_id` next to those that are
/// enabled already. An id that is no mutation of the log changes nothing.
pub fn sync_coin_store_events_partial(store: &mut CoinStore, new_event_id: i32)
    requires
        old(store)@.wf(),
    ensures
        final(store)@.wf(),
        final(store)@.log == old(store)@.log,
        final(store)@.enabled == old(store)@.enabled.union(
            identified(old(store)@.log, new_event_id as int),
        ),
{
    let mut keep: Vec<bool> = Vec::new();
    let mut i: usize = 0;
    let n = store.entries().len();
    let ghost log = store@.log;
    let ghost enabled = store@.enabled;
    while i < n
        invariant
            i <= n,
            n == log.len(),
            log == store@.log,
            enabled == store@.enabled,
            keep@.len() == i,
            forall|j: int|
                0 <= j < i ==> keep@[j] == (enabled.contains(log[j].event.id) || log[j].event.id
                    == new_event_id),
        decreases n - i,
    {
        let id = store.entries()[i].event.id;
        keep.push(store.is_enabled(id) || id == new_event_id);
        i = i + 1;
    }
    proof {
        let want = enabled.union(identified(log, new_event_id as int));
        assert forall|k: i32| kept_ids(log, keep@, n as int).contains(k) <==> want.contains(k) by {
            if kept_ids(log, keep@, n as int).contains(k) {
                let j = choose|j: int|
                    0 <= j < n && is_mutation_with_id(#[trigger] log[j], k) && keep@[j];
                assert(mutation_ids(log).contains(k));
            }
            if want.contains(k) {
                assert(mutation_ids(log).contains(k));
                let j = choose|j: int| 0 <= j < log.len() && is_mutation_with_id(#[trigger] log[j], k);
                assert(keep@[j]);
            }
        }
        assert(kept_ids(log, keep@, n as int) =~= want);
    }
    replace_enabled(store, &keep);
}

/// Enables every mutation of the log.
pub fn set_coin_store_events_partial_to_full(store: &mut CoinStore)
    requires
        old(store)@.wf(),
    ensures
        final(store)@.wf(),
        final(store)@.log == old(store)@.log,
        final(store)@.enabled == mutation_ids(old(store)@.log),
{
    let mut keep: Vec<bool> = Vec::new();
    let mut i: usize = 0;
    let n = store.entries().len();
    let ghost log = store@.log;
    while i < n
        invariant
            i <= n,
            n == log.len(),
            keep@.len() == i,
            forall|j: int| 0 <= j < i ==> keep@[j],
        decreases n - i,
    {
        keep.push(true);
        i = i + 1;
    }
    proof {
        assert forall|k: i32| kept_ids(log, keep@, n as int).contains(k) <==> mutation_ids(
            log,
        ).contains(k) by {
            if kept_ids(log, keep@, n as int).contains(k) {
                let j = choose|j: int|
                    0 <= j < n && is_mutation_with_id(#[trigger] log[j], k) && keep@[j];
            }
            if mutation_ids(log).contains(k) {
                let j = choose|j: int| 0 <= j < log.len() && is_mutation_with_id(#[trigger] log[j], k);
                assert(keep@[j]);
            }
        }
        assert(kept_ids(log, keep@, n as int) =~= mutation_ids(log));
    }
    replace_enabled(store, &keep);
}

/// Enables every mutation of the log if none is enabled, and changes nothing
/// otherwise.
pub fn set_coin_store_events_partial_to_full_if_empty(store: &mut CoinStore)
    requires
        old(store)@.wf(),
    ensures
        final(store)@.wf(),
        final(store)@.log == old(store)@.log,
        final(store)@.enabled == if old(store)@.enabled == Set::<i32>::empty() {
            mutation_ids(old(store)@.log)
        } else {
            old(store)@.enabled
        },
{
    if store.none_enabled() {
        set_coin_store_events_partial_to_full(store);
    }
}

/// Flips the mutation with event id `ev_id_toggled`: enabled becomes
/// disabled, disabled becomes enabled, and every other mutation stays as it
/// is. An id that is no mutation of the log changes nothing.
pub fn toggle_by_id(store: &mut CoinStore, ev_id_toggled: u32)
    requires
        old(store)@.wf(),
    ensures
        final(store)@.wf(),
        final(store)@.log == old(store)@.log,
        final(store)@.enabled == flipped(
            old(store)@.enabled,
            identified(old(store)@.log, ev_id_toggled as int),
        ),
{
    let mut keep: Vec<bool> = Vec::new();
    let mut i: usize = 0;
    let n = store.entries().len();
    let ghost log = store@.log;
    let ghost enabled = store@.enabled;
    while i < n
        invariant
            i <= n,
            n == log.len(),
            log == store@.log,
            enabled == store@.enabled,
            keep@.len() == i,
            forall|j: int|
                0 <= j < i ==> keep@[j] == (enabled.contains(log[j].event.id) != (
                log[j].event.id as int == ev_id_toggled as int)),
        decreases n - i,
    {
        let id = store.entries()[i].event.id;
        let in_partial = store.is_enabled(id);
        let toggled_now = id >= 0 && ev_id_toggled <= 0x7fff_ffff && id as u32 == ev_id_toggled;
        keep.push(in_partial != toggled_now);
        i = i + 1;
    }
    proof {
        let want = flipped(enabled, identified(log, ev_id_toggled as int));
        assert forall|k: i32| kept_ids(log, keep@, n as int).contains(k) <==> want.contains(k) by {
            if kept_ids(log, keep@, n as int).contains(k) {
                let j = choose|j: int|
                    0 <= j < n && is_mutation_with_id(#[trigger] log[j], k) && keep@[j];
                assert(mutation_ids(log).contains(k));
            }
            if want.contains(k) {
                assert(mutation_ids(log).contains(k));
                let j = choose|j: int| 0 <= j < log.len() && is_mutation_with_id(#[trigger] log[j], k);
                assert(keep@[j]);
            }
        }
        assert(kept_ids(log, keep@, n as int) =~= want);
    }
    replace_enabled(store, &keep);
}

/// Flips every mutation whose description contains `desc_to_filter`, and
/// leaves every other mutation as it is.
pub fn toggle_by_description(store: &mut CoinStore, desc_to_filter: &str)
    requires
        old(store)@.wf(),
    ensures
        final(store)@.wf(),
        final(store)@.log == old(store)@.log,
        final(store)@.enabled == flipped(
            old(store)@.enabled,
            described(old(store)@.log, desc_to_filter@),
        ),
{
    let mut keep: Vec<bool> = Vec::new();
    let mut i: usize = 0;
    let n = store.entries().len();
    let ghost log = store@.log;
    let ghost enabled = store@.enabled;
    while i < n
        invariant
            i <= n,
            n == log.len(),
            log == store@.log,
            enabled == store@.enabled,
            keep@.len() == i,
            forall|j: int|
                0 <= j < i ==> keep@[j] == (enabled.contains(log[j].event.id) != has_substring(
                    log[j].event.ev_desc@,
                    desc_to_filter@,
                )),
        decreases n - i,
    {
        let event = &store.entries()[i].event;
        let in_partial = store.is_enabled(event.id);
        let toggled_now = text_contains(event.ev_desc.as_str(), desc_to_filter);
        keep.push(in_partial && !toggled_now || !in_partial && toggled_now);
        i = i + 1;
    }
    proof {
        let targets = described(log, desc_to_filter@);
        let want = flipped(enabled, targets);
        assert forall|k: i32| kept_ids(log, keep@, n as int).contains(k) <==> want.contains(k) by {
            if kept_ids(log, keep@, n as int).contains(k) {
                let j = choose|j: int|
                    0 <= j < n && is_mutation_with_id(#[trigger] log[j], k) && keep@[j];
                if targets.contains(k) {
                    let m = choose|m: int|
                        0 <= m < log.len() && is_mutation_with_id(#[trigger] log[m], k)
                            && has_substring(log[m].event.ev_desc@, desc_to_filter@);
                    assert(m == j) by {
                        if m < j {
                            assert(log[m].event.id < log[j].event.id);
                        } else if j < m {
                            assert(log[j].event.id < log[m].event.id);
                        }
                    }
                }
            }
            if want.contains(k) {
                if enabled.contains(k) {
                    assert(mutation_ids(log).contains(k));
                    let j = choose|j: int|
                        0 <= j < log.len() && is_mutation_with_id(#[trigger] log[j], k);
                    assert(keep@[j]);
                } else {
                    let m = choose|m: int|
                        0 <= m < log.len() && is_mutation_with_id(#[trigger] log[m], k)
                            && has_substring(log[m].event.ev_desc@, desc_to_filter@);
                    assert(keep@[m]);
                }
            }
        }
        assert(kept_ids(log, keep@, n as int) =~= want);
    }
    replace_enabled(store, &keep);
}

/// Replaces the enabled subset by the events of `events_grouped`, provided
/// each of them is a mutation of the log; else nothing changes and the first
/// stranger is reported.
pub fn set_events_grouped_partial(store: &mut CoinStore, events_grouped: &Vec<EventGrouped>) -> (r:
    Result<(), SelectionError>)
    requires
        old(store)@.wf(),
    ensures
        final(store)@.wf(),
        final(store)@.log == old(store)@.log,
        r is Ok <==> row_ids(events_grouped@).subset_of(mutation_ids(old(store)@.log)),
        r is Ok ==> final(store)@.enabled == row_ids(events_grouped@),
        r is Err ==> final(store)@.enabled == old(store)@.enabled,
        r matches Err(SelectionError::UnknownEvent { ev_id }) ==> row_ids(events_grouped@).contains(
            ev_id,
        ) && !mutation_ids(old(store)@.log).contains(ev_id),
{
    let mut ids: Vec<i32> = Vec::new();
    let mut i: usize = 0;
    let ghost log = store@.log;
    while i < events_grouped.len()
        invariant
            i <= events_grouped.len(),
            log == store@.log,
            store@.wf(),
            ids@.len() == i,
            forall|j: int| 0 <= j < i ==> ids@[j] == events_grouped@[j].ev_id,
            forall|j: int| 0 <= j < i ==> mutation_ids(log).contains(events_grouped@[j].ev_id),
        decreases events_grouped.len() - i,
    {
        let ev_id = events_grouped[i].ev_id;
        if !store.is_mutation_id(ev_id) {
            proof {
                assert(row_ids(events_grouped@).contains(ev_id));
            }
            return Err(SelectionError::UnknownEvent { ev_id });
        }
        ids.push(ev_id);
        i = i + 1;
    }
    proof {
        assert forall|k: i32| ids@.to_set().contains(k) <==> row_ids(events_grouped@).contains(
            k,
        ) by {
            if ids@.contains(k) {
                let j = choose|j: int| 0 <= j < ids@.len() && ids@[j] == k;
                assert(events_grouped@[j].ev_id == k);
            }
            if row_ids(events_grouped@).contains(k) {
                let j = choose|j: int|
                    0 <= j < events_grouped@.len() && (#[trigger] events_grouped@[j]).ev_id == k;
                assert(ids@[j] == k);
            }
        }
        assert(ids@.to_set() =~= row_ids(events_grouped@));
        assert forall|k: i32| row_ids(events_grouped@).contains(k) implies mutation_ids(
            log,
        ).contains(k) by {
            let j = choose|j: int|
                0 <= j < events_grouped@.len() && (#[trigger] events_grouped@[j]).ev_id == k;
        }
    }
    store.set_partial(ids);
    Ok(())
}

} // verus!
