//! Balances: what the rows of a projection add up to, object by object, in
//! one span/frame node.

use vstd::prelude::*;

use crate::coin_store::records::{EventGrouped, Hist};
use crate::coin_store::store::contains_id;
use crate::schema::{EventAction, ObjState};
use crate::span_frame::SpanFrame;

verus! {

/// True when `row` belongs to object `obj_id` in the node `node`.
pub open spec fn in_group(row: EventGrouped, node: SpanFrame, obj_id: i32) -> bool {
    row.grp_span == node.span && row.grp_frame == node.frame && row.obj_id == obj_id
}

/// The sum of the coins of the rows of one object in one node.
pub open spec fn balance(rows: Seq<EventGrouped>, node: SpanFrame, obj_id: i32) -> int
    decreases rows.len(),
{
    if rows.len() == 0 {
        0
    } else {
        balance(rows.drop_last(), node, obj_id) + if in_group(rows.last(), node, obj_id) {
            rows.last().coins as int
        } else {
            0
        }
    }
}

/// The last row of one object in one node.
pub open spec fn latest_of(rows: Seq<EventGrouped>, node: SpanFrame, obj_id: i32) -> Option<
    EventGrouped,
>
    decreases rows.len(),
{
    if rows.len() == 0 {
        None
    } else if in_group(rows.last(), node, obj_id) {
        Some(rows.last())
    } else {
        latest_of(rows.drop_last(), node, obj_id)
    }
}

/// The objects that have a row in `node`, each once, in the order in which
/// they first occur.
pub open spec fn objects_of(rows: Seq<EventGrouped>, node: SpanFrame) -> Seq<i32>
    decreases rows.len(),
{
    if rows.len() == 0 {
        Seq::empty()
    } else {
        let earlier = objects_of(rows.drop_last(), node);
        let row = rows.last();
        if row.grp_span == node.span && row.grp_frame == node.frame && !earlier.contains(
            row.obj_id,
        ) {
            earlier.push(row.obj_id)
        } else {
            earlier
        }
    }
}

/// The balance row of an object whose last row is `latest`.
pub open spec fn hist_row(latest: EventGrouped, state: ObjState, total: int) -> Hist {
    Hist {
        id: latest.ev_id,
        grp_id: latest.obj_id,
        grp_span: latest.grp_span,
        grp_frame: latest.grp_frame,
        obj_id: latest.obj_id,
        obj_state: state,
        person: latest.person,
        coins: total as i64,
    }
}

/// The balance rows of the given objects: for each object whose last row in
/// `node` is an insert or an update, one row with the sum of its coins there.
/// An object whose last row is a delete has none.
pub open spec fn hist_of(rows: Seq<EventGrouped>, node: SpanFrame, objects: Seq<i32>) -> Seq<Hist>
    decreases objects.len(),
{
    if objects.len() == 0 {
        Seq::empty()
    } else {
        let earlier = hist_of(rows, node, objects.drop_last());
        let obj_id = objects.last();
        match latest_of(rows, node, obj_id) {
            Some(latest) => match latest.ev_action {
                EventAction::Insert => earlier.push(
                    hist_row(latest, ObjState::Insert, balance(rows, node, obj_id)),
                ),
                EventAction::Update => earlier.push(
                    hist_row(latest, ObjState::Update, balance(rows, node, obj_id)),
                ),
                _ => earlier,
            },
            None => earlier,
        }
    }
}

/// The balances of a node: see [`hist_of`], over the objects of the node in
/// the order in which they first occur.
pub open spec fn hist(rows: Seq<EventGrouped>, node: SpanFrame) -> Seq<Hist> {
    hist_of(rows, node, objects_of(rows, node))
}

/// A balance over `n` rows lies within `n` times the range of one amount.
pub proof fn lemma_balance_bound(rows: Seq<EventGrouped>, node: SpanFrame, obj_id: i32)
    ensures
        -0x8000_0000 * rows.len() <= balance(rows, node, obj_id) <= 0x8000_0000 * rows.len(),
    decreases rows.len(),
{
    if rows.len() > 0 {
        lemma_balance_bound(rows.drop_last(), node, obj_id);
    }
}

/// The objects that have a row in `node`.
pub fn find_objects(rows: &Vec<EventGrouped>, node: &SpanFrame) -> (objects: Vec<i32>)
    ensures
        objects@ == objects_of(rows@, *node),
{
    let mut objects: Vec<i32> = Vec::new();
    let mut i: usize = 0;
    while i < rows.len()
        invariant
            i <= rows.len(),
            objects@ == objects_of(rows@.take(i as int), *node),
        decreases rows.len() - i,
    {
        proof {
            assert(rows@.take(i + 1).drop_last() == rows@.take(i as int));
            assert(rows@.take(i + 1).last() == rows@[i as int]);
        }
        let row = &rows[i];
        if row.grp_span == node.span && row.grp_frame == node.frame
            && !contains_id(&objects, row.obj_id) {
            objects.push(row.obj_id);
        }
        i = i + 1;
    }
    proof {
        assert(rows@.take(rows@.len() as int) == rows@);
    }
    objects
}

/// The balance row of one object in one node, if it has one.
pub fn balance_row(rows: &Vec<EventGrouped>, node: &SpanFrame, obj_id: i32) -> (r: Option<Hist>)
    requires
        rows@.len() <= i32::MAX,
    ensures
        r == match latest_of(rows@, *node, obj_id) {
            Some(latest) => match latest.ev_action {
                EventAction::Insert => Some(
                    hist_row(latest, ObjState::Insert, balance(rows@, *node, obj_id)),
                ),
                EventAction::Update => Some(
                    hist_row(latest, ObjState::Update, balance(rows@, *node, obj_id)),
                ),
                _ => None,
            },
            None => None,
        },
{
    let mut total: i64 = 0;
    let mut latest: Option<usize> = None;
    let mut i: usize = 0;
    while i < rows.len()
        invariant
            i <= rows.len(),
            rows@.len() <= i32::MAX,
            total == balance(rows@.take(i as int), *node, obj_id),
            match latest {
                Some(k) => k < i && latest_of(rows@.take(i as int), *node, obj_id) == Some(
                    rows@[k as int],
                ),
                None => latest_of(rows@.take(i as int), *node, obj_id) is None,
            },
        decreases rows.len() - i,
    {
        proof {
            assert(rows@.take(i + 1).drop_last() == rows@.take(i as int));
            assert(rows@.take(i + 1).last() == rows@[i as int]);
            lemma_balance_bound(rows@.take(i as int), *node, obj_id);
            assert(0x8000_0000 * (i as int) <= 0x8000_0000 * 0x7fff_ffff) by (nonlinear_arith)
                requires
                    i <= 0x7fff_ffff,
            ;
        }
        let row = &rows[i];
        if row.grp_span == node.span && row.grp_frame == node.frame && row.obj_id == obj_id {
            total = total + row.coins as i64;
            latest = Some(i);
        }
        i = i + 1;
    }
    proof {
        assert(rows@.take(rows@.len() as int) == rows@);
        lemma_balance_bound(rows@, *node, obj_id);
    }
    match latest {
        Some(k) => {
            let last = &rows[k];
            match last.ev_action.to_obj_state() {
                Some(ObjState::Insert) => Some(make_hist(last, ObjState::Insert, total)),
                Some(ObjState::Update) => Some(make_hist(last, ObjState::Update, total)),
                _ => None,
            }
        },
        None => None,
    }
}

/// Builds a balance row.
fn make_hist(latest: &EventGrouped, state: ObjState, total: i64) -> (r: Hist)
    ensures
        r == hist_row(*latest, state, total as int),
{
    Hist {
        id: latest.ev_id,
        grp_id: latest.obj_id,
        grp_span: latest.grp_span,
        grp_frame: latest.grp_frame,
        obj_id: latest.obj_id,
        obj_state: state,
        person: latest.person.clone(),
        coins: total,
    }
}

/// The balances of the node `node` over the given rows.
pub fn get_hist(rows: &Vec<EventGrouped>, node: &SpanFrame) -> (r: Vec<Hist>)
    requires
        rows@.len() <= i32::MAX,
    ensures
        r@ == hist(rows@, *node),
{
    let objects = find_objects(rows, node);
    let mut out: Vec<Hist> = Vec::new();
    let mut i: usize = 0;
    while i < objects.len()
        invariant
            i <= objects.len(),
            rows@.len() <= i32::MAX,
            out@ == hist_of(rows@, *node, objects@.take(i as int)),
        decreases objects.len() - i,
    {
        proof {
            assert(objects@.take(i + 1).drop_last() == objects@.take(i as int));
            assert(objects@.take(i + 1).last() == objects@[i as int]);
        }
        match balance_row(rows, node, objects[i]) {
            Some(row) => {
                out.push(row);
            },
            None => {},
        }
        i = i + 1;
    }
    proof {
        assert(objects@.take(objects@.len() as int) == objects@);
    }
    out
}

} // verus!
