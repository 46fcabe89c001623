//! The rows of a coin store: diffs, events, and what is derived from them.

use vstd::prelude::*;

use crate::person::Person;
use crate::schema::{EventAction, ObjState};

verus! {

/// The payload that every record of a coin store carries.
#[derive(Debug, PartialEq, Eq)]
pub struct Common {
    pub person: Person,
    pub coins: i32,
}

/// Gives the payload of a record.
pub trait GetCommon {
    /// The payload, as a specification value.
    spec fn common(&self) -> Common;

    /// A copy of the payload.
    fn get_common(&self) -> (r: Common)
        ensures
            r == self.common(),
    ;
}

/// The payload of a mutation that is about to be recorded.
#[derive(Debug)]
pub struct NewCommon<'a> {
    pub coins: i32,
    pub person: &'a Person,
}

/// A diff that has not been given an id yet.
#[derive(Debug)]
pub struct NewDiff<'a> {
    pub obj_id: i32,
    pub coins: i32,
    pub person: &'a Person,
}

/// The payload of one mutation.
#[derive(Debug, PartialEq, Eq)]
pub struct Diff {
    pub id: i32,
    pub obj_id: i32,
    pub person: Person,
    pub coins: i32,
}

/// An event that has not been given an id yet.
#[derive(Debug)]
pub struct NewEvent<'a> {
    pub opt_diff_id: Option<i32>,
    pub ev_action: EventAction,
    pub span: i32,
    pub frame: i32,
    pub created_on_ts: i64,
    pub ev_desc: &'a str,
}

/// One entry of the append-only log: a mutation, which owns a diff, or a
/// lifecycle marker of a span/frame node, which owns none. `created_on_ts`
/// counts milliseconds since the Unix epoch.
#[derive(Debug, PartialEq, Eq)]
pub struct Event {
    pub id: i32,
    pub opt_diff_id: Option<i32>,
    pub ev_action: EventAction,
    pub span: i32,
    pub frame: i32,
    pub created_on_ts: i64,
    pub ev_desc: String,
}

/// A mutation event joined with its diff, annotated with the group it belongs
/// to (its object, in the span/frame node that owns it) and with `dup`, the
/// number of mutations recorded for that object up to and including this one.
/// The row's own `id` is the id of its event.
#[derive(Debug, PartialEq, Eq)]
pub struct EventGrouped {
    pub id: i32,
    pub grp_id: i32,
    pub grp_span: i32,
    pub grp_frame: i32,
    pub dup: i32,
    pub ev_id: i32,
    pub obj_id: i32,
    pub ev_action: EventAction,
    pub span: i32,
    pub frame: i32,
    pub created_on_ts: i64,
    pub person: Person,
    pub coins: i32,
    pub ev_desc: String,
}

/// The balance of one object in one span/frame node.
#[derive(Debug, PartialEq, Eq)]
pub struct Hist {
    pub id: i32,
    pub grp_id: i32,
    pub grp_span: i32,
    pub grp_frame: i32,
    pub obj_id: i32,
    pub obj_state: ObjState,
    pub person: Person,
    pub coins: i64,
}

impl Clone for Common {
    fn clone(&self) -> (r: Self)
        ensures
            r == *self,
    {
        Common { person: self.person.clone(), coins: self.coins }
    }
}

impl Clone for Diff {
    fn clone(&self) -> (r: Self)
        ensures
            r == *self,
    {
        Diff { id: self.id, obj_id: self.obj_id, person: self.person.clone(), coins: self.coins }
    }
}

impl Clone for Event {
    fn clone(&self) -> (r: Self)
        ensures
            r == *self,
    {
        Event {
            id: self.id,
            opt_diff_id: self.opt_diff_id,
            ev_action: self.ev_action,
            span: self.span,
            frame: self.frame,
            created_on_ts: self.created_on_ts,
            ev_desc: self.ev_desc.clone(),
        }
    }
}

impl Clone for EventGrouped {
    fn clone(&self) -> (r: Self)
        ensures
            r == *self,
    {
        EventGrouped {
            id: self.id,
            grp_id: self.grp_id,
            grp_span: self.grp_span,
            grp_frame: self.grp_frame,
            dup: self.dup,
            ev_id: self.ev_id,
            obj_id: self.obj_id,
            ev_action: self.ev_action,
            span: self.span,
            frame: self.frame,
            created_on_ts: self.created_on_ts,
            person: self.person.clone(),
            coins: self.coins,
            ev_desc: self.ev_desc.clone(),
        }
    }
}

impl Clone for Hist {
    fn clone(&self) -> (r: Self)
        ensures
            r == *self,
    {
        Hist {
            id: self.id,
            grp_id: self.grp_id,
            grp_span: self.grp_span,
            grp_frame: self.grp_frame,
            obj_id: self.obj_id,
            obj_state: self.obj_state,
            person: self.person.clone(),
            coins: self.coins,
        }
    }
}

impl<'a> NewDiff<'a> {
    /// A diff for object `obj_id` with the given payload.
    pub fn new_with_common(obj_id: i32, new_common: NewCommon<'a>) -> (r: NewDiff<'a>)
        ensures
            r.obj_id == obj_id,
            r.coins == new_common.coins,
            r.person == new_common.person,
    {
        NewDiff { obj_id, coins: new_common.coins, person: new_common.person }
    }
}

impl GetCommon for Diff {
    open spec fn common(&self) -> Common {
        Common { person: self.person, coins: self.coins }
    }

    fn get_common(&self) -> (r: Common) {
        Common { person: self.person.clone(), coins: self.coins }
    }
}

impl GetCommon for EventGrouped {
    open spec fn common(&self) -> Common {
        Common { person: self.person, coins: self.coins }
    }

    fn get_common(&self) -> (r: Common) {
        Common { person: self.person.clone(), coins: self.coins }
    }
}

} // verus!
