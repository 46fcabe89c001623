//! The action tags carried by every event of a ledger.

use vstd::prelude::*;

verus! {

/// What an event records: a mutation of an object, or a lifecycle marker of a
/// span/frame node.
#[derive(Debug, Clone, Copy, PartialEq, Eq, Structural)]
pub enum EventAction {
    Insert,
    Update,
    Delete,
    Open,
    Close,
    Reopen,
}

/// The three ways an object can be mutated.
#[derive(Debug, Clone, Copy, PartialEq, Eq, Structural)]
pub enum ObjState {
    Insert,
    Update,
    Delete,
}

impl EventAction {
    /// True for the three tags that mutate an object and therefore own a diff.
    pub open spec fn is_mutation(self) -> bool {
        self is Insert || self is Update || self is Delete
    }

    /// Executable form of [`EventAction::is_mutation`].
    pub fn mutates(&self) -> (r: bool)
        ensures
            r == self.is_mutation(),
    {
        match self {
            EventAction::Insert | EventAction::Update | EventAction::Delete => true,
            _ => false,
        }
    }

    /// The mutation kind behind a mutation tag; `None` for lifecycle markers.
    pub open spec fn obj_state(self) -> Option<ObjState> {
        match self {
            EventAction::Insert => Some(ObjState::Insert),
            EventAction::Update => Some(ObjState::Update),
            EventAction::Delete => Some(ObjState::Delete),
            _ => None,
        }
    }

    /// Executable form of [`EventAction::obj_state`].
    pub fn to_obj_state(&self) -> (r: Option<ObjState>)
        ensures
            r == self.obj_state(),
    {
        match self {
            EventAction::Insert => Some(ObjState::Insert),
            EventAction::Update => Some(ObjState::Update),
            EventAction::Delete => Some(ObjState::Delete),
            _ => None,
        }
    }
}

impl ObjState {
    /// The event tag that records this mutation kind.
    pub open spec fn action(self) -> EventAction {
        match self {
            ObjState::Insert => EventAction::Insert,
            ObjState::Update => EventAction::Update,
            ObjState::Delete => EventAction::Delete,
        }
    }
}

impl From<ObjState> for EventAction {
    fn from(value: ObjState) -> (r: Self) {
        match value {
            ObjState::Insert => Self::Insert,
            ObjState::Update => Self::Update,
            ObjState::Delete => Self::Delete,
        }
    }
}

impl vstd::std_specs::convert::FromSpecImpl<ObjState> for EventAction {
    open spec fn obeys_from_spec() -> bool {
        true
    }

    open spec fn from_spec(value: ObjState) -> Self {
        value.action()
    }
}

} // verus!
