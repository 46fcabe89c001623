//! Topics on which database events are announced to subscribers.

use vstd::prelude::*;

verus! {

/// Names the table whose changes a subscriber wants to hear about.
pub struct DbEventTopic {
    pub table_name: String,
}

/// Announces an event on `topic`. No subscriber registry exists yet, so the
/// topic is consumed and nothing else happens.
pub fn publish_db_event(topic: DbEventTopic) {
}

} // verus!
