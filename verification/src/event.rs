//! The shared event value type: an optional identity, a start instant, a
//! signed span, and a structured payload. Instants and spans are absolute
//! nanosecond counts, so that all duration arithmetic is exact.

use vstd::prelude::*;

use crate::value::Value;
use crate::value::entries_eq;
use crate::value::entry_lists_eq;

verus! {

/// Every event instant and event end kept within this many nanoseconds of
/// the epoch; differences and running span totals of such events fit in
/// `i64` without overflow.
pub const TICK_BOUND: i64 = 0x2000_0000_0000_0000;

/// One observed or derived activity sample.
#[derive(Debug)]
pub struct Event {
    /// Caller-assigned identity; merged events are new, identity-less events.
    pub id: Option<i64>,
    /// The start of the event, in nanoseconds from the epoch.
    pub timestamp: i64,
    /// The signed span of the event, in nanoseconds; `end = timestamp + duration`.
    pub duration: i64,
    /// The structured payload, an ordered key/value mapping.
    pub data: Vec<(String, Value)>,
}

/// The instant at which an event ends.
pub open spec fn end_of(e: Event) -> int {
    e.timestamp + e.duration
}

/// Whether an event's start and end instants lie within [`TICK_BOUND`] of
/// the epoch, so that gaps and merged spans fit in `i64`.
pub open spec fn event_bounded(e: Event) -> bool {
    &&& -(TICK_BOUND as int) <= e.timestamp <= TICK_BOUND as int
    &&& -(TICK_BOUND as int) <= end_of(e) <= TICK_BOUND as int
}

/// Whether every event of a sequence is bounded.
pub open spec fn all_bounded(s: Seq<Event>) -> bool {
    forall|i: int| 0 <= i < s.len() ==> event_bounded(#[trigger] s[i])
}

/// Equality of two events: same identity, same instants, and deeply equal
/// payloads.
pub open spec fn event_eq(a: Event, b: Event) -> bool {
    &&& a.id == b.id
    &&& a.timestamp == b.timestamp
    &&& a.duration == b.duration
    &&& entries_eq(a.data@, b.data@)
}

impl PartialEq for Event {
    fn eq(&self, other: &Event) -> (r: bool) {
        let ids_eq = match (self.id, other.id) {
            (Option::None, Option::None) => true,
            (Option::Some(x), Option::Some(y)) => x == y,
            _ => false,
        };
        ids_eq && self.timestamp == other.timestamp && self.duration == other.duration
            && entry_lists_eq(&self.data, &other.data)
    }
}

impl vstd::std_specs::cmp::PartialEqSpecImpl for Event {
    open spec fn obeys_eq_spec() -> bool {
        true
    }

    open spec fn eq_spec(&self, other: &Event) -> bool {
        event_eq(*self, *other)
    }
}

} // verus!
