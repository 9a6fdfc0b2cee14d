//! Pairwise merging of an accumulated event with an incoming heartbeat: the
//! two merge exactly when their payloads are deeply equal and the silent gap
//! between them does not exceed the pulsetime.

use vstd::prelude::*;

use crate::event::Event;
use crate::event::end_of;
use crate::event::event_bounded;
use crate::value::clone_entries;
use crate::value::entries_eq;
use crate::value::entry_lists_eq;

verus! {

/// Whether a heartbeat starting at `hb` may extend an accumulated event
/// `last`: its payload is deeply equal and the gap between the end of `last`
/// and the start of `hb` is at most `pulsetime` (a zero or negative gap
/// always qualifies).
pub open spec fn heartbeat_merges(last: Event, hb: Event, pulsetime: int) -> bool {
    &&& entries_eq(last.data@, hb.data@)
    &&& hb.timestamp - end_of(last) <= pulsetime
}

/// Merges the heartbeat into the accumulated event when the payloads are
/// deeply equal and the gap is within `pulsetime` nanoseconds; otherwise
/// reports that no merge is possible. The merged event is identity-less,
/// keeps the accumulated start, and spans to the end of the heartbeat.
pub fn heartbeat(last_event: &Event, hb: &Event, pulsetime: i64) -> (r: Option<Event>)
    requires
        event_bounded(*last_event),
        event_bounded(*hb),
    ensures
        match r {
            Some(m) => {
                &&& heartbeat_merges(*last_event, *hb, pulsetime as int)
                &&& m.id is None
                &&& m.timestamp == last_event.timestamp
                &&& m.duration == end_of(*hb) - last_event.timestamp
                &&& entries_eq(m.data@, last_event.data@)
            },
            None => !heartbeat_merges(*last_event, *hb, pulsetime as int),
        },
{
    if !entry_lists_eq(&last_event.data, &hb.data) {
        return None;
    }
    let last_end = last_event.timestamp + last_event.duration;
    let gap = hb.timestamp - last_end;
    if gap <= pulsetime {
        let hb_end = hb.timestamp + hb.duration;
        Some(
            Event {
                id: None,
                timestamp: last_event.timestamp,
                duration: hb_end - last_event.timestamp,
                data: clone_entries(&last_event.data),
            },
        )
    } else {
        None
    }
}

} // verus!
