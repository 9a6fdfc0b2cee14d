//! Gap flooding: a left-to-right pass over a timestamp-ordered event
//! sequence that collapses a pair of adjacent events into one whenever the
//! silent gap between them is non-negative and at most `max_gap`, regardless
//! of payload content. Flooding its own output changes nothing.

use vstd::prelude::*;

use crate::event::Event;
use crate::event::all_bounded;
use crate::event::end_of;
use crate::event::event_bounded;

verus! {

/// Whether the event `b` may be absorbed into the event `a` standing right
/// before it: the gap from the end of `a` to the start of `b` is
/// non-negative (no overlap) and at most `max_gap`.
pub open spec fn flood_mergeable(a: Event, b: Event, max_gap: int) -> bool {
    0 <= b.timestamp - end_of(a) <= max_gap
}

/// The collapse of `b` into `a`: keeps `a`'s identity, payload and start,
/// and extends the span through the end of `b`.
pub open spec fn flood_merge(a: Event, b: Event) -> Event {
    Event { id: a.id, timestamp: a.timestamp, duration: (end_of(b) - a.timestamp) as i64, data: a.data }
}

/// The flooding pass with `acc` as the event being extended and `rest`
/// still to be scanned.
pub open spec fn flood_go(acc: Event, rest: Seq<Event>, max_gap: int) -> Seq<Event>
    decreases rest.len(),
{
    if rest.len() == 0 {
        seq![acc]
    } else if flood_mergeable(acc, rest[0], max_gap) {
        flood_go(flood_merge(acc, rest[0]), rest.drop_first(), max_gap)
    } else {
        seq![acc] + flood_go(rest[0], rest.drop_first(), max_gap)
    }
}

/// The flooded form of an event sequence.
pub open spec fn flood_spec(s: Seq<Event>, max_gap: int) -> Seq<Event> {
    if s.len() == 0 {
        Seq::empty()
    } else {
        flood_go(s[0], s.drop_first(), max_gap)
    }
}

/// Whether no adjacent pair of the sequence could still be collapsed.
pub open spec fn no_adjacent_merge(s: Seq<Event>, max_gap: int) -> bool {
    forall|i: int| 0 <= i < s.len() - 1 ==> !flood_mergeable(#[trigger] s[i], s[i + 1], max_gap)
}

/// Collapses every adjacent pair of events separated by a gap between zero
/// and `max_gap` nanoseconds, keeping the earlier event's identity and
/// payload; overlapping pairs and wider gaps pass through unchanged. The
/// input is expected to be sorted ascending by timestamp.
#[verifier::loop_isolation(false)]
pub fn flood(events: Vec<Event>, max_gap: i64) -> (r: Vec<Event>)
    requires
        all_bounded(events@),
    ensures
        r@ == flood_spec(events@, max_gap as int),
{
    let ghost orig = events@;
    let mut rest = events;
    let mut out: Vec<Event> = Vec::new();
    if rest.len() == 0 {
        return out;
    }
    let mut acc = rest.remove(0);
    proof {
        assert(rest@ =~= orig.drop_first());
        assert(event_bounded(acc));
    }
    while rest.len() > 0
        invariant
            event_bounded(acc),
            all_bounded(rest@),
            out@ + flood_go(acc, rest@, max_gap as int) == flood_spec(orig, max_gap as int),
        decreases rest@.len(),
    {
        let ghost rest0 = rest@;
        let e = rest.remove(0);
        proof {
            assert(e == rest0[0]);
            assert(rest@ =~= rest0.drop_first());
            assert(all_bounded(rest@)) by {
                assert(forall|i: int| 0 <= i < rest@.len() ==> rest@[i] == rest0[i + 1]);
            }
        }
        let acc_end = acc.timestamp + acc.duration;
        let gap = e.timestamp - acc_end;
        if 0 <= gap && gap <= max_gap {
            let e_end = e.timestamp + e.duration;
            acc.duration = e_end - acc.timestamp;
        } else {
            let prev = acc;
            acc = e;
            out.push(prev);
            proof {
                assert(out@ + flood_go(acc, rest@, max_gap as int) =~= (out@.drop_last()
                    + (seq![prev] + flood_go(acc, rest@, max_gap as int))));
            }
        }
    }
    out.push(acc);
    proof {
        assert(out@ =~= out@.drop_last() + seq![acc]);
    }
    out
}

proof fn lemma_flood_go_no_adjacent(acc: Event, rest: Seq<Event>, g: int)
    ensures
        no_adjacent_merge(flood_go(acc, rest, g), g),
        flood_go(acc, rest, g).len() > 0,
        flood_go(acc, rest, g)[0].timestamp == acc.timestamp,
    decreases rest.len(),
{
    if rest.len() == 0 {
    } else if flood_mergeable(acc, rest[0], g) {
        lemma_flood_go_no_adjacent(flood_merge(acc, rest[0]), rest.drop_first(), g);
    } else {
        let tail = flood_go(rest[0], rest.drop_first(), g);
        lemma_flood_go_no_adjacent(rest[0], rest.drop_first(), g);
        let res = seq![acc] + tail;
        assert forall|i: int| 0 <= i < res.len() - 1 implies !flood_mergeable(
            #[trigger] res[i],
            res[i + 1],
            g,
        ) by {
            if i == 0 {
                assert(res[1] == tail[0]);
                assert(!flood_mergeable(acc, tail[0], g));
            } else {
                assert(res[i] == tail[i - 1] && res[i + 1] == tail[i]);
            }
        }
    }
}

proof fn lemma_flood_go_identity(acc: Event, rest: Seq<Event>, g: int)
    requires
        no_adjacent_merge(seq![acc] + rest, g),
    ensures
        flood_go(acc, rest, g) == seq![acc] + rest,
    decreases rest.len(),
{
    let whole = seq![acc] + rest;
    if rest.len() == 0 {
        assert(flood_go(acc, rest, g) =~= whole);
    } else {
        assert(whole[0] == acc && whole[1] == rest[0]);
        assert(!flood_mergeable(acc, rest[0], g));
        assert(no_adjacent_merge(seq![rest[0]] + rest.drop_first(), g)) by {
            assert(seq![rest[0]] + rest.drop_first() =~= rest);
            assert(forall|i: int| 0 <= i < rest.len() ==> rest[i] == whole[i + 1]);
        }
        lemma_flood_go_identity(rest[0], rest.drop_first(), g);
        assert(flood_go(acc, rest, g) =~= whole);
    }
}

proof fn lemma_flood_go_len(acc: Event, rest: Seq<Event>, g: int)
    ensures
        flood_go(acc, rest, g).len() <= 1 + rest.len(),
    decreases rest.len(),
{
    if rest.len() > 0 {
        if flood_mergeable(acc, rest[0], g) {
            lemma_flood_go_len(flood_merge(acc, rest[0]), rest.drop_first(), g);
        } else {
            lemma_flood_go_len(rest[0], rest.drop_first(), g);
        }
    }
}

/// Flooding never lengthens a sequence.
pub proof fn lemma_flood_len(s: Seq<Event>, max_gap: int)
    ensures
        flood_spec(s, max_gap).len() <= s.len(),
{
    if s.len() > 0 {
        lemma_flood_go_len(s[0], s.drop_first(), max_gap);
    }
}

/// Flooding is idempotent: running the pass on its own output with the same
/// `max_gap` yields that output unchanged.
pub proof fn lemma_flood_idempotent(s: Seq<Event>, max_gap: int)
    ensures
        flood_spec(flood_spec(s, max_gap), max_gap) == flood_spec(s, max_gap),
{
    if s.len() > 0 {
        let once = flood_spec(s, max_gap);
        lemma_flood_go_no_adjacent(s[0], s.drop_first(), max_gap);
        assert(no_adjacent_merge(seq![once[0]] + once.drop_first(), max_gap)) by {
            assert(seq![once[0]] + once.drop_first() =~= once);
        }
        lemma_flood_go_identity(once[0], once.drop_first(), max_gap);
        assert(seq![once[0]] + once.drop_first() =~= once);
    }
}

} // verus!
