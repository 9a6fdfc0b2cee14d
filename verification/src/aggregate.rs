//! Key-based aggregation: groups events whose payloads agree on every one of
//! a chosen set of keys, and reduces each group to one identity-less event
//! whose duration is the exact sum of the members' durations, starting at
//! the earliest member and carrying that member's whole payload. Events
//! missing any requested key are dropped from the output entirely.

use vstd::math::abs;
use vstd::prelude::*;

use crate::event::Event;
use crate::event::TICK_BOUND;
use crate::value::Value;
use crate::value::get_value;
use crate::value::has_key;
use crate::value::lookup;
use crate::value::val_eq;
use crate::value::value_eq;

verus! {

/// Whether the entry list holds every requested key.
pub open spec fn has_all_keys(d: Seq<(String, Value)>, keys: Seq<String>) -> bool {
    forall|i: int| 0 <= i < keys.len() ==> has_key(d, (#[trigger] keys[i])@)
}

/// Whether two payloads agree, by deep equality, on the value of every
/// requested key.
pub open spec fn keys_match(
    a: Seq<(String, Value)>,
    b: Seq<(String, Value)>,
    keys: Seq<String>,
) -> bool {
    forall|i: int|
        0 <= i < keys.len() ==> match (lookup(a, (#[trigger] keys[i])@), lookup(b, keys[i]@)) {
            (Some(x), Some(y)) => val_eq(x, y),
            _ => false,
        }
}

/// The first group whose payload agrees with `d` on every key, or
/// `gs.len()` when none does.
pub open spec fn find_group(gs: Seq<Event>, d: Seq<(String, Value)>, keys: Seq<String>) -> int
    decreases gs.len(),
{
    if gs.len() == 0 {
        0
    } else if keys_match(gs[0].data@, d, keys) {
        0
    } else {
        1 + find_group(gs.drop_first(), d, keys)
    }
}

/// Folds one more event into a group: durations add; the earlier start wins
/// and brings its whole payload along.
pub open spec fn merge_into(g: Event, e: Event) -> Event {
    if e.timestamp < g.timestamp {
        Event {
            id: g.id,
            timestamp: e.timestamp,
            duration: (g.duration + e.duration) as i64,
            data: e.data,
        }
    } else {
        Event {
            id: g.id,
            timestamp: g.timestamp,
            duration: (g.duration + e.duration) as i64,
            data: g.data,
        }
    }
}

/// One step of the aggregation fold: an event missing a key is dropped; one
/// matching an existing group is folded into it; any other opens a new,
/// identity-less group.
pub open spec fn aggregate_step(gs: Seq<Event>, e: Event, keys: Seq<String>) -> Seq<Event> {
    if !has_all_keys(e.data@, keys) {
        gs
    } else {
        let j = find_group(gs, e.data@, keys);
        if j < gs.len() {
            gs.update(j, merge_into(gs[j], e))
        } else {
            gs.push(Event { id: None, timestamp: e.timestamp, duration: e.duration, data: e.data })
        }
    }
}

/// The aggregation of an event sequence, folding its events in input order.
pub open spec fn aggregate_spec(s: Seq<Event>, keys: Seq<String>) -> Seq<Event>
    decreases s.len(),
{
    if s.len() == 0 {
        Seq::empty()
    } else {
        aggregate_step(aggregate_spec(s.drop_last(), keys), s.last(), keys)
    }
}

/// The sum of the absolute durations of a sequence of events.
pub open spec fn abs_dur_sum(s: Seq<Event>) -> int
    decreases s.len(),
{
    if s.len() == 0 {
        0
    } else {
        abs_dur_sum(s.drop_last()) + abs(s.last().duration as int)
    }
}

proof fn lemma_abs_dur_sum_nonneg(s: Seq<Event>)
    ensures
        0 <= abs_dur_sum(s),
    decreases s.len(),
{
    if s.len() > 0 {
        lemma_abs_dur_sum_nonneg(s.drop_last());
    }
}

proof fn lemma_abs_dur_sum_take_le(s: Seq<Event>, k: int)
    requires
        0 <= k <= s.len(),
    ensures
        abs_dur_sum(s.take(k)) <= abs_dur_sum(s),
    decreases s.len(),
{
    if k == s.len() {
        assert(s.take(k) =~= s);
    } else {
        assert(s.drop_last().take(k) =~= s.take(k));
        lemma_abs_dur_sum_take_le(s.drop_last(), k);
    }
}

proof fn lemma_elem_abs_le_sum(s: Seq<Event>, j: int)
    requires
        0 <= j < s.len(),
    ensures
        abs(s[j].duration as int) <= abs_dur_sum(s),
    decreases s.len(),
{
    if j == s.len() - 1 {
        lemma_abs_dur_sum_nonneg(s.drop_last());
    } else {
        lemma_elem_abs_le_sum(s.drop_last(), j);
    }
}

proof fn lemma_abs_dur_sum_update(s: Seq<Event>, j: int, x: Event)
    requires
        0 <= j < s.len(),
    ensures
        abs_dur_sum(s.update(j, x)) == abs_dur_sum(s) - abs(s[j].duration as int) + abs(
            x.duration as int,
        ),
    decreases s.len(),
{
    if j == s.len() - 1 {
        assert(s.update(j, x).drop_last() =~= s.drop_last());
    } else {
        assert(s.update(j, x).drop_last() =~= s.drop_last().update(j, x));
        lemma_abs_dur_sum_update(s.drop_last(), j, x);
    }
}

/// Aggregation cannot widen the absolute-duration total, and (given the
/// total stays within [`TICK_BOUND`]) every group duration along the way is
/// an exact, untruncated sum.
proof fn lemma_aggregate_bounded(s: Seq<Event>, keys: Seq<String>)
    requires
        abs_dur_sum(s) <= TICK_BOUND as int,
    ensures
        abs_dur_sum(aggregate_spec(s, keys)) <= abs_dur_sum(s),
    decreases s.len(),
{
    if s.len() > 0 {
        let prev = aggregate_spec(s.drop_last(), keys);
        let e = s.last();
        lemma_abs_dur_sum_nonneg(s.drop_last());
        lemma_aggregate_bounded(s.drop_last(), keys);
        if has_all_keys(e.data@, keys) {
            let j = find_group(prev, e.data@, keys);
            lemma_find_group_range(prev, e.data@, keys);
            if j < prev.len() {
                lemma_elem_abs_le_sum(prev, j);
                let g = prev[j];
                assert(abs(g.duration + e.duration) <= abs(g.duration as int) + abs(
                    e.duration as int,
                ));
                assert((g.duration + e.duration) as i64 == g.duration + e.duration);
                lemma_abs_dur_sum_update(prev, j, merge_into(g, e));
            } else {
                assert(prev.push(
                    Event {
                        id: None,
                        timestamp: e.timestamp,
                        duration: e.duration,
                        data: e.data,
                    },
                ).drop_last() =~= prev);
            }
        }
    }
}

proof fn lemma_find_group_range(gs: Seq<Event>, d: Seq<(String, Value)>, keys: Seq<String>)
    ensures
        0 <= find_group(gs, d, keys) <= gs.len(),
    decreases gs.len(),
{
    if gs.len() > 0 && !keys_match(gs[0].data@, d, keys) {
        lemma_find_group_range(gs.drop_first(), d, keys);
    }
}

proof fn lemma_find_group_first(gs: Seq<Event>, d: Seq<(String, Value)>, keys: Seq<String>, i: int)
    requires
        0 <= i <= gs.len(),
        forall|j: int| 0 <= j < i ==> !keys_match((#[trigger] gs[j]).data@, d, keys),
        i < gs.len() ==> keys_match(gs[i].data@, d, keys),
    ensures
        find_group(gs, d, keys) == i,
    decreases gs.len(),
{
    if gs.len() > 0 && i > 0 {
        let g2 = gs.drop_first();
        assert(forall|j: int| 0 <= j < g2.len() ==> g2[j] == gs[j + 1]);
        lemma_find_group_first(g2, d, keys, i - 1);
    }
}

/// Whether the payload holds every requested key, decided executably.
#[verifier::loop_isolation(false)]
pub fn has_all_keys_exec(d: &Vec<(String, Value)>, keys: &Vec<String>) -> (r: bool)
    ensures
        r == has_all_keys(d@, keys@),
{
    let mut i: usize = 0;
    while i < keys.len()
        invariant
            i <= keys@.len(),
            forall|j: int| 0 <= j < i ==> has_key(d@, (#[trigger] keys@[j])@),
        decreases keys@.len() - i,
    {
        match get_value(d, &keys[i]) {
            Some(_) => (),
            None => {
                return false;
            },
        }
        i += 1;
    }
    true
}

/// Whether two payloads agree on every requested key, decided executably.
#[verifier::loop_isolation(false)]
fn keys_match_exec(a: &Vec<(String, Value)>, b: &Vec<(String, Value)>, keys: &Vec<String>) -> (r:
    bool)
    ensures
        r == keys_match(a@, b@, keys@),
{
    let mut i: usize = 0;
    while i < keys.len()
        invariant
            i <= keys@.len(),
            forall|j: int|
                0 <= j < i ==> match (
                    lookup(a@, (#[trigger] keys@[j])@),
                    lookup(b@, keys@[j]@),
                ) {
                    (Some(x), Some(y)) => val_eq(x, y),
                    _ => false,
                },
        decreases keys@.len() - i,
    {
        let va = get_value(a, &keys[i]);
        let vb = get_value(b, &keys[i]);
        match (va, vb) {
            (Some(x), Some(y)) => {
                if !value_eq(x, y) {
                    return false;
                }
            },
            _ => {
                return false;
            },
        }
        i += 1;
    }
    true
}

/// Groups the events by deep equality of the requested payload keys and
/// reduces each group to one event: summed duration, earliest start, the
/// earliest member's whole payload, and no identity. Events missing any
/// requested key are dropped. Output order is the order in which groups
/// first appear.
#[verifier::loop_isolation(false)]
pub fn merge_events_by_keys(events: Vec<Event>, keys: Vec<String>) -> (r: Vec<Event>)
    requires
        abs_dur_sum(events@) <= TICK_BOUND as int,
    ensures
        r@ == aggregate_spec(events@, keys@),
{
    let ghost orig = events@;
    let mut rest = events;
    let mut groups: Vec<Event> = Vec::new();
    let ghost mut k: int = 0;
    proof {
        assert(orig.take(0) =~= Seq::<Event>::empty());
    }
    while rest.len() > 0
        invariant
            0 <= k <= orig.len(),
            rest@ =~= orig.skip(k),
            groups@ == aggregate_spec(orig.take(k), keys@),
        decreases rest@.len(),
    {
        let e = rest.remove(0);
        proof {
            assert(e == orig[k]);
            assert(rest@ =~= orig.skip(k + 1));
            assert(orig.take(k + 1).drop_last() =~= orig.take(k));
            assert(orig.take(k + 1).last() == orig[k]);
            lemma_abs_dur_sum_take_le(orig, k + 1);
            lemma_abs_dur_sum_take_le(orig, k);
            lemma_aggregate_bounded(orig.take(k), keys@);
            lemma_abs_dur_sum_nonneg(groups@);
        }
        if has_all_keys_exec(&e.data, &keys) {
            let ghost prev = groups@;
            let mut j: usize = 0;
            let mut found = false;
            while j < groups.len() && !found
                invariant
                    0 <= j <= groups@.len(),
                    groups@ == prev,
                    !found ==> forall|i: int|
                        0 <= i < j ==> !keys_match((#[trigger] prev[i]).data@, e.data@, keys@),
                    found ==> j < prev.len() && keys_match(prev[j as int].data@, e.data@, keys@)
                        && forall|i: int|
                        0 <= i < j ==> !keys_match((#[trigger] prev[i]).data@, e.data@, keys@),
                decreases groups@.len() - j + if found {
                    0int
                } else {
                    1int
                },
            {
                if keys_match_exec(&groups[j].data, &e.data, &keys) {
                    found = true;
                } else {
                    j += 1;
                }
            }
            proof {
                if found {
                    lemma_find_group_first(prev, e.data@, keys@, j as int);
                } else {
                    lemma_find_group_first(prev, e.data@, keys@, prev.len() as int);
                }
            }
            if found {
                let mut g = groups.remove(j);
                proof {
                    lemma_elem_abs_le_sum(prev, j as int);
                    assert(abs_dur_sum(orig.take(k + 1)) == abs_dur_sum(orig.take(k)) + abs(
                        e.duration as int,
                    ));
                }
                g.duration = g.duration + e.duration;
                if e.timestamp < g.timestamp {
                    g.timestamp = e.timestamp;
                    g.data = e.data;
                }
                groups.insert(j, g);
                proof {
                    assert(groups@ =~= prev.update(j as int, merge_into(prev[j as int], e)));
                }
            } else {
                groups.push(
                    Event { id: None, timestamp: e.timestamp, duration: e.duration, data: e.data },
                );
            }
        }
        proof {
            k = k + 1;
        }
    }
    proof {
        assert(orig.take(orig.len() as int) =~= orig);
    }
    groups
}

/// The signed sum of the durations of a sequence of events.
pub open spec fn dur_sum(s: Seq<Event>) -> int
    decreases s.len(),
{
    if s.len() == 0 {
        0
    } else {
        dur_sum(s.drop_last()) + s.last().duration
    }
}

/// The predicate selecting events whose payload holds every requested key.
pub open spec fn keeps_all_keys(keys: Seq<String>) -> spec_fn(Event) -> bool {
    |e: Event| has_all_keys(e.data@, keys)
}

proof fn lemma_dur_sum_update(s: Seq<Event>, j: int, x: Event)
    requires
        0 <= j < s.len(),
    ensures
        dur_sum(s.update(j, x)) == dur_sum(s) - s[j].duration + x.duration,
    decreases s.len(),
{
    if j == s.len() - 1 {
        assert(s.update(j, x).drop_last() =~= s.drop_last());
    } else {
        assert(s.update(j, x).drop_last() =~= s.drop_last().update(j, x));
        lemma_dur_sum_update(s.drop_last(), j, x);
    }
}

/// Aggregation neither loses nor invents time: the duration total of the
/// output equals the duration total of exactly those input events that hold
/// every requested key. An event missing a key contributes nothing.
pub proof fn lemma_aggregate_duration_conserved(s: Seq<Event>, keys: Seq<String>)
    requires
        abs_dur_sum(s) <= TICK_BOUND as int,
    ensures
        dur_sum(aggregate_spec(s, keys)) == dur_sum(s.filter(keeps_all_keys(keys))),
    decreases s.len(),
{
    reveal(Seq::filter);
    let p = keeps_all_keys(keys);
    if s.len() > 0 {
        let prev = aggregate_spec(s.drop_last(), keys);
        let e = s.last();
        lemma_aggregate_duration_conserved(s.drop_last(), keys);
        let f = s.drop_last().filter(p);
        if has_all_keys(e.data@, keys) {
            assert(s.filter(p) == f.push(e));
            assert(f.push(e).drop_last() =~= f);
            assert(dur_sum(s.filter(p)) == dur_sum(f) + e.duration);
            lemma_find_group_range(prev, e.data@, keys);
            let j = find_group(prev, e.data@, keys);
            if j < prev.len() {
                lemma_aggregate_bounded(s.drop_last(), keys);
                lemma_elem_abs_le_sum(prev, j);
                assert((prev[j].duration + e.duration) as i64 == prev[j].duration + e.duration);
                lemma_dur_sum_update(prev, j, merge_into(prev[j], e));
            } else {
                let fresh = Event {
                    id: None,
                    timestamp: e.timestamp,
                    duration: e.duration,
                    data: e.data,
                };
                assert(prev.push(fresh).drop_last() =~= prev);
            }
        } else {
            assert(s.filter(p) == f);
        }
    }
}

/// Every aggregated event carries a payload holding all of the requested
/// keys, and is identity-less; an input event missing one of them
/// contributes to no output event.
pub proof fn lemma_aggregate_keys_present(s: Seq<Event>, keys: Seq<String>, j: int)
    requires
        0 <= j < aggregate_spec(s, keys).len(),
    ensures
        has_all_keys(aggregate_spec(s, keys)[j].data@, keys),
        aggregate_spec(s, keys)[j].id is None,
    decreases s.len(),
{
    if s.len() > 0 {
        let prev = aggregate_spec(s.drop_last(), keys);
        let e = s.last();
        if has_all_keys(e.data@, keys) {
            let w = find_group(prev, e.data@, keys);
            lemma_find_group_range(prev, e.data@, keys);
            if w < prev.len() {
                lemma_aggregate_keys_present(s.drop_last(), keys, j);
            } else {
                if j < prev.len() {
                    lemma_aggregate_keys_present(s.drop_last(), keys, j);
                }
            }
        } else {
            lemma_aggregate_keys_present(s.drop_last(), keys, j);
        }
    }
}

} // verus!
