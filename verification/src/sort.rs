//! Stable orderings over event sequences: ascending by timestamp and
//! ascending by duration. Both are specified as a stable insertion sort, and
//! proved sorted, permutation-preserving, and order-stable for equal keys.

use vstd::prelude::*;

use crate::event::Event;

verus! {

broadcast use vstd::seq_lib::group_seq_lib_default, vstd::group_vstd_default;

/// The sort key of an event: its duration when `by_duration` is set,
/// otherwise its timestamp.
pub open spec fn key_of(e: Event, by_duration: bool) -> int {
    if by_duration {
        e.duration as int
    } else {
        e.timestamp as int
    }
}

/// Whether a sequence is non-decreasing in the chosen key.
pub open spec fn sorted_by_key(s: Seq<Event>, by_duration: bool) -> bool {
    forall|i: int, j: int|
        0 <= i < j < s.len() ==> key_of(#[trigger] s[i], by_duration) <= key_of(
            #[trigger] s[j],
            by_duration,
        )
}

/// The predicate selecting events whose key equals `k`.
pub open spec fn key_is(by_duration: bool, k: int) -> spec_fn(Event) -> bool {
    |e: Event| key_of(e, by_duration) == k
}

/// Inserts an event into a sequence after every element whose key is less
/// than or equal to its own, so that equal keys keep their input order.
pub open spec fn insert_sorted(s: Seq<Event>, e: Event, by_duration: bool) -> Seq<Event>
    decreases s.len(),
{
    if s.len() == 0 {
        seq![e]
    } else if key_of(s[0], by_duration) <= key_of(e, by_duration) {
        seq![s[0]] + insert_sorted(s.drop_first(), e, by_duration)
    } else {
        seq![e] + s
    }
}

/// The stable insertion sort of a sequence, taking its elements in input
/// order.
pub open spec fn sort_spec(s: Seq<Event>, by_duration: bool) -> Seq<Event>
    decreases s.len(),
{
    if s.len() == 0 {
        Seq::empty()
    } else {
        insert_sorted(sort_spec(s.drop_last(), by_duration), s.last(), by_duration)
    }
}

proof fn lemma_insert_sorted(s: Seq<Event>, e: Event, bd: bool)
    requires
        sorted_by_key(s, bd),
    ensures
        sorted_by_key(insert_sorted(s, e, bd), bd),
        insert_sorted(s, e, bd).to_multiset() == s.to_multiset().insert(e),
        insert_sorted(s, e, bd).len() == s.len() + 1,
        forall|i: int|
            0 <= i < insert_sorted(s, e, bd).len() ==> #[trigger] insert_sorted(s, e, bd)[i] == e
                || s.contains(insert_sorted(s, e, bd)[i]),
    decreases s.len(),
{
    broadcast use vstd::seq_lib::group_to_multiset_ensures, vstd::multiset::group_multiset_axioms;

    let res = insert_sorted(s, e, bd);
    if s.len() == 0 {
        assert(seq![e] =~= Seq::<Event>::empty().push(e));
        assert(res.to_multiset() == s.to_multiset().insert(e));
    } else if key_of(s[0], bd) <= key_of(e, bd) {
        let s2 = s.drop_first();
        assert(sorted_by_key(s2, bd)) by {
            assert(forall|i: int| 0 <= i < s2.len() ==> s2[i] == s[i + 1]);
        }
        lemma_insert_sorted(s2, e, bd);
        let rest = insert_sorted(s2, e, bd);
        assert(res =~= seq![s[0]] + rest);
        // Every element of the tail has a key at least that of the head.
        assert forall|j: int| 0 <= j < rest.len() implies key_of(s[0], bd) <= key_of(
            rest[j],
            bd,
        ) by {
            if rest[j] == e {
            } else {
                assert(s2.contains(rest[j]));
                let w = choose|w: int| 0 <= w < s2.len() && s2[w] == rest[j];
                assert(s2[w] == s[w + 1]);
            }
        }
        assert(sorted_by_key(res, bd)) by {
            assert(forall|i: int| 0 < i < res.len() ==> res[i] == rest[i - 1]);
        }
        assert(s =~= seq![s[0]] + s2);
        assert(res.to_multiset() == s.to_multiset().insert(e)) by {
            vstd::seq_lib::lemma_multiset_commutative(seq![s[0]], rest);
            vstd::seq_lib::lemma_multiset_commutative(seq![s[0]], s2);
            assert(res.to_multiset() =~= s.to_multiset().insert(e));
        }
        assert forall|i: int| 0 <= i < res.len() implies res[i] == e || s.contains(res[i]) by {
            if i == 0 {
                assert(s[0] == s[0] && s.contains(s[0]));
            } else if rest[i - 1] != e {
                assert(s2.contains(rest[i - 1]));
                let w = choose|w: int| 0 <= w < s2.len() && s2[w] == rest[i - 1];
                assert(s[w + 1] == res[i]);
            }
        }
    } else {
        assert(res =~= seq![e] + s);
        assert(sorted_by_key(res, bd)) by {
            assert(forall|i: int| 0 < i < res.len() ==> res[i] == s[i - 1]);
        }
        assert(res.to_multiset() =~= s.to_multiset().insert(e)) by {
            vstd::seq_lib::lemma_multiset_commutative(seq![e], s);
            assert(seq![e] =~= Seq::<Event>::empty().push(e));
        }
        assert forall|i: int| 0 <= i < res.len() implies res[i] == e || s.contains(res[i]) by {
            if i > 0 {
                assert(res[i] == s[i - 1]);
            }
        }
    }
}

proof fn lemma_filter_none(s: Seq<Event>, p: spec_fn(Event) -> bool)
    requires
        forall|i: int| 0 <= i < s.len() ==> !p(#[trigger] s[i]),
    ensures
        s.filter(p) == Seq::<Event>::empty(),
    decreases s.len(),
{
    reveal(Seq::filter);
    if s.len() > 0 {
        lemma_filter_none(s.drop_last(), p);
    }
}

proof fn lemma_filter_one(x: Event, p: spec_fn(Event) -> bool)
    ensures
        seq![x].filter(p) == if p(x) {
            seq![x]
        } else {
            Seq::<Event>::empty()
        },
{
    reveal_with_fuel(Seq::filter, 2);
    assert(seq![x].drop_last() =~= Seq::<Event>::empty());
    assert(seq![x].last() == x);
}

proof fn lemma_insert_sorted_filter(s: Seq<Event>, e: Event, bd: bool, k: int)
    requires
        sorted_by_key(s, bd),
    ensures
        insert_sorted(s, e, bd).filter(key_is(bd, k)) == if key_of(e, bd) == k {
            s.filter(key_is(bd, k)).push(e)
        } else {
            s.filter(key_is(bd, k))
        },
    decreases s.len(),
{
    broadcast use vstd::seq_lib::group_filter_ensures;

    let p = key_is(bd, k);
    let res = insert_sorted(s, e, bd);
    if s.len() == 0 {
        lemma_filter_one(e, p);
        lemma_filter_none(s, p);
        if key_of(e, bd) == k {
            assert(seq![e] =~= Seq::<Event>::empty().push(e));
        }
    } else if key_of(s[0], bd) <= key_of(e, bd) {
        let s2 = s.drop_first();
        assert(sorted_by_key(s2, bd)) by {
            assert(forall|i: int| 0 <= i < s2.len() ==> s2[i] == s[i + 1]);
        }
        lemma_insert_sorted_filter(s2, e, bd, k);
        let rest = insert_sorted(s2, e, bd);
        assert(res =~= seq![s[0]] + rest);
        assert(s =~= seq![s[0]] + s2);
        lemma_filter_one(s[0], p);
        assert(res.filter(p) == seq![s[0]].filter(p) + rest.filter(p));
        assert(s.filter(p) == seq![s[0]].filter(p) + s2.filter(p));
        if key_of(e, bd) == k {
            assert(res.filter(p) =~= s.filter(p).push(e));
        } else {
            assert(res.filter(p) =~= s.filter(p));
        }
    } else {
        assert(res =~= seq![e] + s);
        lemma_filter_one(e, p);
        assert(res.filter(p) == seq![e].filter(p) + s.filter(p));
        if key_of(e, bd) == k {
            // The head key exceeds `k`, and the sequence is sorted, so no
            // element of `s` has key `k`.
            assert(forall|i: int|
                0 <= i < s.len() ==> key_of(s[0], bd) <= key_of(#[trigger] s[i], bd));
            lemma_filter_none(s, p);
            assert(res.filter(p) =~= s.filter(p).push(e));
        } else {
            assert(res.filter(p) =~= s.filter(p));
        }
    }
}

/// The sorted output is non-decreasing in the chosen key and is a
/// permutation of the input.
pub proof fn lemma_sort_sorted_permutation(s: Seq<Event>, by_duration: bool)
    ensures
        sorted_by_key(sort_spec(s, by_duration), by_duration),
        sort_spec(s, by_duration).to_multiset() == s.to_multiset(),
        sort_spec(s, by_duration).len() == s.len(),
    decreases s.len(),
{
    broadcast use vstd::seq_lib::group_to_multiset_ensures;

    if s.len() > 0 {
        lemma_sort_sorted_permutation(s.drop_last(), by_duration);
        lemma_insert_sorted(sort_spec(s.drop_last(), by_duration), s.last(), by_duration);
        assert(s =~= s.drop_last().push(s.last()));
        assert(s.to_multiset() == s.drop_last().to_multiset().insert(s.last()));
    }
}

/// Stability: the elements whose key equals `k` appear in the sorted output
/// exactly in their input order.
pub proof fn lemma_sort_stable(s: Seq<Event>, by_duration: bool, k: int)
    ensures
        sort_spec(s, by_duration).filter(key_is(by_duration, k)) == s.filter(
            key_is(by_duration, k),
        ),
    decreases s.len(),
{
    reveal(Seq::filter);
    let p = key_is(by_duration, k);
    if s.len() == 0 {
        lemma_filter_none(s, p);
    } else {
        lemma_sort_stable(s.drop_last(), by_duration, k);
        lemma_sort_sorted_permutation(s.drop_last(), by_duration);
        lemma_insert_sorted_filter(
            sort_spec(s.drop_last(), by_duration),
            s.last(),
            by_duration,
            k,
        );
    }
}

/// The exact value of the chosen key, for deciding an insertion position.
fn key_val(e: &Event, by_duration: bool) -> (r: i64)
    ensures
        r as int == key_of(*e, by_duration),
{
    if by_duration {
        e.duration
    } else {
        e.timestamp
    }
}

proof fn lemma_insert_sorted_at(s: Seq<Event>, e: Event, bd: bool, j: int)
    requires
        0 <= j <= s.len(),
        forall|i: int| 0 <= i < j ==> key_of(#[trigger] s[i], bd) <= key_of(e, bd),
        j < s.len() ==> key_of(s[j], bd) > key_of(e, bd),
    ensures
        insert_sorted(s, e, bd) == s.subrange(0, j) + seq![e] + s.skip(j),
    decreases s.len(),
{
    if s.len() == 0 {
        assert(insert_sorted(s, e, bd) =~= s.subrange(0, j) + seq![e] + s.skip(j));
    } else if j == 0 {
        assert(insert_sorted(s, e, bd) =~= s.subrange(0, 0) + seq![e] + s.skip(0));
    } else {
        let s2 = s.drop_first();
        assert(forall|i: int| 0 <= i < s2.len() ==> s2[i] == s[i + 1]);
        lemma_insert_sorted_at(s2, e, bd, j - 1);
        assert(insert_sorted(s, e, bd) =~= s.subrange(0, j) + seq![e] + s.skip(j)) by {
            assert(s2.subrange(0, j - 1) =~= s.subrange(1, j));
            assert(s2.skip(j - 1) =~= s.skip(j));
        }
    }
}

/// Sorts the events ascending by the chosen key with a stable insertion
/// sort.
#[verifier::loop_isolation(false)]
fn sort_events(events: Vec<Event>, by_duration: bool) -> (r: Vec<Event>)
    ensures
        r@ == sort_spec(events@, by_duration),
{
    let ghost orig = events@;
    let mut rest = events;
    let mut out: Vec<Event> = Vec::new();
    let ghost mut k: int = 0;
    while rest.len() > 0
        invariant
            0 <= k <= orig.len(),
            rest@ =~= orig.skip(k),
            out@ == sort_spec(orig.take(k), by_duration),
            sorted_by_key(out@, by_duration),
        decreases rest@.len(),
    {
        let e = rest.remove(0);
        proof {
            assert(e == orig[k]);
            assert(rest@ =~= orig.skip(k + 1));
        }
        let ghost prev = out@;
        let mut j: usize = 0;
        while j < out.len() && key_val(&out[j], by_duration) <= key_val(&e, by_duration)
            invariant
                0 <= j <= out@.len(),
                forall|i: int| 0 <= i < j ==> key_of(#[trigger] out@[i], by_duration) <= key_of(
                    e,
                    by_duration,
                ),
            decreases out@.len() - j,
        {
            j += 1;
        }
        out.insert(j, e);
        proof {
            lemma_insert_sorted_at(prev, e, by_duration, j as int);
            assert(out@ =~= prev.subrange(0, j as int) + seq![e] + prev.skip(j as int));
            assert(out@ == insert_sorted(prev, e, by_duration));
            lemma_insert_sorted(prev, e, by_duration);
            assert(orig.take(k + 1).drop_last() =~= orig.take(k));
            assert(orig.take(k + 1).last() == orig[k]);
            k = k + 1;
        }
    }
    proof {
        assert(orig.take(orig.len() as int) =~= orig);
    }
    out
}

/// Returns the events in a new sequence, sorted ascending by timestamp;
/// events with equal timestamps keep their input order.
pub fn sort_by_timestamp(events: Vec<Event>) -> (r: Vec<Event>)
    ensures
        r@ == sort_spec(events@, false),
{
    sort_events(events, false)
}

/// Returns the events in a new sequence, sorted ascending by duration;
/// events with equal durations keep their input order.
pub fn sort_by_duration(events: Vec<Event>) -> (r: Vec<Event>)
    ensures
        r@ == sort_spec(events@, true),
{
    sort_events(events, true)
}

} // verus!
