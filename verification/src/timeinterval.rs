//! A query time range: a start and an end instant, with a canonical textual
//! form of two RFC 3339 timestamps joined by `/`. Instants are nanosecond
//! counts from the epoch in UTC; any valid offset form is accepted on input
//! and normalized to UTC. Formatting then parsing reproduces the interval
//! exactly.

use vstd::prelude::*;

verus! {

/// The instant, in nanoseconds from the epoch, that the RFC 3339 timestamp
/// `s` denotes, or nothing when `s` is not a valid RFC 3339 timestamp whose
/// instant fits that range. A pure function of the characters of `s`.
pub uninterp spec fn rfc3339_nanos(s: Seq<char>) -> Option<i64>;

/// The canonical RFC 3339 rendering, with explicit UTC offset, of the
/// instant `t` nanoseconds from the epoch.
pub uninterp spec fn rfc3339_text(t: i64) -> Seq<char>;

/// Relies on chrono's `DateTime::parse_from_rfc3339` and
/// `timestamp_nanos_opt`: both are pure functions of the text, so their
/// composition is named by `rfc3339_nanos`. Any valid offset is normalized
/// by taking the absolute instant; an instant outside the `i64` nanosecond
/// range is reported as absent.
#[verifier::external_body]
fn parse_rfc3339_nanos(s: &str) -> (r: Option<i64>)
    ensures
        r == rfc3339_nanos(s@),
{
    match chrono::DateTime::parse_from_rfc3339(s) {
        Ok(dt) => dt.timestamp_nanos_opt(),
        Err(_) => None,
    }
}

/// Relies on chrono's `DateTime::<Utc>::from_timestamp_nanos` (documented to
/// round-trip with `timestamp_nanos_opt`) and `to_rfc3339`: the rendering is
/// a pure function of `t`, made only of digits and the signs `-:+.TZ`, so it
/// never holds `/`, and parsing it back yields exactly `t`.
#[verifier::external_body]
fn format_rfc3339_nanos(t: i64) -> (r: String)
    ensures
        r@ == rfc3339_text(t),
        rfc3339_nanos(r@) == Some(t),
        forall|i: int| 0 <= i < r@.len() ==> r@[i] != '/',
{
    chrono::DateTime::<chrono::Utc>::from_timestamp_nanos(t).to_rfc3339()
}

/// A half-open-by-convention time range; `end` is expected to be at or
/// after `start` but this is not enforced at construction.
#[derive(Clone, Copy, Debug)]
pub struct TimeInterval {
    pub start: i64,
    pub end: i64,
}

/// Failure to read an interval out of text.
#[derive(Debug)]
pub enum TimeIntervalError {
    ParseError(),
}

/// Whether position `i` holds the one and only `/` of `s`.
pub open spec fn is_split_point(s: Seq<char>, i: int) -> bool {
    &&& 0 <= i < s.len()
    &&& s[i] == '/'
    &&& forall|j: int| 0 <= j < s.len() && j != i ==> s[j] != '/'
}

/// The start and end instants denoted by an interval text: the text must
/// hold exactly one `/`, and each side must be a valid RFC 3339 timestamp.
pub open spec fn parse_interval_spec(s: Seq<char>) -> Option<(i64, i64)> {
    if exists|i: int| is_split_point(s, i) {
        let i = choose|i: int| is_split_point(s, i);
        match (rfc3339_nanos(s.subrange(0, i)), rfc3339_nanos(s.subrange(i + 1, s.len() as int))) {
            (Some(a), Some(b)) => Some((a, b)),
            _ => None,
        }
    } else {
        None
    }
}

proof fn lemma_split_point_unique(s: Seq<char>, i: int)
    requires
        is_split_point(s, i),
    ensures
        (choose|w: int| is_split_point(s, w)) == i,
        forall|w: int| is_split_point(s, w) ==> w == i,
{
    assert forall|w: int| is_split_point(s, w) implies w == i by {
        if w != i {
            assert(s[i] != '/');
        }
    }
    let w = choose|w: int| is_split_point(s, w);
    assert(is_split_point(s, w));
}

impl TimeInterval {
    /// The start of the range, in nanoseconds from the epoch.
    pub fn start(&self) -> (r: i64)
        ensures
            r == self.start,
    {
        self.start
    }

    /// The end of the range, in nanoseconds from the epoch.
    pub fn end(&self) -> (r: i64)
        ensures
            r == self.end,
    {
        self.end
    }

    /// Constructs the range directly from two instants, with no ordering
    /// validation.
    pub fn new(start: i64, end: i64) -> (r: TimeInterval)
        ensures
            r.start == start,
            r.end == end,
    {
        TimeInterval { start, end }
    }

    /// The signed span of the range: `end - start`, negative when the range
    /// was built backwards.
    pub fn duration(&self) -> (r: i64)
        requires
            i64::MIN <= self.end - self.start <= i64::MAX,
        ensures
            r == self.end - self.start,
    {
        self.end - self.start
    }

    /// Reads an interval out of its textual form: exactly one `/`, with a
    /// valid RFC 3339 timestamp on each side. Any other shape is a parse
    /// error.
    #[verifier::loop_isolation(false)]
    pub fn new_from_string(period: &str) -> (r: Result<TimeInterval, TimeIntervalError>)
        ensures
            match r {
                Ok(t) => parse_interval_spec(period@) == Some((t.start, t.end)),
                Err(_) => parse_interval_spec(period@) is None,
            },
    {
        let n = period.unicode_len();
        let mut i: usize = 0;
        let mut slash_count: usize = 0;
        let mut first: usize = 0;
        let mut second: usize = 0;
        while i < n
            invariant
                i <= n,
                slash_count <= i,
                slash_count == 0 ==> forall|j: int| 0 <= j < i ==> period@[j] != '/',
                slash_count == 1 ==> first < i && period@[first as int] == '/' && forall|j: int|
                    0 <= j < i && j != first ==> period@[j] != '/',
                slash_count >= 2 ==> first < second < i && period@[first as int] == '/'
                    && period@[second as int] == '/',
            decreases n - i,
        {
            let c = period.get_char(i);
            if c == '/' {
                if slash_count == 0 {
                    first = i;
                } else if slash_count == 1 {
                    second = i;
                }
                slash_count += 1;
            }
            i += 1;
        }
        if slash_count != 1 {
            proof {
                assert forall|w: int| !is_split_point(period@, w) by {
                    if 0 <= w < period@.len() && period@[w] == '/' {
                        if slash_count >= 2 {
                            if w != first {
                                assert(!is_split_point(period@, w)) by {
                                    assert(period@[first as int] == '/');
                                }
                            } else {
                                assert(!is_split_point(period@, w)) by {
                                    assert(period@[second as int] == '/');
                                }
                            }
                        }
                    }
                }
            }
            return Err(TimeIntervalError::ParseError());
        }
        let a = period.substring_char(0, first);
        let b = period.substring_char(first + 1, n);
        proof {
            assert(is_split_point(period@, first as int));
            lemma_split_point_unique(period@, first as int);
        }
        let start = parse_rfc3339_nanos(a);
        let end = parse_rfc3339_nanos(b);
        match (start, end) {
            (Some(x), Some(y)) => Ok(TimeInterval { start: x, end: y }),
            _ => Err(TimeIntervalError::ParseError()),
        }
    }

    /// Renders the range as its canonical textual form: both endpoints in
    /// RFC 3339 with explicit offset, joined by `/`. Parsing the result
    /// yields back exactly this interval.
    pub fn format(&self) -> (r: String)
        ensures
            r@ == rfc3339_text(self.start) + seq!['/'] + rfc3339_text(self.end),
            parse_interval_spec(r@) == Some((self.start, self.end)),
    {
        let mut out = format_rfc3339_nanos(self.start);
        let ghost a = rfc3339_text(self.start);
        let ghost b = rfc3339_text(self.end);
        let sep: &str = "/";
        proof {
            reveal_strlit("/");
            assert(sep@ =~= seq!['/']);
        }
        out.append(sep);
        let tail = format_rfc3339_nanos(self.end);
        out.append(tail.as_str());
        proof {
            let s = out@;
            assert(s =~= a + seq!['/'] + b);
            let m = a.len() as int;
            assert(is_split_point(s, m)) by {
                assert(s[m] == '/');
                assert forall|j: int| 0 <= j < s.len() && j != m implies s[j] != '/' by {
                    if j < m {
                        assert(s[j] == a[j]);
                    } else {
                        assert(s[j] == b[j - m - 1]);
                    }
                }
            }
            lemma_split_point_unique(s, m);
            assert(s.subrange(0, m) =~= a);
            assert(s.subrange(m + 1, s.len() as int) =~= b);
        }
        out
    }
}

} // verus!
