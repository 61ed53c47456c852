//! What holds of the sessions of every ping record.

use vstd::prelude::*;
use crate::error::InvalidInputError;
use crate::instant::is_instant;
use crate::sessions::{
    fault_from, first_fault, lemma_fault_free, lemma_run_end_bounds, reconstructs, run_end,
    sessions, sessions_from, well_formed,
};
use crate::timespan::{chronological, separated, spans, total_duration, Span, TimeSpan};

verus! {

proof fn lemma_fault_from_least(ts: Seq<i64>, from: int)
    requires
        0 <= from <= ts.len() <= usize::MAX,
    ensures
        match fault_from(ts, from) {
            None => true,
            Some(InvalidInputError::OutOfRange { index }) => {
                &&& from <= index < ts.len()
                &&& !is_instant(ts[index as int] as int)
                &&& forall|k: int|
                    from <= k < index ==> is_instant(#[trigger] ts[k] as int) && (k > 0 ==> ts[k
                        - 1] <= ts[k])
            },
            Some(InvalidInputError::Unsorted { index }) => {
                &&& from <= index < ts.len()
                &&& 0 < index
                &&& is_instant(ts[index as int] as int)
                &&& ts[index as int] < ts[index - 1]
                &&& forall|k: int|
                    from <= k < index ==> is_instant(#[trigger] ts[k] as int) && (k > 0 ==> ts[k
                        - 1] <= ts[k])
            },
        },
    decreases ts.len() - from,
{
    if from < ts.len() {
        lemma_fault_from_least(ts, from + 1);
    }
}

/// The fault that is reported is the first: the timestamps before it form
/// a ping record, and the one at its index is no instant, or is one and
/// earlier than its predecessor.
pub proof fn lemma_first_fault_is_first(ts: Seq<i64>, e: InvalidInputError)
    requires
        ts.len() <= usize::MAX,
        first_fault(ts) == Some(e),
    ensures
        match e {
            InvalidInputError::OutOfRange { index } => {
                &&& index < ts.len()
                &&& well_formed(ts.take(index as int))
                &&& !is_instant(ts[index as int] as int)
            },
            InvalidInputError::Unsorted { index } => {
                &&& 0 < index < ts.len()
                &&& well_formed(ts.take(index as int))
                &&& is_instant(ts[index as int] as int)
                &&& ts[index as int] < ts[index - 1]
            },
        },
{
    lemma_fault_from_least(ts, 0);
}

proof fn lemma_ascending(ts: Seq<i64>, i: int, j: int)
    requires
        well_formed(ts),
        0 <= i <= j < ts.len(),
    ensures
        ts[i] <= ts[j],
    decreases j - i,
{
    if i < j {
        lemma_ascending(ts, i, j - 1);
    }
}

/// A run is maximal: inside it each ping follows its predecessor within
/// less than `gap`, and the ping after its last, if there is one, follows
/// after `gap` or more.
pub proof fn lemma_run_is_maximal(ts: Seq<i64>, gap: int, from: int)
    requires
        0 <= from < ts.len(),
    ensures
        from <= run_end(ts, gap, from) < ts.len(),
        forall|k: int| from <= k < run_end(ts, gap, from) ==> #[trigger] ts[k + 1] - ts[k] < gap,
        run_end(ts, gap, from) + 1 < ts.len() ==> ts[run_end(ts, gap, from) + 1] - ts[run_end(
            ts,
            gap,
            from,
        )] >= gap,
    decreases ts.len() - from,
{
    if from + 1 < ts.len() && ts[from + 1] - ts[from] < gap {
        lemma_run_is_maximal(ts, gap, from + 1);
    }
}

proof fn lemma_run_without_gap(ts: Seq<i64>, gap: int, from: int)
    requires
        0 <= from < ts.len(),
        forall|k: int| 0 < k < ts.len() ==> #[trigger] ts[k] - ts[k - 1] < gap,
    ensures
        run_end(ts, gap, from) == ts.len() - 1,
    decreases ts.len() - from,
{
    if from + 1 < ts.len() {
        assert(ts[from + 1] - ts[from + 1 - 1] < gap);
        lemma_run_without_gap(ts, gap, from + 1);
    }
}

/// Pings that all follow their predecessor within less than the gap
/// threshold make one session, from the earliest ping to the latest.
pub proof fn lemma_no_gap_one_session(ts: Seq<i64>, gap: int)
    requires
        well_formed(ts),
        ts.len() > 0,
        forall|k: int| 0 < k < ts.len() ==> #[trigger] ts[k] - ts[k - 1] < gap,
    ensures
        first_fault(ts) is None,
        sessions(ts, gap) == seq![Span { start: ts.first() as int, end: ts.last() as int }],
        forall|k: int| 0 <= k < ts.len() ==> ts.first() <= #[trigger] ts[k] <= ts.last(),
{
    lemma_fault_free(ts);
    lemma_run_without_gap(ts, gap, 0);
    assert(sessions_from(ts, gap, ts.len() as int) =~= Seq::<Span>::empty());
    assert(sessions(ts, gap) =~= seq![Span { start: ts.first() as int, end: ts.last() as int }]);
    assert forall|k: int| 0 <= k < ts.len() implies ts.first() <= #[trigger] ts[k]
        <= ts.last() by {
        lemma_ascending(ts, 0, k);
        lemma_ascending(ts, k, ts.len() - 1);
    }
}

proof fn lemma_run_end_before_gap(a: Seq<i64>, b: Seq<i64>, gap: int, from: int)
    requires
        0 <= from < a.len(),
        b.len() > 0,
        b.first() - a.last() >= gap,
    ensures
        run_end(a + b, gap, from) == run_end(a, gap, from),
    decreases a.len() - from,
{
    let ts = a + b;
    assert(ts[from] == a[from]);
    if from + 1 < a.len() {
        assert(ts[from + 1] == a[from + 1]);
        if a[from + 1] - a[from] < gap {
            lemma_run_end_before_gap(a, b, gap, from + 1);
        }
    } else {
        assert(ts[from + 1] == b[0]);
    }
}

proof fn lemma_run_end_after_prefix(a: Seq<i64>, b: Seq<i64>, gap: int, from: int)
    requires
        0 <= from < b.len(),
    ensures
        run_end(a + b, gap, a.len() + from) == a.len() + run_end(b, gap, from),
    decreases b.len() - from,
{
    let ts = a + b;
    assert(ts[a.len() + from] == b[from]);
    if from + 1 < b.len() {
        assert(ts[a.len() + from + 1] == b[from + 1]);
        if b[from + 1] - b[from] < gap {
            lemma_run_end_after_prefix(a, b, gap, from + 1);
        }
    }
}

proof fn lemma_sessions_after_prefix(a: Seq<i64>, b: Seq<i64>, gap: int, from: int)
    requires
        0 <= from,
    ensures
        sessions_from(a + b, gap, a.len() + from) == sessions_from(b, gap, from),
    decreases b.len() - from,
{
    let ts = a + b;
    if from < b.len() {
        lemma_run_end_after_prefix(a, b, gap, from);
        lemma_run_end_bounds(b, gap, from);
        let last = run_end(b, gap, from);
        assert(ts[a.len() + from] == b[from]);
        assert(ts[a.len() + last] == b[last]);
        lemma_sessions_after_prefix(a, b, gap, last + 1);
        assert(a.len() + (last + 1) == a.len() + last + 1);
    }
}

proof fn lemma_sessions_before_gap(a: Seq<i64>, b: Seq<i64>, gap: int, from: int)
    requires
        0 <= from <= a.len(),
        b.len() > 0,
        a.len() > 0,
        b.first() - a.last() >= gap,
    ensures
        sessions_from(a + b, gap, from) == sessions_from(a, gap, from) + sessions(b, gap),
    decreases a.len() - from,
{
    let ts = a + b;
    if from < a.len() {
        lemma_run_end_before_gap(a, b, gap, from);
        lemma_run_end_bounds(a, gap, from);
        let last = run_end(a, gap, from);
        assert(ts[from] == a[from]);
        assert(ts[last] == a[last]);
        lemma_sessions_before_gap(a, b, gap, last + 1);
        let head = seq![Span { start: a[from] as int, end: a[last] as int }];
        assert(head + (sessions_from(a, gap, last + 1) + sessions(b, gap)) =~= (head
            + sessions_from(a, gap, last + 1)) + sessions(b, gap));
    } else {
        lemma_sessions_after_prefix(a, b, gap, 0);
        assert(sessions_from(a, gap, from) =~= Seq::<Span>::empty());
        assert(Seq::<Span>::empty() + sessions(b, gap) =~= sessions(b, gap));
    }
}

proof fn lemma_sessions_from_ends(ts: Seq<i64>, gap: int, from: int)
    requires
        0 <= from < ts.len(),
    ensures
        sessions_from(ts, gap, from).len() > 0,
        sessions_from(ts, gap, from).first().start == ts[from],
        sessions_from(ts, gap, from).last().end == ts.last(),
    decreases ts.len() - from,
{
    let last = run_end(ts, gap, from);
    lemma_run_end_bounds(ts, gap, from);
    let head = seq![Span { start: ts[from] as int, end: ts[last] as int }];
    let rest = sessions_from(ts, gap, last + 1);
    if last + 1 < ts.len() {
        lemma_sessions_from_ends(ts, gap, last + 1);
        assert((head + rest).last() == rest.last());
    } else {
        assert(rest =~= Seq::<Span>::empty());
        assert(head + rest =~= head);
    }
}

/// Pings have sessions: the first starts at the first ping, the last ends
/// at the last ping.
pub proof fn lemma_sessions_ends(ts: Seq<i64>, gap: int)
    requires
        ts.len() > 0,
    ensures
        sessions(ts, gap).len() > 0,
        sessions(ts, gap).first().start == ts.first(),
        sessions(ts, gap).last().end == ts.last(),
{
    lemma_sessions_from_ends(ts, gap, 0);
}

/// A gap of the threshold or more splits, and a gap of exactly the
/// threshold does: where the first ping of `b` follows the last ping of
/// `a` after `gap` or more, the sessions of `a` followed by `b` are the
/// sessions of `a`, then the sessions of `b`. One session ends at the
/// last ping of `a` and the next starts at the first ping of `b`.
pub proof fn lemma_gap_splits(a: Seq<i64>, b: Seq<i64>, gap: int)
    requires
        a.len() > 0,
        b.len() > 0,
        b.first() - a.last() >= gap,
    ensures
        sessions(a + b, gap) == sessions(a, gap) + sessions(b, gap),
        sessions(a, gap).len() > 0,
        sessions(b, gap).len() > 0,
        sessions(a + b, gap)[sessions(a, gap).len() - 1].end == a.last(),
        sessions(a + b, gap)[sessions(a, gap).len() as int].start == b.first(),
{
    lemma_sessions_before_gap(a, b, gap, 0);
    lemma_sessions_ends(a, gap);
    lemma_sessions_ends(b, gap);
}

/// A lone ping is a session of its own that lasts no time.
pub proof fn lemma_lone_ping(t: i64, gap: int)
    ensures
        sessions(seq![t], gap) == seq![Span { start: t as int, end: t as int }],
{
    let ts = seq![t];
    assert(run_end(ts, gap, 0) == 0);
    assert(sessions_from(ts, gap, 1) =~= Seq::<Span>::empty());
    assert(sessions(ts, gap) =~= seq![Span { start: t as int, end: t as int }]);
}

proof fn lemma_run_end_with_next(ts: Seq<i64>, t: i64, gap: int, from: int)
    requires
        0 <= from < ts.len(),
        t - ts.last() < gap,
    ensures
        run_end(ts.push(t), gap, from) == (if run_end(ts, gap, from) == ts.len() - 1 {
            ts.len() as int
        } else {
            run_end(ts, gap, from)
        }),
    decreases ts.len() - from,
{
    let more = ts.push(t);
    assert(more[from] == ts[from]);
    if from + 1 < ts.len() {
        assert(more[from + 1] == ts[from + 1]);
        if ts[from + 1] - ts[from] < gap {
            lemma_run_end_with_next(ts, t, gap, from + 1);
        }
    } else {
        assert(more[from + 1] == t);
        assert(run_end(more, gap, from + 1) == from + 1);
    }
}

proof fn lemma_sessions_from_with_next(ts: Seq<i64>, t: i64, gap: int, from: int)
    requires
        0 <= from < ts.len(),
        t - ts.last() < gap,
    ensures
        sessions_from(ts, gap, from).len() > 0,
        sessions_from(ts.push(t), gap, from) == sessions_from(ts, gap, from).drop_last().push(
            Span { start: sessions_from(ts, gap, from).last().start, end: t as int },
        ),
    decreases ts.len() - from,
{
    let more = ts.push(t);
    let last = run_end(ts, gap, from);
    lemma_run_end_bounds(ts, gap, from);
    lemma_run_end_with_next(ts, t, gap, from);
    assert(more[from] == ts[from]);
    let head = Span { start: ts[from] as int, end: ts[last] as int };
    let rest = sessions_from(ts, gap, last + 1);
    if last == ts.len() - 1 {
        assert(rest =~= Seq::<Span>::empty());
        assert(sessions_from(more, gap, ts.len() as int + 1) =~= Seq::<Span>::empty());
        assert(more[ts.len() as int] == t);
        assert(sessions_from(ts, gap, from) =~= seq![head]);
        assert(sessions_from(more, gap, from) =~= seq![head].drop_last().push(
            Span { start: head.start, end: t as int },
        ));
    } else {
        assert(more[last] == ts[last]);
        lemma_sessions_from_with_next(ts, t, gap, last + 1);
        let closing = Span { start: rest.last().start, end: t as int };
        assert((seq![head] + rest).last() == rest.last());
        assert(seq![head] + rest.drop_last().push(closing) =~= (seq![head] + rest).drop_last().push(
            closing,
        ));
    }
}

/// What one more ping does to the sessions: a ping that follows the last
/// within less than `gap` moves the end of the last session to itself; a
/// ping that follows after `gap` or more leaves the sessions as they are
/// and adds a session of its own that lasts no time.
pub proof fn lemma_next_ping(ts: Seq<i64>, t: i64, gap: int)
    requires
        ts.len() > 0,
    ensures
        sessions(ts, gap).len() > 0,
        t - ts.last() < gap ==> sessions(ts.push(t), gap) == sessions(ts, gap).drop_last().push(
            Span { start: sessions(ts, gap).last().start, end: t as int },
        ),
        t - ts.last() >= gap ==> sessions(ts.push(t), gap) == sessions(ts, gap).push(
            Span { start: t as int, end: t as int },
        ),
{
    lemma_sessions_ends(ts, gap);
    if t - ts.last() < gap {
        lemma_sessions_from_with_next(ts, t, gap, 0);
    } else {
        lemma_gap_splits(ts, seq![t], gap);
        lemma_lone_ping(t, gap);
        assert(ts + seq![t] =~= ts.push(t));
        assert(sessions(ts, gap) + seq![Span { start: t as int, end: t as int }] =~= sessions(
            ts,
            gap,
        ).push(Span { start: t as int, end: t as int }));
    }
}

proof fn lemma_sessions_from_shape(ts: Seq<i64>, gap: int, from: int)
    requires
        well_formed(ts),
        0 <= from < ts.len(),
    ensures
        ({
            let s = sessions_from(ts, gap, from);
            &&& s.len() >= 1
            &&& s.first().start == ts[from]
            &&& s.last().end == ts.last()
            &&& forall|k: int| 0 <= k < s.len() ==> (#[trigger] s[k]).start <= s[k].end
            &&& separated(s, gap)
            &&& total_duration(s) <= ts.last() - ts[from]
        }),
    decreases ts.len() - from,
{
    let last = run_end(ts, gap, from);
    lemma_run_is_maximal(ts, gap, from);
    lemma_ascending(ts, from, last);
    let head = Span { start: ts[from] as int, end: ts[last] as int };
    let rest = sessions_from(ts, gap, last + 1);
    let s = sessions_from(ts, gap, from);
    assert(s == seq![head] + rest);
    assert(s.drop_first() =~= rest);
    if last + 1 < ts.len() {
        lemma_sessions_from_shape(ts, gap, last + 1);
        assert(ts[last] <= ts[last + 1]);
        assert forall|k: int| 0 <= k < s.len() implies (#[trigger] s[k]).start <= s[k].end by {
            if k > 0 {
                assert(s[k] == rest[k - 1]);
            }
        }
        assert forall|k: int| 0 < k < s.len() implies s[k - 1].end + gap <= (
        #[trigger] s[k]).start by {
            assert(s[k] == rest[k - 1]);
            if k > 1 {
                assert(s[k - 1] == rest[k - 2]);
                assert(rest[k - 1 - 1].end + gap <= rest[k - 1].start);
            }
        }
        assert(s.last() == rest.last());
    } else {
        assert(rest =~= Seq::<Span>::empty());
        assert(s =~= seq![head]);
        assert(total_duration(rest) == 0);
    }
}

proof fn lemma_separated_pair(s: Seq<Span>, gap: int, i: int, j: int)
    requires
        gap > 0,
        separated(s, gap),
        forall|k: int| 0 <= k < s.len() ==> (#[trigger] s[k]).start <= s[k].end,
        0 <= i < j < s.len(),
    ensures
        s[i].end < s[j].start,
    decreases j - i,
{
    if i + 1 < j {
        lemma_separated_pair(s, gap, i, j - 1);
        assert(s[j - 1].start <= s[j - 1].end);
    }
    assert(s[j - 1].end + gap <= s[j].start);
}

/// The sessions of a ping record come in order of time and keep apart:
/// none ends before it starts, each starts at least `gap` after the one
/// before it ends, so with a positive threshold each ends before any later
/// one starts, and their durations sum to no more than the time from the
/// first ping to the last.
pub proof fn lemma_sessions_chronological(ts: Seq<i64>, gap: int)
    requires
        well_formed(ts),
    ensures
        ts.len() > 0 ==> sessions(ts, gap).len() > 0,
        forall|k: int|
            0 <= k < sessions(ts, gap).len() ==> (#[trigger] sessions(ts, gap)[k]).start
                <= sessions(ts, gap)[k].end,
        separated(sessions(ts, gap), gap),
        gap > 0 ==> chronological(sessions(ts, gap)),
        gap > 0 ==> forall|i: int, j: int|
            0 <= i < j < sessions(ts, gap).len() ==> (#[trigger] sessions(ts, gap)[i]).start < (
            #[trigger] sessions(ts, gap)[j]).start,
        total_duration(sessions(ts, gap)) <= (if ts.len() > 0 {
            ts.last() - ts.first()
        } else {
            0
        }),
{
    let s = sessions(ts, gap);
    if ts.len() > 0 {
        lemma_sessions_from_shape(ts, gap, 0);
        if gap > 0 {
            assert forall|i: int, j: int| 0 <= i < j < s.len() implies (#[trigger] s[i]).end < (
            #[trigger] s[j]).start by {
                lemma_separated_pair(s, gap, i, j);
            }
            assert forall|i: int, j: int| 0 <= i < j < s.len() implies (#[trigger] s[i]).start < (
            #[trigger] s[j]).start by {
                lemma_separated_pair(s, gap, i, j);
                assert(s[i].start <= s[i].end);
            }
        }
    } else {
        assert(s =~= Seq::<Span>::empty());
    }
}

/// The outcome of a reconstruction as plain values.
pub open spec fn outcome(r: Result<Vec<TimeSpan>, InvalidInputError>) -> Result<
    Seq<TimeSpan>,
    InvalidInputError,
> {
    match r {
        Ok(v) => Ok(v@),
        Err(e) => Err(e),
    }
}

/// Rebuilding is a function of the pings and the threshold: two results
/// for the same pings are the same, session for session or fault for
/// fault.
pub proof fn lemma_reconstruct_repeatable(
    ts: Seq<i64>,
    gap: int,
    first: Result<Vec<TimeSpan>, InvalidInputError>,
    second: Result<Vec<TimeSpan>, InvalidInputError>,
)
    requires
        reconstructs(ts, gap, first),
        reconstructs(ts, gap, second),
    ensures
        outcome(first) == outcome(second),
{
    match (first, second) {
        (Ok(v), Ok(w)) => {
            assert(v@.len() == spans(v@).len());
            assert(w@.len() == spans(w@).len());
            assert forall|k: int| 0 <= k < v@.len() implies v@[k] == w@[k] by {
                assert(v@[k]@ == spans(v@)[k]);
                assert(w@[k]@ == spans(w@)[k]);
                assert(v@[k].wf());
                assert(w@[k].wf());
            }
            assert(v@ =~= w@);
        },
        _ => {},
    }
}

} // verus!
