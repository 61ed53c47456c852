//! Rebuilding sessions from the pings of one identity.

use vstd::prelude::*;
use crate::error::InvalidInputError;
use crate::instant::{denotes_instant, is_instant};
use crate::timespan::{all_wf, spans, Span, TimeSpan};

verus! {

/// The gap threshold of a history: five minutes.
pub const DEFAULT_GAP_THRESHOLD: u64 = 300;

/// The first timestamp at or after index `from` that is out of place, and
/// how: it denotes no instant, or it is earlier than its predecessor.
pub open spec fn fault_from(ts: Seq<i64>, from: int) -> Option<InvalidInputError>
    decreases ts.len() - from,
{
    if from < 0 || from >= ts.len() {
        None
    } else if !is_instant(ts[from] as int) {
        Some(InvalidInputError::OutOfRange { index: from as usize })
    } else if from > 0 && ts[from] < ts[from - 1] {
        Some(InvalidInputError::Unsorted { index: from as usize })
    } else {
        fault_from(ts, from + 1)
    }
}

/// The first fault of a sequence of timestamps, if it has one.
pub open spec fn first_fault(ts: Seq<i64>) -> Option<InvalidInputError> {
    fault_from(ts, 0)
}

/// A ping record: every timestamp is an instant and none is earlier than
/// the one before it.
pub open spec fn well_formed(ts: Seq<i64>) -> bool {
    &&& forall|k: int| 0 <= k < ts.len() ==> is_instant(#[trigger] ts[k] as int)
    &&& forall|k: int| 0 < k < ts.len() ==> ts[k - 1] <= #[trigger] ts[k]
}

proof fn lemma_fault_from_none(ts: Seq<i64>, from: int)
    requires
        0 <= from <= ts.len(),
    ensures
        fault_from(ts, from) is None <==> forall|k: int|
            from <= k < ts.len() ==> is_instant(#[trigger] ts[k] as int) && (k > 0 ==> ts[k - 1]
                <= ts[k]),
    decreases ts.len() - from,
{
    if from < ts.len() {
        lemma_fault_from_none(ts, from + 1);
    }
}

/// A sequence of timestamps has no fault exactly when it is a ping record.
pub proof fn lemma_fault_free(ts: Seq<i64>)
    ensures
        first_fault(ts) is None <==> well_formed(ts),
{
    lemma_fault_from_none(ts, 0);
}

/// The index of the last ping of the run that holds the ping at `from`:
/// the run goes on while the next ping follows within less than `gap`.
pub open spec fn run_end(ts: Seq<i64>, gap: int, from: int) -> int
    decreases ts.len() - from,
{
    if 0 <= from && from + 1 < ts.len() && ts[from + 1] - ts[from] < gap {
        run_end(ts, gap, from + 1)
    } else {
        from
    }
}

/// The sessions of the pings from index `from` on, where a run starts at
/// `from`: the run's span, then the sessions of what follows the run.
pub open spec fn sessions_from(ts: Seq<i64>, gap: int, from: int) -> Seq<Span>
    decreases ts.len() - from,
    via sessions_from_terminates
{
    if 0 <= from < ts.len() {
        let last = run_end(ts, gap, from);
        seq![Span { start: ts[from] as int, end: ts[last] as int }] + sessions_from(
            ts,
            gap,
            last + 1,
        )
    } else {
        Seq::empty()
    }
}

#[via_fn]
proof fn sessions_from_terminates(ts: Seq<i64>, gap: int, from: int) {
    if 0 <= from < ts.len() {
        lemma_run_end_bounds(ts, gap, from);
    }
}

/// The sessions of a ping record: its maximal runs of pings that follow
/// one another within less than `gap`, each as the span from its first to
/// its last ping.
pub open spec fn sessions(ts: Seq<i64>, gap: int) -> Seq<Span> {
    sessions_from(ts, gap, 0)
}

/// A run ends at or after the ping it is asked for, and within the record.
pub proof fn lemma_run_end_bounds(ts: Seq<i64>, gap: int, from: int)
    requires
        0 <= from < ts.len(),
    ensures
        from <= run_end(ts, gap, from) < ts.len(),
    decreases ts.len() - from,
{
    if from + 1 < ts.len() && ts[from + 1] - ts[from] < gap {
        lemma_run_end_bounds(ts, gap, from + 1);
    }
}

/// Whether `r` is what rebuilding the sessions of `ts` gives: for a ping
/// record its sessions, each with its invariant, and for other timestamps
/// their first fault.
pub open spec fn reconstructs(
    ts: Seq<i64>,
    gap: int,
    r: Result<Vec<TimeSpan>, InvalidInputError>,
) -> bool {
    match r {
        Ok(v) => {
            &&& well_formed(ts)
            &&& spans(v@) == sessions(ts, gap)
            &&& all_wf(v@)
        },
        Err(e) => !well_formed(ts) && first_fault(ts) == Some(e),
    }
}

/// Rebuilds the sessions of one identity from its pings.
///
/// The timestamps are taken in order. A ping that follows its predecessor
/// within less than `gap_threshold` seconds extends the open session; one
/// that follows after `gap_threshold` seconds or more closes it and opens
/// the next. No pings give no sessions. The first timestamp that is no
/// instant, or that is earlier than the one before it, is reported and
/// nothing is rebuilt.
pub fn reconstruct(timestamps: &Vec<i64>, gap_threshold: u64) -> (r: Result<
    Vec<TimeSpan>,
    InvalidInputError,
>)
    ensures
        reconstructs(timestamps@, gap_threshold as int, r),
{
    proof {
        lemma_fault_free(timestamps@);
    }
    let n = timestamps.len();
    let mut closed: Vec<TimeSpan> = Vec::new();
    if n == 0 {
        assert(spans(closed@) =~= sessions(timestamps@, gap_threshold as int));
        return Ok(closed);
    }
    let first = timestamps[0];
    if !denotes_instant(first) {
        return Err(InvalidInputError::OutOfRange { index: 0 });
    }
    let mut open = TimeSpan::at(first);
    let mut last = first;
    let mut i: usize = 1;
    let ghost ts = timestamps@;
    let ghost gap = gap_threshold as int;
    let ghost mut run_start: int = 0;
    assert(spans(closed@) + sessions_from(ts, gap, 0) =~= sessions(ts, gap));
    while i < n
        invariant
            n == timestamps.len(),
            ts == timestamps@,
            gap == gap_threshold as int,
            1 <= i <= n,
            0 <= run_start < i,
            last == ts[i - 1],
            open.wf(),
            open@ == (Span { start: ts[run_start] as int, end: last as int }),
            all_wf(closed@),
            first_fault(ts) == fault_from(ts, i as int),
            run_end(ts, gap, run_start) == run_end(ts, gap, i - 1),
            sessions(ts, gap) == spans(closed@) + sessions_from(ts, gap, run_start),
        decreases n - i,
    {
        let t = timestamps[i];
        if !denotes_instant(t) {
            return Err(InvalidInputError::OutOfRange { index: i });
        }
        if t < last {
            return Err(InvalidInputError::Unsorted { index: i });
        }
        if (t - last) as u64 >= gap_threshold {
            proof {
                assert(run_end(ts, gap, i - 1) == i - 1);
                assert(spans(closed@.push(open)) + sessions_from(ts, gap, i as int) =~= spans(
                    closed@,
                ) + sessions_from(ts, gap, run_start));
                run_start = i as int;
            }
            closed.push(open);
            open = TimeSpan::at(t);
        } else {
            open = open.extended_to(t);
        }
        last = t;
        i += 1;
    }
    proof {
        assert(run_end(ts, gap, i - 1) == i - 1);
        assert(sessions_from(ts, gap, n as int) =~= Seq::<Span>::empty());
        assert(spans(closed@.push(open)) =~= spans(closed@) + sessions_from(ts, gap, run_start));
    }
    closed.push(open);
    Ok(closed)
}

} // verus!
