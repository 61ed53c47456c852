//! Sessions: closed intervals of presence.

use vstd::prelude::*;
use crate::instant::is_instant;

verus! {

/// The mathematical model of a session: the interval from `start` to
/// `end`, both in seconds since the epoch.
pub struct Span {
    pub start: int,
    pub end: int,
}

impl Span {
    /// The length of the interval in seconds.
    pub open spec fn duration(self) -> int {
        self.end - self.start
    }
}

/// One session of an identity: the first and the last ping of a run of
/// pings, in seconds since the epoch, and the seconds between the two.
#[derive(Clone, Copy, Debug, PartialEq, Eq)]
pub struct TimeSpan {
    pub start: i64,
    pub end: i64,
    pub duration: u64,
}

impl View for TimeSpan {
    type V = Span;

    open spec fn view(&self) -> Span {
        Span { start: self.start as int, end: self.end as int }
    }
}

impl TimeSpan {
    /// The invariant of a session: it starts and ends at an instant, does
    /// not end before it starts, and `duration` is the time between.
    pub open spec fn wf(&self) -> bool {
        &&& is_instant(self.start as int)
        &&& is_instant(self.end as int)
        &&& self.start <= self.end
        &&& self.duration == self.end - self.start
    }

    /// The session of a single ping at `at`: it lasts no time.
    pub(crate) fn at(at: i64) -> (r: TimeSpan)
        requires
            is_instant(at as int),
        ensures
            r.wf(),
            r@ == (Span { start: at as int, end: at as int }),
    {
        TimeSpan { start: at, end: at, duration: 0 }
    }

    /// This session with its end moved to the ping at `end`.
    pub(crate) fn extended_to(self, end: i64) -> (r: TimeSpan)
        requires
            self.wf(),
            is_instant(end as int),
            self.start <= end,
        ensures
            r.wf(),
            r@ == (Span { start: self.start as int, end: end as int }),
    {
        TimeSpan { start: self.start, end, duration: (end - self.start) as u64 }
    }
}

/// The models of a sequence of sessions, in the same order.
pub open spec fn spans(sessions: Seq<TimeSpan>) -> Seq<Span> {
    sessions.map_values(|s: TimeSpan| s@)
}

/// The summed durations of a sequence of spans.
pub open spec fn total_duration(s: Seq<Span>) -> int
    decreases s.len(),
{
    if s.len() == 0 {
        0
    } else {
        s.first().duration() + total_duration(s.drop_first())
    }
}

/// Whether each span starts at least `gap` after the one before it ends.
pub open spec fn separated(s: Seq<Span>, gap: int) -> bool {
    forall|k: int| 0 < k < s.len() ==> s[k - 1].end + gap <= (#[trigger] s[k]).start
}

/// Whether the spans come in order of time and none overlaps another:
/// each ends before any later one starts.
pub open spec fn chronological(s: Seq<Span>) -> bool {
    forall|i: int, j: int| 0 <= i < j < s.len() ==> (#[trigger] s[i]).end < (#[trigger] s[j]).start
}

/// Whether every session of the sequence keeps its invariant.
pub open spec fn all_wf(sessions: Seq<TimeSpan>) -> bool {
    forall|k: int| 0 <= k < sessions.len() ==> (#[trigger] sessions[k]).wf()
}

} // verus!
