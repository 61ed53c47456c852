//! What holds of the histories of every aggregation.

use vstd::prelude::*;
use crate::aggregation::{histories_of, PingLog};
use crate::error::{IdentityParseError, InvalidInputError};
use crate::history::{history_of, HistoryModel, NOISE_LIMIT};
use crate::identity::identity_of;
use crate::session_laws::lemma_no_gap_one_session;
use crate::sessions::{first_fault, well_formed, DEFAULT_GAP_THRESHOLD};
use crate::timespan::Span;

verus! {

/// The histories of two sequences of logs, one after the other: the
/// first failure, or else all histories in order.
pub open spec fn joined(
    first: Result<Seq<HistoryModel>, InvalidInputError>,
    second: Result<Seq<HistoryModel>, InvalidInputError>,
) -> Result<Seq<HistoryModel>, InvalidInputError> {
    match first {
        Err(e) => Err(e),
        Ok(a) => match second {
            Err(e) => Err(e),
            Ok(b) => Ok(a + b),
        },
    }
}

/// Each log contributes on its own: the histories of logs laid end to end
/// are the histories of the first part, then those of the second.
pub proof fn lemma_histories_join(a: Seq<PingLog>, b: Seq<PingLog>)
    ensures
        histories_of(a + b) == joined(histories_of(a), histories_of(b)),
    decreases b.len(),
{
    if b.len() == 0 {
        assert(a + b =~= a);
        match histories_of(a) {
            Ok(x) => {
                assert(x + Seq::<HistoryModel>::empty() =~= x);
            },
            Err(_) => {},
        }
    } else {
        assert((a + b).drop_last() =~= a + b.drop_last());
        assert((a + b).last() == b.last());
        lemma_histories_join(a, b.drop_last());
        match (histories_of(a), histories_of(b.drop_last())) {
            (Ok(x), Ok(y)) => {
                match history_of(identity_of(b.last().identity), b.last().timestamps) {
                    Ok(Some(h)) => {
                        assert((x + y).push(h) =~= x + y.push(h));
                    },
                    _ => {},
                }
            },
            _ => {},
        }
    }
}

/// An identity with `NOISE_LIMIT` pings or fewer has no history, whatever
/// its pings and its stored text are.
pub proof fn lemma_few_pings_no_history(parsed: Result<u128, IdentityParseError>, ts: Seq<i64>)
    requires
        ts.len() <= NOISE_LIMIT,
    ensures
        history_of(parsed, ts) == Ok::<Option<HistoryModel>, InvalidInputError>(None),
{
}

/// An identity with `NOISE_LIMIT` pings or fewer never shows in an
/// aggregation: the outcome is the same as without its log.
pub proof fn lemma_few_pings_leave_no_trace(logs: Seq<PingLog>, at: int)
    requires
        0 <= at < logs.len(),
        logs[at].timestamps.len() <= NOISE_LIMIT,
    ensures
        histories_of(logs) == histories_of(logs.remove(at)),
{
    let before = logs.take(at);
    let here = seq![logs[at]];
    let after = logs.skip(at + 1);
    assert(logs =~= (before + here) + after);
    assert(logs.remove(at) =~= before + after);
    assert(here.drop_last() =~= Seq::<PingLog>::empty());
    assert(histories_of(here) == Ok::<Seq<HistoryModel>, InvalidInputError>(Seq::empty())) by {
        assert(here.last() == logs[at]);
        assert(histories_of(here.drop_last()) == Ok::<Seq<HistoryModel>, InvalidInputError>(
            Seq::empty(),
        ));
    }
    lemma_histories_join(before, here);
    lemma_histories_join(before + here, after);
    lemma_histories_join(before, after);
    match histories_of(before) {
        Ok(x) => {
            assert(x + Seq::<HistoryModel>::empty() =~= x);
        },
        Err(_) => {},
    }
}

/// An identity with more than `NOISE_LIMIT` pings, each within less than
/// the default gap threshold of the one before, has a history of exactly
/// one session, from its first ping to its last.
pub proof fn lemma_steady_pings_one_session(user: u128, ts: Seq<i64>)
    requires
        ts.len() > NOISE_LIMIT,
        well_formed(ts),
        forall|k: int| 0 < k < ts.len() ==> #[trigger] ts[k] - ts[k - 1] < DEFAULT_GAP_THRESHOLD,
    ensures
        history_of(Ok(user), ts) == Ok::<Option<HistoryModel>, InvalidInputError>(
            Some(
                HistoryModel {
                    user,
                    sessions: seq![Span { start: ts.first() as int, end: ts.last() as int }],
                },
            ),
        ),
{
    lemma_no_gap_one_session(ts, DEFAULT_GAP_THRESHOLD as int);
}

/// Such an identity shows in an aggregation with that one history: where
/// its stored text is an identifier and the logs before it give
/// histories, its log adds exactly that history.
pub proof fn lemma_steady_pings_appear(logs: Seq<PingLog>, log: PingLog)
    requires
        log.timestamps.len() > NOISE_LIMIT,
        well_formed(log.timestamps),
        forall|k: int|
            0 < k < log.timestamps.len() ==> #[trigger] log.timestamps[k] - log.timestamps[k - 1]
                < DEFAULT_GAP_THRESHOLD,
    ensures
        histories_of(logs) is Ok && identity_of(log.identity) is Ok ==> histories_of(
            logs.push(log),
        ) == Ok::<Seq<HistoryModel>, InvalidInputError>(
            histories_of(logs)->Ok_0.push(
                HistoryModel {
                    user: identity_of(log.identity)->Ok_0,
                    sessions: seq![
                        Span {
                            start: log.timestamps.first() as int,
                            end: log.timestamps.last() as int,
                        },
                    ],
                },
            ),
        ),
{
    if identity_of(log.identity) is Ok {
        lemma_steady_pings_one_session(identity_of(log.identity)->Ok_0, log.timestamps);
    }
    assert(logs.push(log).drop_last() =~= logs);
    assert(logs.push(log).last() == log);
}

/// An identity whose stored text is no identifier has no history, unless
/// its pings have a fault, which is reported first.
pub proof fn lemma_unreadable_identity_no_history(
    parsed: Result<u128, IdentityParseError>,
    ts: Seq<i64>,
)
    requires
        parsed is Err,
        ts.len() <= NOISE_LIMIT || first_fault(ts) is None,
    ensures
        history_of(parsed, ts) == Ok::<Option<HistoryModel>, InvalidInputError>(None),
{
}

} // verus!
