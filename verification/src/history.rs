//! The history of one identity.

use vstd::prelude::*;
use crate::error::{IdentityParseError, InvalidInputError};
use crate::identity::{identity_of, parse_identity};
use crate::session_laws::lemma_sessions_chronological;
use crate::sessions::{
    first_fault, lemma_fault_free, reconstruct, sessions, DEFAULT_GAP_THRESHOLD,
};
use crate::timespan::{all_wf, chronological, spans, Span, TimeSpan};

verus! {

/// An identity with this many pings or fewer has no history: so few
/// samples are taken for noise.
pub const NOISE_LIMIT: usize = 4;

/// The mathematical model of a history.
pub struct HistoryModel {
    pub user: u128,
    pub sessions: Seq<Span>,
}

/// The sessions of one identity, earliest first.
#[derive(Clone, Debug, PartialEq, Eq)]
pub struct History {
    pub user: u128,
    pub online_history: Vec<TimeSpan>,
}

impl View for History {
    type V = HistoryModel;

    open spec fn view(&self) -> HistoryModel {
        HistoryModel { user: self.user, sessions: spans(self.online_history@) }
    }
}

impl History {
    /// The invariant of a history: each session keeps its own invariant,
    /// and each ends before the next starts.
    pub open spec fn wf(&self) -> bool {
        &&& all_wf(self.online_history@)
        &&& chronological(spans(self.online_history@))
    }
}

/// What the pings `ts` of an identity contribute to an aggregation, given
/// how its stored text reads: nothing for `NOISE_LIMIT` pings or fewer;
/// else the first fault of `ts` where it has one; else nothing where the
/// text is no identifier; else the history of the sessions of `ts` at the
/// default gap threshold.
pub open spec fn history_of(parsed: Result<u128, IdentityParseError>, ts: Seq<i64>) -> Result<
    Option<HistoryModel>,
    InvalidInputError,
> {
    if ts.len() <= NOISE_LIMIT {
        Ok(None)
    } else {
        match first_fault(ts) {
            Some(e) => Err(e),
            None => match parsed {
                Ok(user) => Ok(
                    Some(
                        HistoryModel {
                            user,
                            sessions: sessions(ts, DEFAULT_GAP_THRESHOLD as int),
                        },
                    ),
                ),
                Err(_) => Ok(None),
            },
        }
    }
}

/// Whether `r` is a history, or none, or a fault, with the model `m`.
pub open spec fn yields(
    r: Result<Option<History>, InvalidInputError>,
    m: Result<Option<HistoryModel>, InvalidInputError>,
) -> bool {
    match r {
        Ok(Some(h)) => m == Ok::<Option<HistoryModel>, InvalidInputError>(Some(h@)) && h.wf(),
        Ok(None) => m == Ok::<Option<HistoryModel>, InvalidInputError>(None),
        Err(e) => m == Err::<Option<HistoryModel>, InvalidInputError>(e),
    }
}

/// Builds the history of an identity from its pings, given how its stored
/// text was read.
pub fn history_from(parsed: Result<u128, IdentityParseError>, timestamps: &Vec<i64>) -> (r: Result<
    Option<History>,
    InvalidInputError,
>)
    ensures
        yields(r, history_of(parsed, timestamps@)),
{
    if timestamps.len() <= NOISE_LIMIT {
        return Ok(None);
    }
    proof {
        lemma_fault_free(timestamps@);
    }
    let online_history = match reconstruct(timestamps, DEFAULT_GAP_THRESHOLD) {
        Ok(v) => v,
        Err(e) => {
            return Err(e);
        },
    };
    match parsed {
        Ok(user) => {
            proof {
                lemma_sessions_chronological(timestamps@, DEFAULT_GAP_THRESHOLD as int);
            }
            Ok(Some(History { user, online_history }))
        },
        Err(_) => Ok(None),
    }
}

/// Builds the history of the identity stored as `identity` from its
/// pings.
pub fn history_for(identity: &str, timestamps: &Vec<i64>) -> (r: Result<
    Option<History>,
    InvalidInputError,
>)
    ensures
        yields(r, history_of(identity_of(identity@), timestamps@)),
{
    history_from(parse_identity(identity), timestamps)
}

} // verus!
