//! Collecting the histories of all identities of a ping store.
//!
//! The store is asked by the caller, one query at a time; what to ask
//! next and what to make of each answer is decided here. An aggregation
//! starts from the store's list of identities, then takes the timestamps
//! of each identity in the order of that list, and ends with the
//! histories or with the first failure. It never ends with a part of the
//! histories.

use vstd::prelude::*;
use crate::error::{AggregationError, InvalidInputError, StoreAccessError};
use crate::history::{history_for, history_of, History, HistoryModel};
use crate::identity::identity_of;

verus! {

/// The stored text of an identity, and its timestamps as the store gave
/// them.
pub struct PingLog {
    pub identity: Seq<char>,
    pub timestamps: Seq<i64>,
}

/// The texts of a list of identities.
pub open spec fn texts(identities: Seq<String>) -> Seq<Seq<char>> {
    identities.map_values(|s: String| s@)
}

/// The models of a sequence of histories, in the same order.
pub open spec fn models(histories: Seq<History>) -> Seq<HistoryModel> {
    histories.map_values(|h: History| h@)
}

/// Whether every history of the sequence keeps its invariant.
pub open spec fn all_histories_wf(histories: Seq<History>) -> bool {
    forall|k: int| 0 <= k < histories.len() ==> (#[trigger] histories[k]).wf()
}

/// The answers paired with the identities they were given for: the
/// `k`-th answer belongs to the `k`-th identity.
pub open spec fn paired(identities: Seq<Seq<char>>, answers: Seq<Seq<i64>>) -> Seq<PingLog> {
    Seq::new(
        answers.len(),
        |k: int| PingLog { identity: identities[k], timestamps: answers[k] },
    )
}

/// The histories of a sequence of logs: in the order of the logs, one for
/// each log that contributes a history. The first log whose timestamps
/// have a fault makes the whole a failure, with that fault.
pub open spec fn histories_of(logs: Seq<PingLog>) -> Result<Seq<HistoryModel>, InvalidInputError>
    decreases logs.len(),
{
    if logs.len() == 0 {
        Ok(Seq::empty())
    } else {
        match histories_of(logs.drop_last()) {
            Err(e) => Err(e),
            Ok(earlier) => match history_of(
                identity_of(logs.last().identity),
                logs.last().timestamps,
            ) {
                Err(e) => Err(e),
                Ok(None) => Ok(earlier),
                Ok(Some(h)) => Ok(earlier.push(h)),
            },
        }
    }
}

/// An aggregation that waits for the timestamps of its next identity.
pub struct Aggregation {
    identities: Vec<String>,
    cursor: usize,
    histories: Vec<History>,
    answers: Ghost<Seq<Seq<i64>>>,
}

/// How far an aggregation has come.
pub enum Progress {
    /// The timestamps of the pending identity are to be fetched.
    Fetch(Aggregation),
    /// Every identity was answered for: these are the histories.
    Done(Vec<History>),
}

impl Aggregation {
    #[verifier::type_invariant]
    spec fn inv(&self) -> bool {
        &&& self.cursor < self.identities@.len()
        &&& self.answers@.len() == self.cursor
        &&& histories_of(paired(texts(self.identities@), self.answers@)) == Ok::<
            Seq<HistoryModel>,
            InvalidInputError,
        >(models(self.histories@))
        &&& all_histories_wf(self.histories@)
    }

    /// The texts of the identities that the store listed.
    pub closed spec fn identities(&self) -> Seq<Seq<char>> {
        texts(self.identities@)
    }

    /// The timestamps taken so far, one answer for each of the first
    /// identities.
    pub closed spec fn answers(&self) -> Seq<Seq<i64>> {
        self.answers@
    }

    /// Starts an aggregation from the store's answer to the query for its
    /// distinct identities.
    ///
    /// A failed query fails the aggregation. An empty list ends it at
    /// once, with no histories. Otherwise the timestamps of the first
    /// identity are pending.
    pub fn begin(listed: Result<Vec<String>, StoreAccessError>) -> (r: Result<
        Progress,
        AggregationError,
    >)
        ensures
            match listed {
                Err(_) => r == Err::<Progress, AggregationError>(AggregationError::StoreAccess),
                Ok(identities) => match r {
                    Ok(Progress::Fetch(next)) => {
                        &&& identities@.len() > 0
                        &&& next.identities() == texts(identities@)
                        &&& next.answers() == Seq::<Seq<i64>>::empty()
                    },
                    Ok(Progress::Done(histories)) => {
                        &&& identities@.len() == 0
                        &&& histories@.len() == 0
                    },
                    Err(_) => false,
                },
            },
    {
        match listed {
            Err(_) => Err(AggregationError::StoreAccess),
            Ok(identities) => {
                let histories: Vec<History> = Vec::new();
                if identities.len() == 0 {
                    Ok(Progress::Done(histories))
                } else {
                    let ghost answers = Seq::<Seq<i64>>::empty();
                    proof {
                        assert(paired(texts(identities@), answers) =~= Seq::<PingLog>::empty());
                        assert(models(histories@) =~= Seq::<HistoryModel>::empty());
                    }
                    Ok(
                        Progress::Fetch(
                            Aggregation { identities, cursor: 0, histories, answers: Ghost(answers) },
                        ),
                    )
                }
            },
        }
    }

    /// The identity whose timestamps are to be fetched next: the first
    /// that has no answer yet.
    pub fn pending(&self) -> (r: &str)
        ensures
            self.answers().len() < self.identities().len(),
            r@ == self.identities()[self.answers().len() as int],
    {
        proof {
            use_type_invariant(self);
        }
        let ghost at = self.answers@.len() as int;
        assert(texts(self.identities@)[at] == self.identities@[at]@);
        self.identities[self.cursor].as_str()
    }

    /// Takes the store's answer to the query for the pending identity's
    /// timestamps, in ascending order.
    ///
    /// A failed query fails the aggregation, and so does an answer with a
    /// fault, where the identity has more than `NOISE_LIMIT` pings. An
    /// answer that contributes no history is passed over. After the last
    /// identity the histories of all answers are handed out; before it,
    /// the next identity is pending.
    pub fn absorb(self, answer: Result<Vec<i64>, StoreAccessError>) -> (r: Result<
        Progress,
        AggregationError,
    >)
        ensures
            self.answers().len() < self.identities().len(),
            match answer {
                Err(_) => r == Err::<Progress, AggregationError>(AggregationError::StoreAccess),
                Ok(timestamps) => match histories_of(
                    paired(self.identities(), self.answers().push(timestamps@)),
                ) {
                    Err(e) => r == Err::<Progress, AggregationError>(
                        AggregationError::InvalidInput(e),
                    ),
                    Ok(all) => match r {
                        Ok(Progress::Fetch(next)) => {
                            &&& self.answers().len() + 1 < self.identities().len()
                            &&& next.identities() == self.identities()
                            &&& next.answers() == self.answers().push(timestamps@)
                        },
                        Ok(Progress::Done(histories)) => {
                            &&& self.answers().len() + 1 == self.identities().len()
                            &&& models(histories@) == all
                            &&& all_histories_wf(histories@)
                        },
                        Err(_) => false,
                    },
                },
            },
    {
        proof {
            use_type_invariant(&self);
        }
        let timestamps = match answer {
            Ok(timestamps) => timestamps,
            Err(_) => {
                return Err(AggregationError::StoreAccess);
            },
        };
        let Aggregation { identities, cursor, mut histories, answers } = self;
        let at = cursor;
        let total = identities.len();
        let ghost before = paired(texts(identities@), answers@);
        let ghost after = paired(texts(identities@), answers@.push(timestamps@));
        proof {
            assert(after.drop_last() =~= before);
            assert(after.last().identity == identities@[at as int]@);
            assert(after.last().timestamps == timestamps@);
        }
        match history_for(identities[at].as_str(), &timestamps) {
            Err(e) => Err(AggregationError::InvalidInput(e)),
            Ok(contribution) => {
                match contribution {
                    Some(h) => {
                        proof {
                            assert(models(histories@.push(h)) =~= models(histories@).push(h@));
                        }
                        histories.push(h);
                    },
                    None => {},
                }
                if at + 1 < total {
                    Ok(
                        Progress::Fetch(
                            Aggregation {
                                identities,
                                cursor: at + 1,
                                histories,
                                answers: Ghost(answers@.push(timestamps@)),
                            },
                        ),
                    )
                } else {
                    Ok(Progress::Done(histories))
                }
            },
        }
    }
}

} // verus!
