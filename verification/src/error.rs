//! Why a harvest or a delivery did not succeed.

use vstd::prelude::*;
use vstd::std_specs::convert::FromSpecImpl;

verus! {

/// One entry of a batch-send call that the queue reported as not accepted.
#[derive(Clone, Debug, PartialEq, Eq)]
pub struct BatchFailure {
    /// The id of the entry, as it was sent.
    pub id: String,
    /// The queue's error code for the entry.
    pub code: String,
    /// The queue's explanation, where it gave one.
    pub message: Option<String>,
    /// Whether the queue blames the sender for the failure.
    pub sender_fault: bool,
}

/// The ways in which a run fails. Every one of them ends the run at once:
/// nothing is retried and no partial result is handed out.
#[derive(Clone, Debug, PartialEq, Eq)]
pub enum Error {
    /// The queue answered a batch-send call and reported these entries as
    /// failed. Other entries of the same call may have been accepted.
    BatchResultErrorEntry(Vec<BatchFailure>),
    /// A batch-send call could not be carried out or answered.
    Delivery(String),
    /// A fetch could not be carried out or answered.
    Transport(String),
    /// A snapshot or a feed page was not well-formed.
    Decode(String),
    /// A sync was requested for a dataset without a change feed.
    InvalidDataset,
    /// A message without identifiers cannot become a queue entry.
    EmptyMessage,
    /// A message could not be serialized.
    Serialize,
    /// What was recorded for a wave does not hold one outcome for each
    /// request of the wave.
    ReportMismatch,
}

impl Error {
    /// A short description of the failure.
    pub open spec fn description(self) -> Seq<char> {
        match self {
            Error::BatchResultErrorEntry(_) => "the queue reported failed entries"@,
            Error::Delivery(detail) => "delivery: "@ + detail@,
            Error::Transport(detail) => "transport: "@ + detail@,
            Error::Decode(detail) => "decode: "@ + detail@,
            Error::InvalidDataset => "Invalid dataset for sync"@,
            Error::EmptyMessage => "cannot create a message from empty ids"@,
            Error::Serialize => "cannot serialize a message"@,
            Error::ReportMismatch => "the outcomes recorded do not match the wave"@,
        }
    }

    /// A short description of the failure.
    pub fn to_string(&self) -> (text: String)
        ensures
            text@ == self.description(),
    {
        match self {
            Error::BatchResultErrorEntry(_) => {
                String::from_str("the queue reported failed entries")
            },
            Error::Delivery(detail) => String::from_str("delivery: ").concat(detail.as_str()),
            Error::Transport(detail) => String::from_str("transport: ").concat(detail.as_str()),
            Error::Decode(detail) => String::from_str("decode: ").concat(detail.as_str()),
            Error::InvalidDataset => String::from_str("Invalid dataset for sync"),
            Error::EmptyMessage => String::from_str("cannot create a message from empty ids"),
            Error::Serialize => String::from_str("cannot serialize a message"),
            Error::ReportMismatch => {
                String::from_str("the outcomes recorded do not match the wave")
            },
        }
    }
}

impl From<Vec<BatchFailure>> for Error {
    fn from(failed: Vec<BatchFailure>) -> (error: Error) {
        Error::BatchResultErrorEntry(failed)
    }
}

impl FromSpecImpl<Vec<BatchFailure>> for Error {
    open spec fn obeys_from_spec() -> bool {
        true
    }

    open spec fn from_spec(failed: Vec<BatchFailure>) -> Error {
        Error::BatchResultErrorEntry(failed)
    }
}

/// The first failure of a sequence of outcomes, if there is one.
pub open spec fn first_failure<T>(outcomes: Seq<Result<T, Error>>) -> Option<Error>
    decreases outcomes.len(),
{
    if outcomes.len() == 0 {
        None
    } else {
        match outcomes.first() {
            Err(error) => Some(error),
            Ok(_) => first_failure(outcomes.drop_first()),
        }
    }
}

/// The values of a sequence of outcomes that are all successes.
pub open spec fn successes<T>(outcomes: Seq<Result<T, Error>>) -> Seq<T>
    recommends
        first_failure(outcomes) is None,
{
    Seq::new(outcomes.len(), |k: int| outcomes[k]->Ok_0)
}

/// A sequence of outcomes has a first failure exactly when one of them is
/// a failure: a single failure is enough, however many others succeeded.
pub proof fn lemma_first_failure_exists<T>(outcomes: Seq<Result<T, Error>>)
    ensures
        first_failure(outcomes) is Some <==> exists|c: int|
            0 <= c < outcomes.len() && (#[trigger] outcomes[c]) is Err,
    decreases outcomes.len(),
{
    if outcomes.len() > 0 {
        let rest = outcomes.drop_first();
        lemma_first_failure_exists(rest);
        if outcomes.first() is Ok {
            if exists|c: int| 0 <= c < outcomes.len() && (#[trigger] outcomes[c]) is Err {
                let c: int = choose|c: int|
                    0 <= c < outcomes.len() && (#[trigger] outcomes[c]) is Err;
                assert(rest[c - 1] is Err);
            }
        }
    }
}

/// The first failure stands at a position before which every outcome is a
/// success.
pub proof fn lemma_first_failure_position<T>(outcomes: Seq<Result<T, Error>>) -> (at: int)
    requires
        first_failure(outcomes) is Some,
    ensures
        0 <= at < outcomes.len(),
        outcomes[at] == Err::<T, Error>(first_failure(outcomes)->0),
        forall|c: int| 0 <= c < at ==> (#[trigger] outcomes[c]) is Ok,
    decreases outcomes.len(),
{
    if outcomes.first() is Err {
        0
    } else {
        let rest = outcomes.drop_first();
        let within = lemma_first_failure_position(rest);
        assert forall|c: int| 0 <= c < within + 1 implies (#[trigger] outcomes[c]) is Ok by {
            if c > 0 {
                assert(rest[c - 1] is Ok);
            }
        }
        within + 1
    }
}

/// A failure before which every outcome is a success is the first failure.
pub proof fn lemma_first_failure_at<T>(outcomes: Seq<Result<T, Error>>, at: int)
    requires
        0 <= at < outcomes.len(),
        outcomes[at] is Err,
        forall|c: int| 0 <= c < at ==> (#[trigger] outcomes[c]) is Ok,
    ensures
        first_failure(outcomes) == Some(outcomes[at]->Err_0),
    decreases outcomes.len(),
{
    if at > 0 {
        let rest = outcomes.drop_first();
        assert(outcomes[0] is Ok);
        assert forall|c: int| 0 <= c < at - 1 implies (#[trigger] rest[c]) is Ok by {
            assert(outcomes[c + 1] is Ok);
        }
        lemma_first_failure_at(rest, at - 1);
    }
}

/// Gathers the values of `outcomes` in order, or fails with the first
/// failure among them: one failure is enough, and nothing of the other
/// outcomes is handed out then.
pub fn all_or_first_failure<T>(outcomes: Vec<Result<T, Error>>) -> (gathered: Result<
    Vec<T>,
    Error,
>)
    ensures
        first_failure(outcomes@) matches Some(error) ==> gathered == Err::<Vec<T>, Error>(error),
        first_failure(outcomes@) is None ==> (gathered matches Ok(values) && values@ == successes(
            outcomes@,
        )),
{
    let ghost all: Seq<Result<T, Error>> = outcomes@;
    let mut values: Vec<T> = Vec::new();
    proof {
        assert(all.skip(0) =~= all);
    }
    for outcome in it: outcomes
        invariant
            it.seq() == all,
            all == outcomes@,
            first_failure(all) == first_failure(all.skip(it.index() as int)),
            values.len() == it.index(),
            forall|k: int| 0 <= k < it.index() ==> (#[trigger] all[k]) == Ok::<T, Error>(values[k]),
    {
        proof {
            let rest: Seq<Result<T, Error>> = all.skip(it.index() as int);
            assert(rest.drop_first() =~= all.skip(it.index() + 1));
        }
        match outcome {
            Ok(value) => {
                values.push(value);
            },
            Err(error) => {
                return Err(error);
            },
        }
    }
    Ok(values)
}

} // verus!
