//! Queue entries and the plan by which messages are delivered.
//!
//! Messages become entries, entries are grouped into batch-send calls of at
//! most ten, and calls into waves of at most five hundred. The caller sends
//! the calls of one wave concurrently, reports how each ended, and starts
//! the next wave only when the whole wave succeeded.

use vstd::prelude::*;
use crate::chunks::{chunk, chunk_count, chunked, chunks, lemma_chunk_len, lemma_chunks_flatten};
use crate::dataset::Dataset;
use crate::json::{json_object, json_object_text};
use crate::error::{
    first_failure, lemma_first_failure_at, lemma_first_failure_exists,
    lemma_first_failure_position, successes, BatchFailure, Error,
};
use crate::message::{message_views, Message, MessageView};
use crate::text::{append_decimal, decimal};

verus! {

/// The most entries that one batch-send call carries.
pub const CALL_CAPACITY: usize = 10;

/// The most batch-send calls that are in flight at once.
pub const WAVE_CAPACITY: usize = 500;

/// One entry of a batch-send call.
#[derive(Clone, Debug, PartialEq, Eq)]
pub struct QueueEntry {
    /// Names the entry within its call.
    pub id: String,
    /// The message, serialized.
    pub body: String,
}

/// What a queue entry holds, as a mathematical value.
pub struct QueueEntryView {
    pub id: Seq<char>,
    pub body: Seq<char>,
}

impl View for QueueEntry {
    type V = QueueEntryView;

    open spec fn view(&self) -> QueueEntryView {
        QueueEntryView { id: self.id@, body: self.body@ }
    }
}

/// The entries of one batch-send call.
pub type Call = Vec<QueueEntry>;

/// The calls that are sent concurrently.
pub type Wave = Vec<Call>;

impl Dataset {
    /// The name under which the dataset appears in a serialized message.
    pub open spec fn variant_name(self) -> Seq<char> {
        match self {
            Dataset::Movies => "Movies"@,
            Dataset::TvShows => "TvShows"@,
            Dataset::Seasons => "Seasons"@,
            Dataset::Episodes => "Episodes"@,
            Dataset::People => "People"@,
            Dataset::Networks => "Networks"@,
            Dataset::Companies => "Companies"@,
        }
    }

    fn variant_text(&self) -> (name: &'static str)
        ensures
            name@ == self.variant_name(),
    {
        match self {
            Dataset::Movies => "Movies",
            Dataset::TvShows => "TvShows",
            Dataset::Seasons => "Seasons",
            Dataset::Episodes => "Episodes",
            Dataset::People => "People",
            Dataset::Networks => "Networks",
            Dataset::Companies => "Companies",
        }
    }
}

impl MessageView {
    /// The id of the message's queue entry: the dataset's label, then the
    /// first and the last identifier, joined by hyphens.
    pub open spec fn entry_id(self) -> Seq<char>
        recommends
            self.ids.len() > 0,
    {
        self.dataset.label() + "-"@ + decimal(self.ids.first() as nat) + "-"@ + decimal(
            self.ids.last() as nat,
        )
    }

    /// The serialized message: the JSON object with the dataset's name
    /// under `dataset` and the identifiers, in order, under `ids`.
    pub open spec fn body(self) -> Option<Seq<char>> {
        json_object_text("dataset"@, self.dataset.variant_name(), "ids"@, self.ids)
    }

    /// The queue entry of the message when `body` is its serialized form,
    /// or why it has none: a message without identifiers has no first and
    /// last identifier to be named by.
    pub open spec fn entry_with(self, body: Seq<char>) -> Result<QueueEntryView, Error> {
        if self.ids.len() == 0 {
            Err(Error::EmptyMessage)
        } else {
            Ok(QueueEntryView { id: self.entry_id(), body })
        }
    }

    /// The queue entry of the message, or why it has none: it is without
    /// identifiers, or it cannot be serialized.
    pub open spec fn entry(self) -> Result<QueueEntryView, Error> {
        if self.ids.len() == 0 {
            Err(Error::EmptyMessage)
        } else {
            match self.body() {
                Some(body) => self.entry_with(body),
                None => Err(Error::Serialize),
            }
        }
    }
}

impl Message {
    /// Serializes the message as the body of its queue entry.
    pub fn body(&self) -> (made: Result<String, Error>)
        ensures
            made matches Ok(text) ==> self@.body() == Some(text@),
            made matches Err(error) ==> self@.body() is None && error is Serialize,
    {
        match json_object("dataset", self.dataset.variant_text(), "ids", &self.ids) {
            Some(text) => Ok(text),
            None => Err(Error::Serialize),
        }
    }
}

impl QueueEntry {
    /// Makes the queue entry of a message whose serialized form is `body`:
    /// the entry is named by the dataset's label and the message's first
    /// and last identifier, and carries `body` as it is. A message without
    /// identifiers is refused.
    pub fn with_body(message: &Message, body: String) -> (made: Result<QueueEntry, Error>)
        ensures
            made matches Ok(entry) ==> message@.entry_with(body@) == Ok::<QueueEntryView, Error>(
                entry@,
            ),
            made matches Err(error) ==> message@.entry_with(body@) == Err::<QueueEntryView, Error>(
                error,
            ),
    {
        let count: usize = message.ids.len();
        if count == 0 {
            return Err(Error::EmptyMessage);
        }
        let mut id: String = message.dataset.to_string();
        id.append("-");
        append_decimal(&mut id, message.ids[0]);
        id.append("-");
        append_decimal(&mut id, message.ids[count - 1]);
        Ok(QueueEntry { id, body })
    }

    /// Makes the queue entry of a message. A message without identifiers
    /// is refused, and so is one that cannot be serialized.
    pub fn try_from(message: Message) -> (made: Result<QueueEntry, Error>)
        ensures
            made matches Ok(entry) ==> message@.entry() == Ok::<QueueEntryView, Error>(entry@),
            made matches Err(error) ==> message@.entry() == Err::<QueueEntryView, Error>(error),
            message.ids.len() == 0 ==> made matches Err(Error::EmptyMessage),
    {
        if message.ids.len() == 0 {
            return Err(Error::EmptyMessage);
        }
        match message.body() {
            Ok(body) => QueueEntry::with_body(&message, body),
            Err(error) => Err(error),
        }
    }
}

/// The views of the entries of one call, in order.
pub open spec fn entry_views(entries: Seq<QueueEntry>) -> Seq<QueueEntryView> {
    Seq::new(entries.len(), |e: int| entries[e]@)
}

/// The views of a sequence of calls, in order.
pub open spec fn call_views(calls: Seq<Call>) -> Seq<Seq<QueueEntryView>> {
    Seq::new(calls.len(), |c: int| entry_views(calls[c]@))
}

/// The views of a sequence of waves, in order.
pub open spec fn wave_views(waves: Seq<Wave>) -> Seq<Seq<Seq<QueueEntryView>>> {
    Seq::new(waves.len(), |w: int| call_views(waves[w]@))
}

/// What becomes of each of a sequence of messages on its way to the queue:
/// its entry, or why it has none.
pub open spec fn entries_of(messages: Seq<MessageView>) -> Seq<Result<QueueEntryView, Error>> {
    Seq::new(messages.len(), |m: int| messages[m].entry())
}

/// Whether some message carries no identifier.
pub open spec fn has_empty_message(messages: Seq<MessageView>) -> bool {
    exists|m: int| 0 <= m < messages.len() && (#[trigger] messages[m]).ids.len() == 0
}

/// One message without identifiers is enough for a failure among the
/// entries.
pub proof fn lemma_empty_message_fails(messages: Seq<MessageView>)
    requires
        has_empty_message(messages),
    ensures
        first_failure(entries_of(messages)) is Some,
{
    let m = choose|m: int| 0 <= m < messages.len() && (#[trigger] messages[m]).ids.len() == 0;
    assert(entries_of(messages)[m] is Err);
    lemma_first_failure_exists(entries_of(messages));
}

/// The delivery plan for `entries`: calls of at most ten entries in input
/// order, grouped into waves of at most five hundred calls.
pub open spec fn dispatch_plan(entries: Seq<QueueEntryView>) -> Seq<Seq<Seq<QueueEntryView>>> {
    chunks(chunks(entries, CALL_CAPACITY as nat), WAVE_CAPACITY as nat)
}

/// The calls of a plan, wave after wave.
pub open spec fn planned_calls(plan: Seq<Seq<Seq<QueueEntryView>>>) -> Seq<Seq<QueueEntryView>> {
    plan.flatten()
}

/// A plan for `n` entries makes the ceiling of `n / 10` calls, each with one
/// to ten entries, in waves of one to five hundred calls; read wave by wave
/// and call by call, the planned entries are the input in its order.
pub proof fn lemma_dispatch_plan_covers(entries: Seq<QueueEntryView>)
    ensures
        planned_calls(dispatch_plan(entries)).len() == (entries.len() + 9) / 10,
        dispatch_plan(entries).len() == (planned_calls(dispatch_plan(entries)).len() + 499) / 500,
        forall|w: int|
            0 <= w < dispatch_plan(entries).len() ==> 1 <= (#[trigger] dispatch_plan(
                entries,
            )[w]).len() <= WAVE_CAPACITY,
        forall|c: int|
            0 <= c < planned_calls(dispatch_plan(entries)).len() ==> 1 <= (#[trigger] planned_calls(
                dispatch_plan(entries),
            )[c]).len() <= CALL_CAPACITY,
        planned_calls(dispatch_plan(entries)).flatten() == entries,
{
    let calls = chunks(entries, CALL_CAPACITY as nat);
    lemma_chunks_flatten(calls, WAVE_CAPACITY as nat);
    lemma_chunks_flatten(entries, CALL_CAPACITY as nat);
    assert forall|w: int| 0 <= w < dispatch_plan(entries).len() implies 1 <= (
    #[trigger] dispatch_plan(entries)[w]).len() <= WAVE_CAPACITY by {
        lemma_chunk_len(calls, WAVE_CAPACITY as nat, w);
    }
    assert forall|c: int| 0 <= c < calls.len() implies 1 <= (#[trigger] calls[c]).len()
        <= CALL_CAPACITY by {
        lemma_chunk_len(entries, CALL_CAPACITY as nat, c);
    }
}

/// Makes the entries of one batch-send call from the messages that it is
/// to carry, in their order. The first message that has no entry fails the
/// whole call.
pub fn queue(batch: Vec<Message>) -> (made: Result<Call, Error>)
    ensures
        first_failure(entries_of(message_views(batch@))) matches Some(error) ==> made == Err::<
            Call,
            Error,
        >(error),
        first_failure(entries_of(message_views(batch@))) is None ==> (made matches Ok(call)
            && entry_views(call@) == successes(entries_of(message_views(batch@)))),
{
    let ghost input: Seq<Message> = batch@;
    let ghost made: Seq<Result<QueueEntryView, Error>> = entries_of(message_views(input));
    let mut call: Call = Vec::new();
    for message in it: batch
        invariant
            it.seq() == input,
            input == batch@,
            made == entries_of(message_views(input)),
            call.len() == it.index(),
            forall|m: int|
                0 <= m < it.index() ==> (#[trigger] made[m]) == Ok::<QueueEntryView, Error>(
                    call[m]@,
                ),
    {
        let ghost at: int = it.index() as int;
        proof {
            assert(made[at] == message@.entry());
        }
        match QueueEntry::try_from(message) {
            Ok(entry) => {
                call.push(entry);
            },
            Err(error) => {
                proof {
                    lemma_first_failure_at(made, at);
                }
                return Err(error);
            },
        }
    }
    proof {
        lemma_first_failure_exists(made);
        assert(entry_views(call@) =~= successes(made));
    }
    Ok(call)
}

/// Plans the delivery of `messages`: turns each into its queue entry, puts
/// the entries ten to a batch-send call and the calls five hundred to a
/// wave, all in input order. The first message that has no entry fails the
/// whole run before anything is sent; a message without identifiers is
/// such a message.
pub fn process_messages(messages: Vec<Message>) -> (planned: Result<Vec<Wave>, Error>)
    ensures
        first_failure(entries_of(message_views(messages@))) matches Some(error) ==> planned
            == Err::<Vec<Wave>, Error>(error),
        first_failure(entries_of(message_views(messages@))) is None ==> (planned matches Ok(waves)
            && wave_views(waves@) == dispatch_plan(
            successes(entries_of(message_views(messages@))),
        )),
        has_empty_message(message_views(messages@)) ==> planned is Err,
        planned matches Ok(waves) ==> planned_calls(wave_views(waves@)).len() == (messages.len()
            + 9) / 10,
{
    let ghost given: Seq<Message> = messages@;
    let ghost made: Seq<Result<QueueEntryView, Error>> = entries_of(message_views(given));
    proof {
        if has_empty_message(message_views(given)) {
            lemma_empty_message_fails(message_views(given));
        }
    }
    let batches: Vec<Vec<Message>> = chunked(messages, CALL_CAPACITY);
    let ghost cut: Seq<Vec<Message>> = batches@;
    let mut calls: Vec<Call> = Vec::new();
    for batch in it: batches
        invariant
            it.seq() == cut,
            given == messages@,
            made == entries_of(message_views(given)),
            cut.len() == chunk_count(given.len(), CALL_CAPACITY as nat),
            forall|k: int|
                0 <= k < cut.len() ==> (#[trigger] cut[k])@ == chunk(
                    given,
                    CALL_CAPACITY as nat,
                    k,
                ),
            calls.len() == it.index(),
            forall|m: int|
                0 <= m < made.len() && m < it.index() * 10 ==> (#[trigger] made[m]) is Ok,
            forall|k: int|
                0 <= k < it.index() ==> entry_views((#[trigger] calls[k])@) == successes(
                    entries_of(message_views(cut[k]@)),
                ),
    {
        let ghost at: int = it.index() as int;
        let ghost inside: Seq<Result<QueueEntryView, Error>> = entries_of(
            message_views(cut[at]@),
        );
        proof {
            lemma_chunk_len(given, CALL_CAPACITY as nat, at);
            crate::chunks::lemma_chunk_start_in_range(given.len(), CALL_CAPACITY as nat, at);
            assert forall|p: int| 0 <= p < inside.len() implies inside[p] == made[at * 10 + p] by {
                assert(cut[at]@[p] == given[at * 10 + p]);
            }
        }
        match queue(batch) {
            Ok(call) => {
                proof {
                    lemma_first_failure_exists(inside);
                    assert forall|m: int|
                        0 <= m < made.len() && m < (at + 1) * 10 implies (
                    #[trigger] made[m]) is Ok by {
                        if m >= at * 10 {
                            assert(inside[m - at * 10] is Ok);
                        }
                    }
                }
                calls.push(call);
            },
            Err(error) => {
                proof {
                    let within = lemma_first_failure_position(inside);
                    assert(made[at * 10 + within] == inside[within]);
                    assert forall|m: int| 0 <= m < at * 10 + within implies (
                    #[trigger] made[m]) is Ok by {
                        if m >= at * 10 {
                            assert(inside[m - at * 10] is Ok);
                        }
                    }
                    lemma_first_failure_at(made, at * 10 + within);
                }
                return Err(error);
            },
        }
    }
    proof {
        crate::chunks::lemma_chunk_count_is_ceiling(given.len(), CALL_CAPACITY as nat);
        assert forall|m: int| 0 <= m < made.len() implies (#[trigger] made[m]) is Ok by {
            assert(m / 10 < cut.len());
        }
        lemma_first_failure_exists(made);
        assert forall|k: int| 0 <= k < calls.len() implies entry_views((#[trigger] calls[k])@)
            == chunk(successes(made), CALL_CAPACITY as nat, k) by {
            lemma_chunk_len(given, CALL_CAPACITY as nat, k);
            crate::chunks::lemma_chunk_start_in_range(given.len(), CALL_CAPACITY as nat, k);
            let inside = entries_of(message_views(cut[k]@));
            assert forall|p: int| 0 <= p < inside.len() implies inside[p] == made[k * 10 + p] by {
                assert(cut[k]@[p] == given[k * 10 + p]);
            }
            assert(successes(inside) =~= chunk(successes(made), CALL_CAPACITY as nat, k));
        }
        assert(call_views(calls@) =~= chunks(successes(made), CALL_CAPACITY as nat));
    }
    let ghost sent: Seq<Call> = calls@;
    let waves: Vec<Wave> = chunked(calls, WAVE_CAPACITY);
    proof {
        assert forall|w: int| 0 <= w < waves.len() implies call_views((#[trigger] waves[w])@)
            == chunk(call_views(sent), WAVE_CAPACITY as nat, w) by {
            lemma_chunk_len(sent, WAVE_CAPACITY as nat, w);
            assert(call_views(waves[w]@) =~= chunk(call_views(sent), WAVE_CAPACITY as nat, w));
        }
        assert(wave_views(waves@) =~= dispatch_plan(successes(made)));
        lemma_dispatch_plan_covers(successes(made));
    }
    Ok(waves)
}

/// Judges the answer to one batch-send call by the entries that the queue
/// reported as failed: none is success, one or more fail the call, whatever
/// became of its other entries.
pub fn queue_outcome(failed: Vec<BatchFailure>) -> (outcome: Result<(), Error>)
    ensures
        failed.len() == 0 ==> outcome is Ok,
        failed.len() > 0 ==> outcome == Err::<(), Error>(Error::BatchResultErrorEntry(failed)),
{
    if failed.len() == 0 {
        Ok(())
    } else {
        Err(Error::from(failed))
    }
}

/// Judges a wave by the outcomes of its calls, once all of them have ended:
/// the wave succeeds when every call did, and fails with the first failure
/// in the given order otherwise.
pub fn wave_outcome(outcomes: Vec<Result<(), Error>>) -> (outcome: Result<(), Error>)
    ensures
        outcome == match first_failure(outcomes@) {
            Some(error) => Err::<(), Error>(error),
            None => Ok::<(), Error>(()),
        },
        outcome is Ok <==> forall|c: int|
            0 <= c < outcomes.len() ==> (#[trigger] outcomes[c]) is Ok,
{
    let ghost all: Seq<Result<(), Error>> = outcomes@;
    proof {
        assert(all.skip(0) =~= all);
        lemma_first_failure_exists(all);
    }
    for ended in it: outcomes
        invariant
            it.seq() == all,
            first_failure(all) == first_failure(all.skip(it.index() as int)),
    {
        let ghost rest: Seq<Result<(), Error>> = all.skip(it.index() as int);
        proof {
            assert(rest.drop_first() =~= all.skip(it.index() + 1));
        }
        match ended {
            Ok(_) => {},
            Err(error) => {
                return Err(error);
            },
        }
    }
    Ok(())
}

/// How far the delivery of a plan has come.
pub struct DispatcherView {
    /// The waves of the plan, in the order in which they are sent.
    pub waves: Seq<Seq<Seq<QueueEntryView>>>,
    /// How many waves have been sent and have succeeded.
    pub sent: nat,
    /// The failure that ended the run, if one did.
    pub failure: Option<Error>,
}

impl DispatcherView {
    /// The wave to send next: none once a wave has failed or all are sent.
    pub open spec fn pending(self) -> Option<Seq<Seq<QueueEntryView>>> {
        if self.failure is None && self.sent < self.waves.len() {
            Some(self.waves[self.sent as int])
        } else {
            None
        }
    }

    /// The state after the pending wave has ended with `outcomes`, one for
    /// each call of the wave: the next wave becomes pending where every
    /// call succeeded, and the run has failed with the wave's first failure
    /// otherwise. A report without a failure that does not hold one outcome
    /// for each call of the wave fails the run as well: a call of which
    /// nothing is known has not succeeded. Without a pending wave there is
    /// nothing to record, and the state stays.
    pub open spec fn record(self, outcomes: Seq<Result<(), Error>>) -> DispatcherView {
        match self.pending() {
            None => self,
            Some(wave) => match first_failure(outcomes) {
                Some(error) => DispatcherView { failure: Some(error), ..self },
                None => if outcomes.len() == wave.len() {
                    DispatcherView { sent: self.sent + 1, ..self }
                } else {
                    DispatcherView { failure: Some(Error::ReportMismatch), ..self }
                },
            },
        }
    }

    /// The result of the run: the failure where one was recorded, success
    /// where every wave was sent and succeeded, and none as long as a wave
    /// is pending.
    pub open spec fn result(self) -> Option<Result<(), Error>> {
        match self.failure {
            Some(error) => Some(Err(error)),
            None => if self.sent < self.waves.len() {
                None
            } else {
                Some(Ok(()))
            },
        }
    }

    /// The state after the waves have ended with `reports`, one after the
    /// other.
    pub open spec fn record_all(self, reports: Seq<Seq<Result<(), Error>>>) -> DispatcherView
        decreases reports.len(),
    {
        if reports.len() == 0 {
            self
        } else {
            self.record(reports.first()).record_all(reports.drop_first())
        }
    }
}

/// One failed call in the pending wave fails the run, however many calls
/// of the wave and however many earlier waves succeeded.
pub proof fn lemma_failed_call_fails_run(
    state: DispatcherView,
    outcomes: Seq<Result<(), Error>>,
    call: int,
)
    requires
        state.pending() is Some,
        0 <= call < outcomes.len(),
        outcomes[call] is Err,
    ensures
        state.record(outcomes).result() matches Some(Err(_)),
{
    lemma_first_failure_exists(outcomes);
}

/// A run that has failed stays failed with the same failure, and no
/// further wave becomes pending: the wave after a failed one is never sent.
pub proof fn lemma_failure_is_final(state: DispatcherView, reports: Seq<Seq<Result<(), Error>>>)
    requires
        state.failure is Some,
    ensures
        state.record_all(reports) == state,
        state.pending() is None,
    decreases reports.len(),
{
    if reports.len() > 0 {
        lemma_failure_is_final(state, reports.drop_first());
    }
}

/// A run succeeds only when every wave of the plan was sent and every call
/// of it ended without a failure: from a state without a failure, success
/// after `reports` means one report for each wave still to send, with one
/// outcome for each call of that wave and none of them a failure.
pub proof fn lemma_success_needs_every_wave(
    state: DispatcherView,
    reports: Seq<Seq<Result<(), Error>>>,
)
    requires
        state.failure is None,
        state.sent <= state.waves.len(),
        state.record_all(reports).result() == Some(Ok::<(), Error>(())),
    ensures
        reports.len() >= state.waves.len() - state.sent,
        forall|w: int|
            0 <= w < state.waves.len() - state.sent ==> {
                &&& (#[trigger] reports[w]).len() == state.waves[state.sent + w].len()
                &&& forall|c: int| 0 <= c < reports[w].len() ==> (#[trigger] reports[w][c]) is Ok
            },
    decreases reports.len(),
{
    if reports.len() == 0 {
    } else if state.pending() is None {
    } else {
        let next = state.record(reports.first());
        if next.failure is Some {
            lemma_failure_is_final(next, reports.drop_first());
        } else {
            lemma_success_needs_every_wave(next, reports.drop_first());
            lemma_first_failure_exists(reports.first());
            assert forall|w: int| 0 <= w < state.waves.len() - state.sent implies {
                &&& (#[trigger] reports[w]).len() == state.waves[state.sent + w].len()
                &&& forall|c: int| 0 <= c < reports[w].len() ==> (#[trigger] reports[w][c]) is Ok
            } by {
                if w > 0 {
                    assert(reports.drop_first()[w - 1] == reports[w]);
                }
            }
        }
    }
}

/// Walks a delivery plan wave by wave. The caller sends the pending wave,
/// waits until every call of it has ended, and records the outcomes; only
/// then is the next wave handed out, and none is after a failure.
pub struct Dispatcher {
    waves: Vec<Wave>,
    sent: usize,
    failure: Option<Error>,
}

impl View for Dispatcher {
    type V = DispatcherView;

    closed spec fn view(&self) -> DispatcherView {
        DispatcherView {
            waves: wave_views(self.waves@),
            sent: self.sent as nat,
            failure: self.failure,
        }
    }
}

impl Dispatcher {
    /// A dispatcher at the start of `waves`: nothing sent, nothing failed.
    pub fn new(waves: Vec<Wave>) -> (dispatcher: Dispatcher)
        ensures
            dispatcher@ == (DispatcherView { waves: wave_views(waves@), sent: 0, failure: None }),
    {
        Dispatcher { waves, sent: 0, failure: None }
    }

    /// The wave to send next, if there is one.
    pub fn pending(&self) -> (wave: Option<&Wave>)
        ensures
            self@.pending() matches Some(calls) ==> (wave matches Some(found) && call_views(found@)
                == calls),
            self@.pending() is None ==> wave is None,
    {
        if self.failure.is_none() && self.sent < self.waves.len() {
            Some(&self.waves[self.sent])
        } else {
            None
        }
    }

    /// Takes note of how the calls of the pending wave ended.
    pub fn record(&mut self, outcomes: Vec<Result<(), Error>>)
        ensures
            final(self)@ == old(self)@.record(outcomes@),
    {
        if self.failure.is_none() && self.sent < self.waves.len() {
            let reported: usize = outcomes.len();
            match wave_outcome(outcomes) {
                Ok(_) => {
                    if reported == self.waves[self.sent].len() {
                        self.sent = self.sent + 1;
                    } else {
                        self.failure = Some(Error::ReportMismatch);
                    }
                },
                Err(error) => {
                    self.failure = Some(error);
                },
            }
        }
    }

    /// The result of the run, once no wave is pending.
    pub fn into_result(self) -> (result: Option<Result<(), Error>>)
        ensures
            result == self@.result(),
    {
        match self.failure {
            Some(error) => Some(Err(error)),
            None => if self.sent < self.waves.len() {
                None
            } else {
                Some(Ok(()))
            },
        }
    }
}

} // verus!
