//! The streaming protocol of one call, as a state machine.
//!
//! A stream starts idle, connects, emits chunks in the order in which the
//! backend generated them, and ends with the chunk that carries the finish
//! reason, with an error, or with the caller's cancellation. The caller of
//! this module does the outside work: it performs each action and hands
//! back what happened as the next event. Whenever the state is terminated
//! after an action, the backend's resources are to be released.
//!
//! Chunks are handed over here in generation order; a transport that may
//! reorder them goes through `resequence` first. Chunks and errors pass
//! through; nothing of them is kept.

use crate::chunks::{complete_stream, open_stream};
use crate::error::LLMError;
use crate::model::LLMStreamChunk;
use vstd::prelude::*;

verus! {

/// Where a stream stands.
#[derive(Debug, Clone, Copy, PartialEq, Eq, Structural)]
pub enum StreamPhase {
    /// Not started.
    Idle,
    /// Waiting for the backend's first output. Only here is a failure
    /// retried.
    Connecting,
    /// Chunks are coming.
    Emitting,
    /// Ended with the chunk that carries the finish reason.
    Succeeded,
    /// Ended by an error or by cancellation.
    Failed,
}

impl StreamPhase {
    /// The stream is over.
    pub open spec fn terminated(self) -> bool {
        self is Succeeded || self is Failed
    }

    /// Whether the stream is over.
    pub fn is_terminated(&self) -> (b: bool)
        ensures
            b == self.terminated(),
    {
        match self {
            StreamPhase::Succeeded => true,
            StreamPhase::Failed => true,
            _ => false,
        }
    }
}

/// What happened outside.
#[derive(Debug)]
pub enum StreamEvent {
    /// The caller asked for the stream.
    Start,
    /// The backend produced its next chunk.
    Chunk(LLMStreamChunk),
    /// Connecting or reading failed, or timed out.
    Failure(LLMError),
    /// The caller lost interest.
    Cancel,
}

/// What to do next.
#[derive(Debug)]
pub enum StreamAction {
    /// Open the connection to the backend, for the first time or again.
    Connect,
    /// Hand this chunk to the caller.
    Deliver(LLMStreamChunk),
    /// Hand this error to the caller as the last element of the stream.
    Fail(LLMError),
    /// Release the backend; the caller gets nothing more.
    Close,
    /// Drop the event.
    Ignore,
}

impl StreamAction {
    /// The actions that end a stream: the delivery of the chunk with the
    /// finish reason, the delivery of an error, and the release after a
    /// cancellation.
    pub open spec fn ends_stream(self) -> bool {
        match self {
            StreamAction::Deliver(c) => c.terminal(),
            StreamAction::Fail(_) => true,
            StreamAction::Close => true,
            _ => false,
        }
    }
}

/// A stream's phase and its count of failed connection attempts against
/// the retries allowed.
pub struct StreamView {
    pub phase: StreamPhase,
    pub budget: nat,
    pub failed: nat,
}

impl StreamView {
    /// The same stream in another phase.
    pub open spec fn at(self, phase: StreamPhase) -> StreamView {
        StreamView { phase, budget: self.budget, failed: self.failed }
    }
}

/// A stream that has not started, with `budget` retries allowed.
pub open spec fn initial(budget: nat) -> StreamView {
    StreamView { phase: StreamPhase::Idle, budget, failed: 0 }
}

/// The protocol: the state after an event, and the action it calls for.
///
/// - Idle: `Start` connects. A chunk is dropped, since nothing was asked
///   for yet.
/// - Connecting: the first chunk starts emission. A failure that may be
///   retried connects again while a retry is left.
/// - Emitting: every chunk is delivered. A second `Start` is dropped, here
///   and while connecting.
/// - A chunk that carries a finish reason is delivered and ends the stream
///   with success.
/// - Every failure that is not retried ends the stream with that error,
///   in whatever state it comes; once chunks flow none is retried.
/// - `Cancel` ends a stream that is not over yet, and nothing is handed
///   to the caller for it.
/// - Once the stream is over every event is dropped.
pub open spec fn transition(s: StreamView, e: StreamEvent) -> (StreamView, StreamAction) {
    if s.phase.terminated() {
        (s, StreamAction::Ignore)
    } else {
        match e {
            StreamEvent::Start => if s.phase is Idle {
                (s.at(StreamPhase::Connecting), StreamAction::Connect)
            } else {
                (s, StreamAction::Ignore)
            },
            StreamEvent::Chunk(c) => if s.phase is Idle {
                (s, StreamAction::Ignore)
            } else if c.terminal() {
                (s.at(StreamPhase::Succeeded), StreamAction::Deliver(c))
            } else {
                (s.at(StreamPhase::Emitting), StreamAction::Deliver(c))
            },
            StreamEvent::Failure(err) => if s.phase is Connecting && err.retryable() && s.failed
                < s.budget {
                (
                    StreamView { phase: s.phase, budget: s.budget, failed: s.failed + 1 },
                    StreamAction::Connect,
                )
            } else {
                (s.at(StreamPhase::Failed), StreamAction::Fail(err))
            },
            StreamEvent::Cancel => (s.at(StreamPhase::Failed), StreamAction::Close),
        }
    }
}

/// The state of one stream.
#[derive(Debug)]
pub struct StreamState {
    phase: StreamPhase,
    max_retries: u32,
    failed: u32,
}

impl View for StreamState {
    type V = StreamView;

    closed spec fn view(&self) -> StreamView {
        StreamView {
            phase: self.phase,
            budget: self.max_retries as nat,
            failed: self.failed as nat,
        }
    }
}

impl StreamState {
    #[verifier::type_invariant]
    spec fn within_budget(self) -> bool {
        self.failed <= self.max_retries
    }

    /// A stream that has not started. Up to `max_retries` failed
    /// connection attempts will be retried.
    pub fn new(max_retries: u32) -> (state: StreamState)
        ensures
            state@ == initial(max_retries as nat),
    {
        StreamState { phase: StreamPhase::Idle, max_retries, failed: 0 }
    }

    pub fn phase(&self) -> (phase: StreamPhase)
        ensures
            phase == self@.phase,
    {
        self.phase
    }

    /// Whether the stream is over, so that the backend can be released.
    pub fn is_terminated(&self) -> (b: bool)
        ensures
            b == self@.phase.terminated(),
    {
        self.phase.is_terminated()
    }

    /// The connection attempts that failed and were retried.
    pub fn failed_connections(&self) -> (n: u32)
        ensures
            n == self@.failed,
            n <= self@.budget,
    {
        proof {
            use_type_invariant(self);
        }
        self.failed
    }

    /// Takes the next event and says what to do, as the protocol has it.
    pub fn step(self, event: StreamEvent) -> (next: (StreamState, StreamAction))
        ensures
            (next.0@, next.1) == transition(self@, event),
    {
        proof {
            use_type_invariant(&self);
        }
        if self.phase.is_terminated() {
            return (self, StreamAction::Ignore);
        }
        let idle = match self.phase {
            StreamPhase::Idle => true,
            _ => false,
        };
        let connecting = match self.phase {
            StreamPhase::Connecting => true,
            _ => false,
        };
        let max_retries = self.max_retries;
        let failed = self.failed;
        match event {
            StreamEvent::Start => {
                if idle {
                    (
                        StreamState { phase: StreamPhase::Connecting, max_retries, failed },
                        StreamAction::Connect,
                    )
                } else {
                    (self, StreamAction::Ignore)
                }
            },
            StreamEvent::Chunk(chunk) => {
                if idle {
                    (self, StreamAction::Ignore)
                } else if chunk.is_terminal() {
                    (
                        StreamState { phase: StreamPhase::Succeeded, max_retries, failed },
                        StreamAction::Deliver(chunk),
                    )
                } else {
                    (
                        StreamState { phase: StreamPhase::Emitting, max_retries, failed },
                        StreamAction::Deliver(chunk),
                    )
                }
            },
            StreamEvent::Failure(error) => {
                if connecting && error.is_retryable() && failed < max_retries {
                    (
                        StreamState { phase: StreamPhase::Connecting, max_retries, failed: failed + 1 },
                        StreamAction::Connect,
                    )
                } else {
                    (
                        StreamState { phase: StreamPhase::Failed, max_retries, failed },
                        StreamAction::Fail(error),
                    )
                }
            },
            StreamEvent::Cancel => (
                StreamState { phase: StreamPhase::Failed, max_retries, failed },
                StreamAction::Close,
            ),
        }
    }
}

/// The state after a sequence of events, and the actions they called for,
/// one for each event.
pub open spec fn run(s: StreamView, events: Seq<StreamEvent>) -> (StreamView, Seq<StreamAction>)
    decreases events.len(),
{
    if events.len() == 0 {
        (s, Seq::empty())
    } else {
        let before = run(s, events.drop_last());
        let last = transition(before.0, events.last());
        (last.0, before.1.push(last.1))
    }
}

/// The chunks that a sequence of actions hands to the caller, in order.
pub open spec fn delivered(actions: Seq<StreamAction>) -> Seq<LLMStreamChunk>
    decreases actions.len(),
{
    if actions.len() == 0 {
        Seq::empty()
    } else {
        match actions.last() {
            StreamAction::Deliver(c) => delivered(actions.drop_last()).push(c),
            _ => delivered(actions.drop_last()),
        }
    }
}

/// How often a sequence of actions opens the connection.
pub open spec fn connections(actions: Seq<StreamAction>) -> nat
    decreases actions.len(),
{
    if actions.len() == 0 {
        0
    } else if actions.last() is Connect {
        connections(actions.drop_last()) + 1
    } else {
        connections(actions.drop_last())
    }
}

/// Every event calls for one action, and the actions of the first `n`
/// events are the first `n` actions.
pub proof fn lemma_run_prefix(s: StreamView, events: Seq<StreamEvent>, n: int)
    requires
        0 <= n <= events.len(),
    ensures
        run(s, events).1.len() == events.len(),
        run(s, events.take(n)).1 == run(s, events).1.take(n),
    decreases events.len(),
{
    if events.len() == 0 {
        assert(events.take(n) =~= events);
        assert(run(s, events).1.take(n) =~= run(s, events).1);
    } else {
        lemma_run_prefix(s, events.drop_last(), 0);
        if n == events.len() {
            assert(events.take(n) =~= events);
            assert(run(s, events).1.take(n) =~= run(s, events).1);
        } else {
            lemma_run_prefix(s, events.drop_last(), n);
            assert(events.drop_last().take(n) =~= events.take(n));
            assert(run(s, events).1.take(n) =~= run(s, events.drop_last()).1.take(n));
        }
    }
}

/// Once a stream is over it stays as it is, and every later event is
/// dropped.
pub proof fn lemma_over_is_over(s: StreamView, events: Seq<StreamEvent>, n: int)
    requires
        0 <= n <= events.len(),
        run(s, events.take(n)).0.phase.terminated(),
    ensures
        run(s, events).0 == run(s, events.take(n)).0,
        forall|j: int| n <= j < events.len() ==> #[trigger] run(s, events).1[j] is Ignore,
    decreases events.len(),
{
    if n == events.len() {
        assert(events.take(n) =~= events);
    } else {
        let shorter = events.drop_last();
        assert(shorter.take(n) =~= events.take(n));
        lemma_over_is_over(s, shorter, n);
        lemma_run_prefix(s, shorter, 0);
        assert forall|j: int| n <= j < events.len() implies #[trigger] run(s, events).1[j]
            is Ignore by {
            if j < events.len() - 1 {
                assert(run(s, events).1[j] == run(s, shorter).1[j]);
            }
        }
    }
}

/// The action at position `i` is the one that the protocol gives for the
/// state after the first `i` events and the event at `i`.
pub proof fn lemma_action_at(s: StreamView, events: Seq<StreamEvent>, i: int)
    requires
        0 <= i < events.len(),
    ensures
        run(s, events).1[i] == transition(run(s, events.take(i)).0, events[i]).1,
        run(s, events.take(i + 1)).0 == transition(run(s, events.take(i)).0, events[i]).0,
{
    let upto = events.take(i + 1);
    lemma_run_prefix(s, events, i + 1);
    lemma_run_prefix(s, upto.drop_last(), 0);
    assert(upto.drop_last() =~= events.take(i));
    assert(upto.last() == events[i]);
    let step = transition(run(s, events.take(i)).0, events[i]);
    assert(run(s, upto).1 == run(s, events.take(i)).1.push(step.1));
    assert(run(s, events).1[i] == run(s, events).1.take(i + 1)[i]);
}

/// Nothing follows the end of a stream: after the chunk with the finish
/// reason, after an error, and after the release on cancellation, every
/// event is dropped. So a stream never hands out both a finish reason and
/// an error, nor two of either.
pub proof fn lemma_nothing_after_end(s: StreamView, events: Seq<StreamEvent>, i: int, j: int)
    requires
        0 <= i < j < events.len(),
        run(s, events).1[i].ends_stream(),
    ensures
        run(s, events).1[j] is Ignore,
{
    lemma_action_at(s, events, i);
    lemma_over_is_over(s, events, i + 1);
}

/// Cancellation silences a stream: whatever the backend goes on to
/// produce after the caller cancelled, nothing of it is delivered.
pub proof fn lemma_cancel_silences(s: StreamView, events: Seq<StreamEvent>, i: int, j: int)
    requires
        0 <= i < j < events.len(),
        events[i] is Cancel,
    ensures
        run(s, events).0.phase.terminated(),
        run(s, events).1[j] is Ignore,
{
    lemma_action_at(s, events, i);
    lemma_over_is_over(s, events, i + 1);
}

/// The shape of every stream, whatever happens outside.
///
/// The chunks handed to the caller of a stream that succeeded form a
/// complete stream: exactly one carries a finish reason, and it is the
/// last. In every other state no chunk handed out carries one. Before
/// emission starts nothing has been handed out. The connection is opened
/// at most once more than retries are allowed, and never again once a
/// chunk was delivered.
pub proof fn lemma_stream_shape(budget: nat, events: Seq<StreamEvent>)
    ensures
        ({
            let end = run(initial(budget), events);
            let chunks = delivered(end.1);
            &&& end.0.budget == budget
            &&& end.0.failed <= budget
            &&& end.0.phase is Succeeded ==> complete_stream(chunks)
            &&& !(end.0.phase is Succeeded) ==> open_stream(chunks)
            &&& (end.0.phase is Idle || end.0.phase is Connecting) ==> chunks.len() == 0
            &&& end.0.phase is Emitting ==> chunks.len() > 0
            &&& connections(end.1) <= budget + 1
            &&& end.0.phase is Idle ==> connections(end.1) == 0 && end.0.failed == 0
            &&& end.0.phase is Connecting ==> connections(end.1) == end.0.failed + 1
        }),
    decreases events.len(),
{
    if events.len() > 0 {
        let shorter = events.drop_last();
        lemma_stream_shape(budget, shorter);
        let before = run(initial(budget), shorter);
        let last = transition(before.0, events.last());
        let end = run(initial(budget), events);
        assert(end.1.drop_last() =~= before.1);
        assert(end.1.last() == last.1);
        let old_chunks = delivered(before.1);
        let chunks = delivered(end.1);
        assert(connections(end.1) == connections(before.1) + (if last.1 is Connect {
            1nat
        } else {
            0nat
        }));
        match last.1 {
            StreamAction::Deliver(c) => {
                assert(chunks == old_chunks.push(c));
                assert(open_stream(old_chunks));
                if c.terminal() {
                    assert(chunks.last() == c);
                    assert forall|i: int| 0 <= i < chunks.len() - 1 implies !(
                    #[trigger] chunks[i]).terminal() by {
                        assert(chunks[i] == old_chunks[i]);
                    }
                } else {
                    assert forall|i: int| 0 <= i < chunks.len() implies !(
                    #[trigger] chunks[i]).terminal() by {
                        if i < old_chunks.len() {
                            assert(chunks[i] == old_chunks[i]);
                        }
                    }
                }
            },
            _ => {
                assert(chunks == old_chunks);
            },
        }
    }
}

/// The chunks that a sequence of events offers, in order.
pub open spec fn offered(events: Seq<StreamEvent>) -> Seq<LLMStreamChunk>
    decreases events.len(),
{
    if events.len() == 0 {
        Seq::empty()
    } else {
        match events.last() {
            StreamEvent::Chunk(c) => offered(events.drop_last()).push(c),
            _ => offered(events.drop_last()),
        }
    }
}

/// `part` is the run of `whole` that starts at `from`: the same chunks in
/// the same order, none left out and none repeated.
pub open spec fn run_of(part: Seq<LLMStreamChunk>, whole: Seq<LLMStreamChunk>, from: int) -> bool {
    &&& 0 <= from
    &&& from + part.len() <= whole.len()
    &&& forall|i: int| 0 <= i < part.len() ==> part[i] == whole[from + i]
}

/// Chunks reach the caller in the order in which they were offered. What
/// is delivered is one unbroken run of the offered chunks, and while the
/// stream is connecting or emitting that run reaches up to the chunk
/// offered last: nothing is held back, reordered or repeated.
pub proof fn lemma_delivery_in_order(budget: nat, events: Seq<StreamEvent>)
    ensures
        ({
            let end = run(initial(budget), events);
            exists|from: int|
                {
                    &&& #[trigger] run_of(delivered(end.1), offered(events), from)
                    &&& (end.0.phase is Connecting || end.0.phase is Emitting) ==> from
                        + delivered(end.1).len() == offered(events).len()
                }
        }),
    decreases events.len(),
{
    let end = run(initial(budget), events);
    let got = delivered(end.1);
    let all = offered(events);
    lemma_stream_shape(budget, events);
    if events.len() == 0 {
        assert(run_of(got, all, 0));
    } else {
        let shorter = events.drop_last();
        lemma_delivery_in_order(budget, shorter);
        lemma_stream_shape(budget, shorter);
        let before = run(initial(budget), shorter);
        let old_got = delivered(before.1);
        let old_all = offered(shorter);
        let last = transition(before.0, events.last());
        assert(end.1.drop_last() =~= before.1);
        assert(end.1.last() == last.1);
        let old_from = choose|from: int|
            {
                &&& #[trigger] run_of(old_got, old_all, from)
                &&& (before.0.phase is Connecting || before.0.phase is Emitting) ==> from
                    + old_got.len() == old_all.len()
            };
        if before.0.phase is Idle {
            assert(got.len() == 0);
            assert(run_of(got, all, all.len() as int));
        } else {
            match last.1 {
                StreamAction::Deliver(c) => {
                    assert(got == old_got.push(c));
                    assert(all == old_all.push(c));
                    assert(run_of(got, all, old_from));
                },
                _ => {
                    assert(got == old_got);
                    assert(run_of(got, all, old_from));
                },
            }
        }
    }
}

/// Of the chunks that a stream hands out up to its normal end, exactly
/// one carries a finish reason, and it is the last.
pub proof fn lemma_single_terminal_chunk(budget: nat, events: Seq<StreamEvent>)
    requires
        run(initial(budget), events).0.phase is Succeeded,
    ensures
        complete_stream(delivered(run(initial(budget), events).1)),
{
    lemma_stream_shape(budget, events);
}

/// A stream ends once: of two actions at different positions at most one
/// ends the stream. A stream therefore hands out a finish reason or an
/// error, never both.
pub proof fn lemma_one_ending(s: StreamView, events: Seq<StreamEvent>, i: int, j: int)
    requires
        0 <= i < events.len(),
        0 <= j < events.len(),
        i != j,
        run(s, events).1[i].ends_stream(),
    ensures
        !run(s, events).1[j].ends_stream(),
{
    if i < j {
        lemma_nothing_after_end(s, events, i, j);
    } else if run(s, events).1[j].ends_stream() {
        lemma_nothing_after_end(s, events, j, i);
    }
}

} // verus!
