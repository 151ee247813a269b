//! What the agent reports about its own work while it runs, and the port
//! those reports go out through.
use vstd::prelude::*;
use crate::device::TurnState;

verus! {

/// Which context-budget step freed room in a turn's prompt.
#[derive(Debug, Clone, Copy, PartialEq, Eq)]
pub enum BudgetStep {
    /// Images were stripped from older tool results.
    DroppedImages { count: usize },
    /// Long tool results were cut to a head/tail excerpt.
    TruncatedText { count: usize },
    /// The oldest evictable messages were dropped outright.
    DroppedTurns { count: usize },
}

/// One thing the agent did or saw.
#[derive(Debug, Clone)]
pub enum Event {
    /// The agent's own opening line to a newly connected client.
    Greeting { text: String },
    RequestStarted,
    StateChanged { state: TurnState },
    PlanCreated { plan: String },
    ToolStarted { name: String, arguments: String },
    ToolCompleted { name: String, duration: std::time::Duration, output: String, images: usize },
    /// The turn ended on an answer after a state-changing action that was
    /// never checked.
    AnsweredUnverified,
    RequestCompleted { duration: std::time::Duration },
    RequestFailed { duration: std::time::Duration, error: String },
    Retrying { attempt: u32, error: String },
    LlmStarted { provider: String, model: String, images: usize },
    LlmCompleted { provider: String, model: String, duration: std::time::Duration },
    TokensUsed { prompt_tokens: Option<u32>, completion_tokens: Option<u32> },
    LlmFailed { provider: String, model: String, duration: std::time::Duration, error: String },
    Cancelled,
    BudgetPressure { step: BudgetStep, remaining_estimate: usize },
    TranscriptCompacted { turns_compacted: usize },
    AutonomousEventReceived { event_id: String, source: String, kind: String },
    AutonomousEventIgnored { event_id: String, reason: String },
    AutonomousEventDelegated { event_id: String },
    AutonomousEventCompleted { event_id: String, duration: std::time::Duration, reply: String },
    AutonomousEventFailed { event_id: String, duration: std::time::Duration, error: String },
}

/// `e` reports a failed request with `reason` as its error.
pub open spec fn is_failure_report(e: Event, reason: Seq<char>) -> bool {
    match e {
        Event::RequestFailed { error, .. } => error@ == reason,
        _ => false,
    }
}

/// `sink` has a `Retrying` report for retry number `attempt`.
pub open spec fn reported_retry<E: EventSink>(sink: E, attempt: u32) -> bool {
    exists|error: String| #[trigger] sink.spec_has_emitted(Event::Retrying { attempt, error })
}

/// The retries `1..=n` that `a` has reports for, `b` has too, when every
/// event emitted to `a` is also emitted to `b`.
pub proof fn lemma_retries_kept<E: EventSink>(a: E, b: E, n: u32)
    requires
        forall|e: Event| a.spec_has_emitted(e) ==> #[trigger] b.spec_has_emitted(e),
        forall|k: u32| 1 <= k <= n ==> #[trigger] reported_retry(a, k),
    ensures
        forall|k: u32| 1 <= k <= n ==> #[trigger] reported_retry(b, k),
{
    assert forall|k: u32| 1 <= k <= n implies #[trigger] reported_retry(b, k) by {
        assert(reported_retry(a, k));
        let error = choose|error: String| #[trigger] a.spec_has_emitted(Event::Retrying { attempt: k, error });
        assert(b.spec_has_emitted(Event::Retrying { attempt: k, error }));
    }
}

/// Consumes the agent's events (a console log, a metrics file, a client
/// connection, ...).
pub trait EventSink {
    /// Whether `event` has been emitted to this sink (a sink that keeps no
    /// record holds it of every event). Once emitted, an event stays so.
    spec fn spec_has_emitted(&self, event: Event) -> bool;

    /// Whether `first` was emitted to this sink before `then` (a sink that
    /// keeps no record holds it of every pair). Once so, it stays so.
    spec fn spec_emitted_before(&self, first: Event, then: Event) -> bool;

    fn emit(&mut self, event: Event)
        ensures
            final(self).spec_has_emitted(event),
            forall|e: Event| old(self).spec_has_emitted(e) ==> #[trigger] final(self).spec_has_emitted(e),
            forall|e: Event| old(self).spec_has_emitted(e) ==> #[trigger] final(self).spec_emitted_before(e, event),
            forall|a: Event, b: Event| old(self).spec_emitted_before(a, b) ==> #[trigger] final(self).spec_emitted_before(a, b),
    ;
}

} // verus!
