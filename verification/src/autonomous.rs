//! Things that happen outside a user's request (a device report, a timer),
//! whether one is worth a model call, and the loop that hands the ones that
//! are to the agent.
use vstd::prelude::*;
use crate::events::{Event, EventSink};
use crate::json::{json_accepts, json_equal, json_parsed, parse_json, same_json};
use crate::ports::{AutonomousAgent, PublishOutcome, elapsed, instant_now};
use crate::text::{decimal_seq, decimal_rendering_parses_back, is_digit, push_decimal, push_str, str_eq, strings_view};

verus! {

/// The text of the id made at `millis` with sequence number `sequence`.
pub open spec fn id_text(millis: nat, sequence: nat) -> Seq<char> {
    decimal_seq(millis) + "-"@ + decimal_seq(sequence)
}

/// An id gives back the time and the sequence number it was made from, so
/// ids made with different sequence numbers (or at different times) never
/// collide.
pub proof fn event_ids_determine_time_and_sequence(m1: nat, s1: nat, m2: nat, s2: nat)
    ensures
        id_text(m1, s1) == id_text(m2, s2) ==> m1 == m2 && s1 == s2,
{
    reveal_strlit("-");
    if id_text(m1, s1) == id_text(m2, s2) {
        let t = id_text(m1, s1);
        let a = decimal_seq(m1);
        let b = decimal_seq(m2);
        decimal_rendering_parses_back(m1);
        decimal_rendering_parses_back(m2);
        decimal_rendering_parses_back(s1);
        decimal_rendering_parses_back(s2);
        assert(t[a.len() as int] == '-');
        assert(id_text(m2, s2)[b.len() as int] == '-');
        if a.len() < b.len() {
            assert(t[a.len() as int] == b[a.len() as int]);
            assert(is_digit(b[a.len() as int]));
        } else if b.len() < a.len() {
            assert(t[b.len() as int] == a[b.len() as int]);
            assert(is_digit(a[b.len() as int]));
        }
        assert(a.len() == b.len());
        assert(a =~= t.subrange(0, a.len() as int));
        assert(b =~= id_text(m2, s2).subrange(0, b.len() as int));
        assert(decimal_seq(s1) =~= t.subrange(a.len() as int + 1, t.len() as int));
        assert(decimal_seq(s2) =~= id_text(m2, s2).subrange(b.len() as int + 1, t.len() as int));
    }
}

/// Identifies one autonomous event: the milliseconds it was created at and
/// a sequence number, as `{millis}-{sequence}`.
#[derive(Debug, Clone, PartialEq, Eq, Hash)]
pub struct AutonomousEventId(String);

impl AutonomousEventId {
    pub closed spec fn spec_text(&self) -> Seq<char> {
        self.0@
    }

    pub fn new(millis: u64, sequence: u64) -> (id: Self)
        ensures
            id.spec_text() == id_text(millis as nat, sequence as nat),
    {
        let mut s = String::new();
        push_decimal(&mut s, millis);
        push_str(&mut s, "-");
        push_decimal(&mut s, sequence);
        AutonomousEventId(s)
    }

    /// The identifier's text.
    pub fn as_str(&self) -> (s: &str)
        ensures
            s@ == self.spec_text(),
    {
        self.0.as_str()
    }
}

/// The sequence number `k` numbers after `start`, wrapping past
/// `u64::MAX` as the counter does.
pub open spec fn sequence_after(start: u64, k: nat) -> u64 {
    ((start as nat + k) % 0x1_0000_0000_0000_0000) as u64
}

/// Hands out the sequence numbers of event ids, one after the other.
pub struct EventIdSequence {
    next: u64,
}

impl EventIdSequence {
    /// The sequence number the next id will carry.
    pub closed spec fn spec_next(&self) -> u64 {
        self.next
    }

    /// A sequence that starts at 0.
    pub fn new() -> (q: Self)
        ensures
            q.spec_next() == 0,
    {
        EventIdSequence { next: 0 }
    }

    /// The id of an event made at `millis`, carrying the next sequence
    /// number; the counter then moves on by one, wrapping past `u64::MAX`.
    pub fn next_id(&mut self, millis: u64) -> (id: AutonomousEventId)
        ensures
            id.spec_text() == id_text(millis as nat, old(self).spec_next() as nat),
            final(self).spec_next() == sequence_after(old(self).spec_next(), 1),
    {
        let id = AutonomousEventId::new(millis, self.next);
        self.next = self.next.wrapping_add(1);
        id
    }
}

/// Ids taken from one sequence never repeat, whatever times they carry,
/// until the counter has gone all the way round: the `i`-th and the `j`-th
/// id after a start differ when fewer than 2^64 ids lie between them.
pub proof fn ids_from_one_sequence_differ(start: u64, i: nat, j: nat, m1: nat, m2: nat)
    requires
        i < j < i + 0x1_0000_0000_0000_0000,
    ensures
        id_text(m1, sequence_after(start, i) as nat) != id_text(m2, sequence_after(start, j) as nat),
{
    let n: int = 0x1_0000_0000_0000_0000;
    let a = start as int + i as int;
    let b = start as int + j as int;
    assert(a % n != b % n) by {
        vstd::arithmetic::div_mod::lemma_fundamental_div_mod(a, n);
        vstd::arithmetic::div_mod::lemma_fundamental_div_mod(b, n);
        if a % n == b % n {
            assert(b - a == n * (b / n) - n * (a / n));
            vstd::arithmetic::mul::lemma_mul_is_distributive_sub(n, b / n, a / n);
            assert(0 < n * (b / n - a / n) < n);
            if b / n - a / n >= 1 {
                vstd::arithmetic::mul::lemma_mul_inequality(1, b / n - a / n, n);
                vstd::arithmetic::mul::lemma_mul_is_commutative(n, b / n - a / n);
            } else {
                vstd::arithmetic::mul::lemma_mul_inequality(b / n - a / n, 0, n);
                vstd::arithmetic::mul::lemma_mul_is_commutative(n, b / n - a / n);
            }
        }
    }
    event_ids_determine_time_and_sequence(m1, sequence_after(start, i) as nat, m2, sequence_after(start, j) as nat);
}

/// One thing that happened outside a user's request. `source` says where
/// it came from (a device id, `"timer"`, ...), `kind` what happened
/// (`"battery_low"`, ...), `payload` is the JSON text of whatever detail the
/// source attached.
#[derive(Debug, Clone)]
pub struct AutonomousEvent {
    pub id: AutonomousEventId,
    pub source: String,
    pub kind: String,
    pub payload: String,
    /// Unix milliseconds.
    pub observed_at_millis: u64,
}

impl AutonomousEvent {
    pub fn new(id: AutonomousEventId, source: String, kind: String, payload: String, observed_at_millis: u64) -> (e: Self)
        ensures
            e.id == id,
            e.source == source,
            e.kind == kind,
            e.payload == payload,
            e.observed_at_millis == observed_at_millis,
    {
        AutonomousEvent { id, source, kind, payload, observed_at_millis }
    }

    /// Whether two events look like the same occurrence: same source, kind
    /// and payload, the payloads compared as JSON values (a payload that is
    /// not JSON, as text). The id and the time, always unique, are ignored.
    pub fn is_duplicate_of(&self, other: &AutonomousEvent) -> (r: bool)
        ensures
            r == (self.source@ == other.source@ && self.kind@ == other.kind@ && payloads_match(self.payload@, other.payload@)),
            (self.source@ == other.source@ && self.kind@ == other.kind@ && self.payload@ == other.payload@) ==> r,
    {
        if !(str_eq(self.source.as_str(), other.source.as_str()) && str_eq(self.kind.as_str(), other.kind.as_str())) {
            return false;
        }
        match (parse_json(self.payload.as_str()), parse_json(other.payload.as_str())) {
            (Ok(a), Ok(b)) => same_json(&a, &b),
            _ => str_eq(self.payload.as_str(), other.payload.as_str()),
        }
    }
}

/// Two payloads match: as JSON values when both are JSON (by `==` on
/// `serde_json::Value`), as text otherwise.
pub open spec fn payloads_match(a: Seq<char>, b: Seq<char>) -> bool {
    if json_accepts(a) && json_accepts(b) {
        json_equal(json_parsed(a)->Ok_0, json_parsed(b)->Ok_0)
    } else {
        a == b
    }
}

/// What should happen with one autonomous event.
#[derive(Debug, Clone, PartialEq)]
pub enum EventDecision {
    /// No action needed: no model call is made.
    Ignore { reason: String },
    /// Worth reasoning about: `prompt` becomes the agent's input.
    Act { prompt: String },
}

/// A decision as whether to act, and the prompt (when acting) or the
/// reason (when not).
pub open spec fn decision_view(d: EventDecision) -> (bool, Seq<char>) {
    match d {
        EventDecision::Act { prompt } => (true, prompt@),
        EventDecision::Ignore { reason } => (false, reason@),
    }
}

/// Decides whether an autonomous event is worth a model call.
pub trait EventPolicy {
    /// The decision for `event`, as `decision_view` shows it.
    spec fn spec_decision(&self, event: AutonomousEvent) -> (bool, Seq<char>);

    fn decide(&self, event: &AutonomousEvent) -> (d: EventDecision)
        ensures
            decision_view(d) == self.spec_decision(*event),
    ;
}

/// Where autonomous events wait between being published and being handled.
pub trait AutonomousEventQueue {
    /// Never blocks: a full queue drops the event instead.
    fn publish(&self, event: AutonomousEvent) -> PublishOutcome;

    /// Blocks until an event is available; `None` once the queue is closed
    /// and drained.
    fn next(&self) -> Option<AutonomousEvent>;

    /// Makes every later `next` return `None` once drained.
    fn close(&self);
}

/// The prompt an event to act on becomes.
pub open spec fn event_prompt(e: AutonomousEvent) -> Seq<char> {
    "An autonomous event occurred.\nSource: "@ + e.source@ + "\nKind: "@ + e.kind@ + "\nDetails: "@ + e.payload@
        + "\n\nDetermine whether any action or response is required, and act on it if so."@
}

/// Acts on a fixed list of event kinds and ignores every other one: an
/// unrecognised kind never costs a model call. The ignore list only
/// documents the common noisy kinds.
pub struct RuleBasedPolicy {
    act_on: Vec<String>,
    ignore: Vec<String>,
}

impl RuleBasedPolicy {
    /// The kinds acted on.
    pub closed spec fn acts_on(&self) -> Seq<Seq<char>> {
        strings_view(self.act_on@)
    }

    /// The kinds listed as ignored.
    pub closed spec fn ignores(&self) -> Seq<Seq<char>> {
        strings_view(self.ignore@)
    }

    pub fn new(act_on: Vec<String>, ignore: Vec<String>) -> (p: Self)
        ensures
            p.acts_on() == strings_view(act_on@),
            p.ignores() == strings_view(ignore@),
    {
        RuleBasedPolicy { act_on, ignore }
    }

    /// The kinds recognised today as worth reasoning about.
    pub fn default_kinds() -> (p: Self)
        ensures
            p.acts_on() == seq!["battery_low"@, "button_pressed"@],
            p.ignores() == seq!["heartbeat"@, "telemetry"@, "device_connected"@, "device_disconnected"@],
    {
        let mut act_on: Vec<String> = Vec::new();
        act_on.push("battery_low".to_owned());
        act_on.push("button_pressed".to_owned());
        let mut ignore: Vec<String> = Vec::new();
        ignore.push("heartbeat".to_owned());
        ignore.push("telemetry".to_owned());
        ignore.push("device_connected".to_owned());
        ignore.push("device_disconnected".to_owned());
        let p = RuleBasedPolicy::new(act_on, ignore);
        assert(p.acts_on() =~= seq!["battery_low"@, "button_pressed"@]);
        assert(p.ignores() =~= seq!["heartbeat"@, "telemetry"@, "device_connected"@, "device_disconnected"@]);
        p
    }

    /// The prompt handed to the agent for `event`.
    pub fn render_prompt(event: &AutonomousEvent) -> (s: String)
        ensures
            s@ == event_prompt(*event),
    {
        let mut s = "An autonomous event occurred.\nSource: ".to_owned();
        push_str(&mut s, event.source.as_str());
        push_str(&mut s, "\nKind: ");
        push_str(&mut s, event.kind.as_str());
        push_str(&mut s, "\nDetails: ");
        push_str(&mut s, event.payload.as_str());
        push_str(&mut s, "\n\nDetermine whether any action or response is required, and act on it if so.");
        s
    }

    /// Acts on `event` exactly when its kind is on the act-on list.
    pub fn decide_event(&self, event: &AutonomousEvent) -> (d: EventDecision)
        ensures
            self.acts_on().contains(event.kind@) ==> (d matches EventDecision::Act { prompt } && prompt@ == event_prompt(*event)),
            !self.acts_on().contains(event.kind@) ==> (d matches EventDecision::Ignore { reason }
                && reason@ == "'"@ + event.kind@ + "' is not on the act-on list"@),
    {
        if crate::text::contains_str(self.act_on.as_slice(), event.kind.as_str()) {
            EventDecision::Act { prompt: RuleBasedPolicy::render_prompt(event) }
        } else {
            let mut reason = "'".to_owned();
            push_str(&mut reason, event.kind.as_str());
            push_str(&mut reason, "' is not on the act-on list");
            EventDecision::Ignore { reason }
        }
    }
}

impl EventPolicy for RuleBasedPolicy {
    /// Acting on the kinds on the act-on list, with the event's prompt;
    /// ignoring any other kind.
    open spec fn spec_decision(&self, event: AutonomousEvent) -> (bool, Seq<char>) {
        if self.acts_on().contains(event.kind@) {
            (true, event_prompt(event))
        } else {
            (false, "'"@ + event.kind@ + "' is not on the act-on list"@)
        }
    }

    fn decide(&self, event: &AutonomousEvent) -> (d: EventDecision) {
        self.decide_event(event)
    }
}

/// `e` reports that `event` was received.
pub open spec fn is_received_report(e: Event, event: AutonomousEvent) -> bool {
    match e {
        Event::AutonomousEventReceived { event_id, source, kind } =>
            event_id@ == event.id.spec_text() && source@ == event.source@ && kind@ == event.kind@,
        _ => false,
    }
}

/// `e` reports that `event` was ignored for `reason`.
pub open spec fn is_ignored_report(e: Event, event: AutonomousEvent, reason: Seq<char>) -> bool {
    match e {
        Event::AutonomousEventIgnored { event_id, reason: r } => event_id@ == event.id.spec_text() && r@ == reason,
        _ => false,
    }
}

/// `e` reports that `event` was handed to the agent.
pub open spec fn is_delegated_report(e: Event, event: AutonomousEvent) -> bool {
    match e {
        Event::AutonomousEventDelegated { event_id } => event_id@ == event.id.spec_text(),
        _ => false,
    }
}

/// `e` reports the agent's `reply` to `event`: the answer on success, the
/// error on failure.
pub open spec fn is_outcome_report(e: Event, event: AutonomousEvent, reply: Result<String, String>) -> bool {
    match (e, reply) {
        (Event::AutonomousEventCompleted { event_id, reply: t, .. }, Ok(x)) => event_id@ == event.id.spec_text() && t == x,
        (Event::AutonomousEventFailed { event_id, error, .. }, Err(x)) => event_id@ == event.id.spec_text() && error == x,
        _ => false,
    }
}

/// Pulls autonomous events off a queue, asks the policy about each, and
/// hands the ones worth acting on to the agent loop.
pub struct AutonomousEventLoop<Q: AutonomousEventQueue, P: EventPolicy, A: AutonomousAgent, E: EventSink> {
    queue: Q,
    policy: P,
    agent: A,
    events: E,
}

impl<Q: AutonomousEventQueue, P: EventPolicy, A: AutonomousAgent, E: EventSink> AutonomousEventLoop<Q, P, A, E> {
    pub closed spec fn spec_queue(&self) -> Q {
        self.queue
    }

    pub closed spec fn spec_policy(&self) -> P {
        self.policy
    }

    pub closed spec fn spec_agent(&self) -> A {
        self.agent
    }

    pub closed spec fn spec_events(&self) -> E {
        self.events
    }

    pub fn new(queue: Q, policy: P, agent: A, events: E) -> (r: Self)
        ensures
            r.spec_queue() == queue,
            r.spec_policy() == policy,
            r.spec_agent() == agent,
            r.spec_events() == events,
    {
        AutonomousEventLoop { queue, policy, agent, events }
    }

    /// The next event from the queue, blocking; `None` once it is closed
    /// and drained.
    pub fn next_event(&self) -> Option<AutonomousEvent> {
        self.queue.next()
    }

    /// Handles one event: reports it, asks the policy, and when the policy
    /// says to act, runs the prompt through the agent and reports the
    /// reply or the failure.
    pub fn process(&mut self, event: AutonomousEvent)
        ensures
            !old(self).spec_policy().spec_decision(event).0 ==> final(self).spec_agent() == old(self).spec_agent(),
            exists|e: Event| #[trigger] final(self).spec_events().spec_has_emitted(e) && is_received_report(e, event),
            !old(self).spec_policy().spec_decision(event).0 ==> exists|r: Event, i: Event|
                #[trigger] final(self).spec_events().spec_emitted_before(r, i)
                    && final(self).spec_events().spec_has_emitted(r)
                    && final(self).spec_events().spec_has_emitted(i)
                    && is_received_report(r, event)
                    && is_ignored_report(i, event, old(self).spec_policy().spec_decision(event).1),
            old(self).spec_policy().spec_decision(event).0 ==> exists|prompt: &str, reply: Result<String, String>, r: Event, d: Event, o: Event|
                #![trigger old(self).spec_agent().spec_responds(prompt, &reply), final(self).spec_events().spec_emitted_before(r, d), final(self).spec_events().spec_emitted_before(d, o)]
                prompt@ == old(self).spec_policy().spec_decision(event).1
                    && old(self).spec_agent().spec_responds(prompt, &reply)
                    && final(self).spec_events().spec_has_emitted(r)
                    && final(self).spec_events().spec_has_emitted(d)
                    && final(self).spec_events().spec_has_emitted(o)
                    && final(self).spec_events().spec_emitted_before(r, d)
                    && final(self).spec_events().spec_emitted_before(d, o)
                    && is_received_report(r, event)
                    && is_delegated_report(d, event)
                    && is_outcome_report(o, event, reply),
            final(self).spec_policy() == old(self).spec_policy(),
            final(self).spec_queue() == old(self).spec_queue(),
    {
        let event_id = event.id.as_str().to_owned();
        let received = Event::AutonomousEventReceived {
            event_id: event_id.clone(),
            source: event.source.clone(),
            kind: event.kind.clone(),
        };
        let ghost received_event = received;
        assert(is_received_report(received_event, event));
        self.events.emit(received);
        let decision = self.policy.decide(&event);
        match decision {
            EventDecision::Ignore { reason } => {
                let ignored = Event::AutonomousEventIgnored { event_id, reason };
                let ghost ignored_event = ignored;
                self.events.emit(ignored);
                assert(self.spec_events().spec_has_emitted(received_event));
                assert(self.spec_events().spec_has_emitted(ignored_event));
                assert(self.spec_events().spec_emitted_before(received_event, ignored_event));
                assert(is_ignored_report(ignored_event, event, old(self).spec_policy().spec_decision(event).1));
            },
            EventDecision::Act { prompt } => {
                let delegated = Event::AutonomousEventDelegated { event_id: event_id.clone() };
                let ghost delegated_event = delegated;
                assert(is_delegated_report(delegated_event, event));
                self.events.emit(delegated);
                let started = instant_now();
                let asked = prompt.as_str();
                let reply = self.agent.respond_to(asked);
                assert(old(self).spec_agent().spec_responds(asked, &reply));
                let ghost answer = reply;
                let outcome = match reply {
                    Ok(reply) => {
                        let duration = elapsed(&started);
                        Event::AutonomousEventCompleted { event_id, duration, reply }
                    },
                    Err(error) => {
                        let duration = elapsed(&started);
                        Event::AutonomousEventFailed { event_id, duration, error }
                    },
                };
                let ghost outcome_event = outcome;
                assert(is_outcome_report(outcome_event, event, answer));
                self.events.emit(outcome);
                assert(self.spec_events().spec_has_emitted(received_event));
                assert(self.spec_events().spec_has_emitted(delegated_event));
                assert(self.spec_events().spec_has_emitted(outcome_event));
                assert(self.spec_events().spec_emitted_before(received_event, delegated_event));
                assert(self.spec_events().spec_emitted_before(delegated_event, outcome_event));
                assert(old(self).spec_agent().spec_responds(asked, &answer));
            },
        }
    }

    /// The sink the loop reports to.
    pub fn events(&self) -> (r: &E)
        ensures
            *r == self.spec_events(),
    {
        &self.events
    }
}

} // verus!
