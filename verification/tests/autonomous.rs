use std::cell::RefCell;
use std::rc::Rc;

use nala::autonomous::{
    AutonomousEvent, AutonomousEventId, AutonomousEventLoop, AutonomousEventQueue, EventDecision, EventPolicy, RuleBasedPolicy,
};
use nala::events::{Event, EventSink};
use nala::ports::{AutonomousAgent, PublishOutcome};

/// The JSON text of `{"percent": n}`.
fn percent_payload(n: u64) -> String {
    let mut map = serde_json::Map::new();
    map.insert("percent".to_string(), serde_json::Value::from(n));
    serde_json::Value::Object(map).to_string()
}

fn empty_payload() -> String {
    serde_json::Value::Object(serde_json::Map::new()).to_string()
}

fn event(id: u64, source: &str, kind: &str, payload: String) -> AutonomousEvent {
    AutonomousEvent::new(AutonomousEventId::new(1_700_000_000_000, id), source.to_string(), kind.to_string(), payload, 1_700_000_000_000)
}

#[test]
fn two_events_with_the_same_source_kind_and_payload_are_duplicates() {
    let payload = percent_payload(9);
    let a = event(0, "esp32-bedroom", "battery_low", payload.clone());
    let b = event(1, "esp32-bedroom", "battery_low", payload);

    assert!(a.is_duplicate_of(&b));
}

#[test]
fn events_with_different_payloads_are_not_duplicates() {
    let a = event(0, "esp32-bedroom", "battery_low", percent_payload(9));
    let b = event(1, "esp32-bedroom", "battery_low", percent_payload(50));

    assert!(!a.is_duplicate_of(&b));
}

#[test]
fn events_from_different_sources_are_not_duplicates() {
    let payload = percent_payload(9);
    let a = event(0, "esp32-bedroom", "battery_low", payload.clone());
    let b = event(1, "esp32-kitchen", "battery_low", payload);

    assert!(!a.is_duplicate_of(&b));
}

#[test]
fn default_kinds_acts_on_battery_low() {
    let policy = RuleBasedPolicy::default_kinds();
    let event = event(0, "esp32-bedroom", "battery_low", empty_payload());

    assert!(matches!(policy.decide(&event), EventDecision::Act { .. }));
}

#[test]
fn default_kinds_ignores_a_heartbeat() {
    let policy = RuleBasedPolicy::default_kinds();
    let event = event(0, "esp32-bedroom", "heartbeat", empty_payload());

    assert!(matches!(policy.decide(&event), EventDecision::Ignore { .. }));
}

#[test]
fn an_unknown_kind_is_ignored_with_its_reason() {
    let policy = RuleBasedPolicy::default_kinds();
    let event = event(0, "timer", "sunrise", empty_payload());
    assert_eq!(
        policy.decide(&event),
        EventDecision::Ignore { reason: "'sunrise' is not on the act-on list".to_string() }
    );
}

#[test]
fn the_prompt_names_the_source_kind_and_details() {
    let policy = RuleBasedPolicy::default_kinds();
    let event = event(0, "esp32-bedroom", "button_pressed", percent_payload(9));
    assert_eq!(
        policy.decide(&event),
        EventDecision::Act {
            prompt: "An autonomous event occurred.\nSource: esp32-bedroom\nKind: button_pressed\nDetails: {\"percent\":9}\n\nDetermine whether any action or response is required, and act on it if so.".to_string()
        }
    );
}

#[test]
fn an_event_id_is_millis_then_sequence() {
    assert_eq!(AutonomousEventId::new(1700000000123, 42).as_str(), "1700000000123-42");
}

#[test]
fn ids_made_from_different_counters_never_collide() {
    let a = AutonomousEventId::new(12, 3);
    let b = AutonomousEventId::new(1, 23);
    assert_eq!(a.as_str(), "12-3");
    assert_eq!(b.as_str(), "1-23");
    assert_ne!(a, b);
    assert_eq!(AutonomousEventId::new(0, 0).as_str(), "0-0");
    assert_eq!(AutonomousEventId::new(u64::MAX, 10).as_str(), "18446744073709551615-10");
}

struct NoQueue;

impl AutonomousEventQueue for NoQueue {
    fn publish(&self, _event: AutonomousEvent) -> PublishOutcome {
        PublishOutcome::Dropped
    }

    fn next(&self) -> Option<AutonomousEvent> {
        None
    }

    fn close(&self) {}
}

struct ScriptedAgent {
    prompts: Rc<RefCell<Vec<String>>>,
    reply: Result<String, String>,
}

impl AutonomousAgent for ScriptedAgent {
    /// Promises nothing of the reply.
    fn spec_responds(&self, _prompt: &str, _r: &Result<String, String>) -> bool {
        true
    }

    fn respond_to(&mut self, prompt: &str) -> Result<String, String> {
        self.prompts.borrow_mut().push(prompt.to_string());
        self.reply.clone()
    }
}

#[derive(Default)]
struct EventLog {
    events: Vec<Event>,
}

impl EventSink for EventLog {
    /// Promises nothing of the log.
    fn spec_has_emitted(&self, _event: Event) -> bool {
        true
    }

    /// Promises nothing of the order.
    fn spec_emitted_before(&self, _first: Event, _then: Event) -> bool {
        true
    }

    fn emit(&mut self, event: Event) {
        self.events.push(event);
    }
}

fn event_loop(reply: Result<String, String>) -> (AutonomousEventLoop<NoQueue, RuleBasedPolicy, ScriptedAgent, EventLog>, Rc<RefCell<Vec<String>>>) {
    let prompts = Rc::new(RefCell::new(Vec::new()));
    let agent = ScriptedAgent { prompts: prompts.clone(), reply };
    (AutonomousEventLoop::new(NoQueue, RuleBasedPolicy::default_kinds(), agent, EventLog::default()), prompts)
}

#[test]
fn an_ignored_event_is_reported_and_never_reaches_the_agent() {
    let (mut l, prompts) = event_loop(Ok("done".to_string()));
    l.process(event(7, "esp32-bedroom", "heartbeat", empty_payload()));
    assert!(prompts.borrow().is_empty());
    let events = &l.events().events;
    assert_eq!(events.len(), 2);
    assert!(matches!(&events[0], Event::AutonomousEventReceived { event_id, source, kind }
        if event_id == "1700000000000-7" && source == "esp32-bedroom" && kind == "heartbeat"));
    assert!(matches!(&events[1], Event::AutonomousEventIgnored { event_id, reason }
        if event_id == "1700000000000-7" && reason == "'heartbeat' is not on the act-on list"));
}

#[test]
fn an_acted_on_event_hands_its_prompt_to_the_agent_and_reports_the_reply() {
    let (mut l, prompts) = event_loop(Ok("lights dimmed".to_string()));
    let e = event(3, "esp32-bedroom", "battery_low", percent_payload(9));
    let expected = RuleBasedPolicy::render_prompt(&e);
    l.process(e);
    assert_eq!(*prompts.borrow(), vec![expected]);
    let events = &l.events().events;
    assert!(matches!(&events[1], Event::AutonomousEventDelegated { event_id } if event_id == "1700000000000-3"));
    assert!(matches!(events.last(), Some(Event::AutonomousEventCompleted { event_id, reply, .. })
        if event_id == "1700000000000-3" && reply == "lights dimmed"));
}

#[test]
fn a_failed_reply_is_reported_as_a_failure() {
    let (mut l, _prompts) = event_loop(Err("model down".to_string()));
    l.process(event(4, "esp32-bedroom", "button_pressed", empty_payload()));
    assert!(matches!(l.events().events.last(), Some(Event::AutonomousEventFailed { event_id, error, .. })
        if event_id == "1700000000000-4" && error == "model down"));
}

#[test]
fn payloads_are_compared_as_json_values() {
    let a = event(0, "esp32-bedroom", "battery_low", "{\"percent\": 9, \"unit\": \"%\"}".to_string());
    let b = event(1, "esp32-bedroom", "battery_low", "{\"unit\":\"%\",\"percent\":9}".to_string());
    assert!(a.is_duplicate_of(&b));
    let c = event(2, "esp32-bedroom", "battery_low", "not json".to_string());
    let d = event(3, "esp32-bedroom", "battery_low", "not json".to_string());
    assert!(c.is_duplicate_of(&d));
    assert!(!a.is_duplicate_of(&c));
}

#[test]
fn ids_from_one_sequence_never_repeat() {
    let mut sequence = nala::autonomous::EventIdSequence::new();
    let a = sequence.next_id(1_700_000_000_000);
    let b = sequence.next_id(1_700_000_000_000);
    assert_eq!(a.as_str(), "1700000000000-0");
    assert_eq!(b.as_str(), "1700000000000-1");
    assert_ne!(a, b);
}
