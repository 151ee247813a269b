use std::cell::RefCell;
use std::rc::Rc;
use std::time::{Duration, Instant};

use nala::assistant::Assistant;
use nala::context_budget::TokenCounter;
use nala::dispatch::ToolDispatcherError;
use nala::events::{Event, EventSink};
use nala::llm::{LlmError, LlmResponse, Message, ToolCall, ToolDefinition, ToolOutcome};
use nala::ports::{CancelSignal, Clock, Llm, MemoryError, MemoryStore, NeverCancelled, ToolDispatcher};
use nala::tools::ToolRegistry;
use nala::turn::{AssistantError, LoopLimits};

/// Each prompt the model received: its (role, content) pairs.
type Prompts = Rc<RefCell<Vec<Vec<(String, String)>>>>;

struct ScriptedLlm {
    replies: Rc<RefCell<Vec<Result<LlmResponse, LlmError>>>>,
    calls: Rc<RefCell<usize>>,
    prompts: Prompts,
}

impl Llm for ScriptedLlm {
    /// Promises nothing of the replies: any reply is possible.
    fn spec_generates(&self, _messages: &[Message], _tools: &[&ToolDefinition], _r: &Result<LlmResponse, LlmError>) -> bool {
        true
    }

    fn generate(&mut self, messages: &[Message], _tools: &[&ToolDefinition]) -> Result<LlmResponse, LlmError> {
        *self.calls.borrow_mut() += 1;
        self.prompts
            .borrow_mut()
            .push(messages.iter().map(|m| (m.role.clone(), m.content.clone())).collect());
        let mut replies = self.replies.borrow_mut();
        if replies.is_empty() {
            Ok(LlmResponse::text("fallback".to_string()))
        } else {
            replies.remove(0)
        }
    }
}

struct FakeDispatcher {
    dispatched: Rc<RefCell<Vec<String>>>,
    fail: bool,
    context_fails: bool,
}

impl ToolDispatcher for FakeDispatcher {
    /// Promises nothing of the results.
    fn spec_dispatches(&self, _tool_call: ToolCall, _r: &Result<ToolOutcome, ToolDispatcherError>) -> bool {
        true
    }

    /// Promises nothing of the context.
    fn spec_context(&self, _r: &Result<String, ToolDispatcherError>) -> bool {
        true
    }

    fn dispatch(&mut self, tool_call: ToolCall) -> Result<ToolOutcome, ToolDispatcherError> {
        self.dispatched.borrow_mut().push(tool_call.name.clone());
        if self.fail {
            return Err(ToolDispatcherError::ToolExecuteError("boom".to_string()));
        }
        Ok(ToolOutcome {
            text: format!("ran {}", tool_call.name),
            images: Vec::new(),
            mutated: tool_call.name == "execute_command",
        })
    }

    fn get_context(&mut self) -> Result<String, ToolDispatcherError> {
        if self.context_fails {
            Err(ToolDispatcherError::ToolNotFound)
        } else {
            Ok("system: test".to_string())
        }
    }
}

#[derive(Clone, Default)]
struct RecordingSink {
    events: Rc<RefCell<Vec<Event>>>,
}

impl EventSink for RecordingSink {
    /// Promises nothing of the recorded events.
    fn spec_has_emitted(&self, _event: Event) -> bool {
        true
    }

    /// Promises nothing of the order.
    fn spec_emitted_before(&self, _first: Event, _then: Event) -> bool {
        true
    }

    fn emit(&mut self, event: Event) {
        self.events.borrow_mut().push(event);
    }
}

struct FakeClock {
    sleeps: Rc<RefCell<Vec<Duration>>>,
}

impl Clock for FakeClock {
    /// Records nothing: any duration counts as slept.
    fn spec_slept(&self, _duration: Duration) -> bool {
        true
    }

    fn now(&self) -> Instant {
        Instant::now()
    }

    fn sleep(&self, duration: Duration) {
        self.sleeps.borrow_mut().push(duration);
    }
}

struct CharCounter;

impl TokenCounter for CharCounter {
    fn spec_estimate(&self, message: Message) -> usize {
        self.estimate_message(&message)
    }

    fn estimate_message(&self, message: &Message) -> usize {
        message.content.len() / 4 + 1
    }
}

struct NoMemory;

impl MemoryStore for NoMemory {
    /// Always records.
    fn spec_remembers(&self, _key: String, _value: String, _r: &Result<(), MemoryError>) -> bool {
        true
    }

    fn facts(&mut self) -> Vec<(String, String)> {
        Vec::new()
    }

    fn remember(&mut self, _key: String, _value: String) -> Result<(), MemoryError> {
        Ok(())
    }
}

struct Harness {
    replies: Rc<RefCell<Vec<Result<LlmResponse, LlmError>>>>,
    llm_calls: Rc<RefCell<usize>>,
    prompts: Prompts,
    dispatched: Rc<RefCell<Vec<String>>>,
    sleeps: Rc<RefCell<Vec<Duration>>>,
    events: Rc<RefCell<Vec<Event>>>,
}

fn assistant(
    replies: Vec<Result<LlmResponse, LlmError>>,
    fail: bool,
    context_fails: bool,
) -> (Assistant<ScriptedLlm, FakeDispatcher, RecordingSink>, Harness) {
    let harness = Harness {
        replies: Rc::new(RefCell::new(replies)),
        llm_calls: Rc::new(RefCell::new(0)),
        prompts: Rc::new(RefCell::new(Vec::new())),
        dispatched: Rc::new(RefCell::new(Vec::new())),
        sleeps: Rc::new(RefCell::new(Vec::new())),
        events: Rc::new(RefCell::new(Vec::new())),
    };
    let llm = ScriptedLlm {
        replies: harness.replies.clone(),
        calls: harness.llm_calls.clone(),
        prompts: harness.prompts.clone(),
    };
    let dispatcher = FakeDispatcher { dispatched: harness.dispatched.clone(), fail, context_fails };
    let sink = RecordingSink { events: harness.events.clone() };
    let a = Assistant::new(
        llm,
        dispatcher,
        ToolRegistry::new(),
        sink,
        Box::new(FakeClock { sleeps: harness.sleeps.clone() }),
        Box::new(NeverCancelled),
        Box::new(CharCounter),
        Box::new(NoMemory),
    )
    .with_planning_enabled(false);
    (a, harness)
}

fn text(t: &str) -> Result<LlmResponse, LlmError> {
    Ok(LlmResponse::text(t.to_string()))
}

fn tool(name: &str, arguments: &str) -> Result<LlmResponse, LlmError> {
    Ok(LlmResponse::tool_call(ToolCall { name: name.to_string(), arguments: arguments.to_string() }))
}

#[test]
fn a_text_reply_is_the_answer_and_both_turns_are_persisted() {
    let (mut a, h) = assistant(vec![text("hola")], false, false);
    assert_eq!(a.message_count(), 1);
    assert_eq!(a.process("hi"), Ok("hola".to_string()));
    assert_eq!(a.message_count(), 3);
    assert_eq!(*h.llm_calls.borrow(), 1);
    assert!(a.system_prompt().unwrap().contains("You are Nala"));
}

#[test]
fn a_tool_call_is_dispatched_before_the_answer() {
    let (mut a, h) = assistant(vec![tool("ping", "{}"), text("pong it is")], false, false);
    assert_eq!(a.process("ping please"), Ok("pong it is".to_string()));
    assert_eq!(*h.dispatched.borrow(), vec!["ping".to_string()]);
}

#[test]
fn the_same_call_three_times_in_a_row_is_a_loop() {
    let (mut a, h) = assistant(vec![tool("ping", "{}"), tool("ping", "{}"), tool("ping", "{}")], false, false);
    assert_eq!(a.process("x"), Err(AssistantError::LoopDetected(3)));
    assert_eq!(h.dispatched.borrow().len(), 2);
    assert_eq!(a.message_count(), 2);
}

#[test]
fn an_answer_after_a_mutation_is_held_back_once_for_verification() {
    let (mut a, h) = assistant(
        vec![tool("execute_command", "{\"command\":\"mkdir x\"}"), text("done"), text("verified: done")],
        false,
        false,
    );
    assert_eq!(a.process("make a dir"), Ok("verified: done".to_string()));
    assert_eq!(*h.llm_calls.borrow(), 3);
    assert!(h.events.borrow().iter().any(|e| matches!(e, Event::AnsweredUnverified)));
}

#[test]
fn a_check_after_the_mutation_lets_the_answer_through() {
    let (mut a, h) = assistant(
        vec![tool("execute_command", "{}"), tool("screenshot", "{}"), text("done")],
        false,
        false,
    );
    assert_eq!(a.process("do it"), Ok("done".to_string()));
    assert_eq!(*h.llm_calls.borrow(), 3);
    assert!(!h.events.borrow().iter().any(|e| matches!(e, Event::AnsweredUnverified)));
}

#[test]
fn three_empty_replies_in_a_row_give_up() {
    let (mut a, _h) = assistant(vec![text(""), text("  "), text("\n")], false, false);
    assert_eq!(a.process("x"), Err(AssistantError::EmptyResponse));
}

#[test]
fn consecutive_dispatch_failures_end_the_turn() {
    let (a, _h) = assistant(vec![tool("a", "1"), tool("b", "2"), tool("c", "3")], true, false);
    let mut limits = LoopLimits::default();
    limits.max_consecutive_tool_failures = 2;
    let mut a = a.with_limits(limits);
    assert_eq!(a.process("x"), Err(AssistantError::TooManyConsecutiveToolFailures(2)));
}

#[test]
fn the_tool_call_limit_ends_the_turn() {
    let (a, h) = assistant(vec![tool("a", "1"), tool("b", "2"), tool("c", "3")], false, false);
    let mut limits = LoopLimits::default();
    limits.max_tool_calls = 2;
    let mut a = a.with_limits(limits);
    assert_eq!(a.process("x"), Err(AssistantError::ToolCallLimitExceeded));
    assert_eq!(h.dispatched.borrow().len(), 2);
}

#[test]
fn a_failed_request_is_retried_with_exponential_backoff() {
    let (mut a, h) = assistant(
        vec![
            Err(LlmError::RequestFailed("down".to_string())),
            Err(LlmError::RequestFailed("down".to_string())),
            text("back"),
        ],
        false,
        false,
    );
    assert_eq!(a.process("x"), Ok("back".to_string()));
    assert_eq!(*h.sleeps.borrow(), vec![Duration::from_millis(250), Duration::from_millis(500)]);
}

#[test]
fn an_invalid_response_is_not_retried() {
    let (mut a, h) = assistant(vec![Err(LlmError::InvalidResponse("garbage".to_string()))], false, false);
    assert_eq!(a.process("x"), Err(AssistantError::Llm(LlmError::InvalidResponse("garbage".to_string()))));
    assert!(h.sleeps.borrow().is_empty());
}

#[test]
fn retries_stop_after_the_limit() {
    let down = || Err(LlmError::RequestFailed("down".to_string()));
    let (mut a, h) = assistant(vec![down(), down(), down(), down(), down()], false, false);
    assert_eq!(a.process("x"), Err(AssistantError::Llm(LlmError::RequestFailed("down".to_string()))));
    assert_eq!(*h.llm_calls.borrow(), 4);
    assert_eq!(h.sleeps.borrow().len(), 3);
}

#[test]
fn a_context_failure_is_a_tool_error_and_keeps_the_request() {
    let (mut a, _h) = assistant(vec![text("never")], false, true);
    assert_eq!(a.process("x"), Err(AssistantError::Tool(ToolDispatcherError::ToolNotFound)));
    assert_eq!(a.message_count(), 2);
}

#[test]
fn assistant_errors_render_as_text() {
    assert_eq!(
        AssistantError::LoopDetected(3).message(),
        "loop detected: the same tool call was requested 3 times in a row"
    );
    assert_eq!(AssistantError::TooManyConsecutiveToolFailures(5).message(), "5 tool calls in a row failed");
    assert_eq!(AssistantError::Cancelled.message(), "cancelled");
}

#[test]
fn every_prompt_opens_with_the_conversation_and_the_context() {
    let (mut a, h) = assistant(vec![text("hola"), tool("ping", "{}"), text("listo")], false, false);
    assert_eq!(a.process("hi"), Ok("hola".to_string()));
    assert_eq!(a.process("ping it"), Ok("listo".to_string()));

    let prompts = h.prompts.borrow();
    assert_eq!(prompts.len(), 3);
    let context = "Computer context:\nsystem: test\n\nUse this context when generating commands.";
    for prompt in prompts[1..].iter() {
        assert_eq!(prompt[0].0, "system");
        assert_eq!(prompt[1], ("user".to_string(), "hi".to_string()));
        assert_eq!(prompt[2], ("assistant".to_string(), "hola".to_string()));
        assert_eq!(prompt[3], ("user".to_string(), "ping it".to_string()));
        assert_eq!(prompt[4], ("system".to_string(), context.to_string()));
    }
    assert_eq!(prompts[2].len(), 7);
    assert_eq!(prompts[2][6], ("tool".to_string(), "ran ping".to_string()));
}

struct AlreadyCancelled;

impl CancelSignal for AlreadyCancelled {
    /// Only ever reports a set signal.
    fn spec_may_report(&self, cancelled: bool) -> bool {
        cancelled
    }

    fn is_cancelled(&self) -> bool {
        true
    }
}

#[test]
fn a_cancel_signal_already_set_ends_the_turn_before_any_call() {
    let (a, h) = assistant(vec![tool("ping", "{}"), text("never")], false, false);
    let mut a = a.with_cancel_signal(Box::new(AlreadyCancelled));
    assert_eq!(a.process("x"), Err(AssistantError::Cancelled));
    assert_eq!(*h.llm_calls.borrow(), 0);
    assert!(h.dispatched.borrow().is_empty());
    let events = h.events.borrow();
    assert!(matches!(events[0], Event::RequestStarted));
    let n = events.len();
    assert!(matches!(events[n - 2], Event::Cancelled));
    assert!(matches!(&events[n - 1], Event::RequestFailed { error, .. } if error == "cancelled"));
}

#[test]
fn each_retry_is_reported_with_its_number() {
    let (mut a, h) = assistant(
        vec![
            Err(LlmError::RequestFailed("down".to_string())),
            Err(LlmError::RequestFailed("down".to_string())),
            text("back"),
        ],
        false,
        false,
    );
    assert_eq!(a.process("x"), Ok("back".to_string()));
    let attempts: Vec<u32> = h
        .events
        .borrow()
        .iter()
        .filter_map(|e| match e {
            Event::Retrying { attempt, .. } => Some(*attempt),
            _ => None,
        })
        .collect();
    assert_eq!(attempts, vec![1, 2]);
    assert!(matches!(h.events.borrow().last(), Some(Event::RequestCompleted { .. })));
}

#[test]
fn a_refused_loop_is_reported_as_the_turn_failure() {
    let (mut a, h) = assistant(vec![tool("ping", "{}"), tool("ping", "{}"), tool("ping", "{}")], false, false);
    assert_eq!(a.process("x"), Err(AssistantError::LoopDetected(3)));
    assert!(matches!(h.events.borrow().last(), Some(Event::RequestFailed { error, .. }) if error == "loop detected"));
}
