//! The agent loop: one user request in, one answer (or the reason there is
//! none) out, with the model asked for tool calls in between and every
//! limit of `LoopLimits` enforced along the way.
use vstd::prelude::*;
use crate::context_budget::{
    ContextBudget, TokenCounter, default_context_budget, cost_sum, message_costs, sum_costs, evictable_image_total, evict_images,
    truncate_long_tool_results, drop_oldest_until_fits, image_count, image_positions, images_stripped, results_truncated,
};
use crate::device::TurnState;
use crate::dispatch::ToolDispatcherError;
use crate::events::{BudgetStep, Event, EventSink, is_failure_report, reported_retry, lemma_retries_kept};
use crate::llm::{
    LlmError, LlmResponse, Message, ToolCall, ToolOutcome, copy_messages, plain_message, same_message, system_message,
    user_message, assistant_text_message, assistant_tool_call_message, tool_result_message,
};
use crate::ports::{AutonomousAgent, CancelSignal, Clock, Llm, MemoryStore, ToolDispatcher, elapsed, instant_now, duration_new, duration_of};
use crate::prompts::{
    SYSTEM_PROMPT, planning_message, plan_message, context_message, verify_nudge, empty_nudge, usable_text,
    compact_split, summarize_request, splice_summary, is_context_message, tool_summary_seq, PLANNING_INSTRUCTIONS,
    SUMMARIZE_INSTRUCTIONS,
};
use crate::text::{is_blank, is_blank_seq, push_str};
use crate::tools::ToolRegistry;
use crate::transcript::{Transcript, pushed};
use crate::turn::{AssistantError, LoopLimits, MAX_EMPTY_RESPONSES, default_loop_limits, TextStep, TurnGuard, pow2, retry_delay_ms, lemma_backoff_mono, backoff, spec_should_retry};

verus! {

/// How many requests in a row, ending at `i`, are the same request as
/// `calls[i]`.
pub open spec fn run_length(calls: Seq<ToolCall>, i: int) -> nat
    decreases i,
{
    if i <= 0 {
        1
    } else if calls[i - 1].same_as(calls[i]) {
        run_length(calls, i - 1) + 1
    } else {
        1
    }
}

/// Calls that each change the arguments of the call before never repeat
/// a request: every run is one call long, so for any limit above one such
/// a sequence never reaches a loop, whatever tools it names.
pub proof fn changing_arguments_never_loops(calls: Seq<ToolCall>, limit: nat)
    requires
        limit >= 2,
        forall|i: int| 0 < i < calls.len() ==> #[trigger] calls[i].arguments@ != calls[i - 1].arguments@,
    ensures
        forall|i: int| 0 <= i < calls.len() ==> #[trigger] run_length(calls, i) == 1,
        no_loop(calls, limit),
{
    assert forall|i: int| 0 <= i < calls.len() implies #[trigger] run_length(calls, i) == 1 by {
        if i > 0 {
            assert(calls[i].arguments@ != calls[i - 1].arguments@);
            assert(!calls[i - 1].same_as(calls[i]));
        }
    }
}

/// No request in `calls` is the `limit`-th identical one in a row.
pub open spec fn no_loop(calls: Seq<ToolCall>, limit: nat) -> bool {
    forall|i: int| 0 <= i < calls.len() ==> #[trigger] run_length(calls, i) < limit
}

proof fn lemma_run_length_push(calls: Seq<ToolCall>, x: ToolCall, i: int)
    requires
        0 <= i < calls.len(),
    ensures
        run_length(calls.push(x), i) == run_length(calls, i),
    decreases i,
{
    if i > 0 {
        lemma_run_length_push(calls, x, i - 1);
    }
}

/// `prompt` opens with `history`, message for message, followed by a
/// computer-context message.
pub open spec fn opens_with(prompt: Seq<Message>, history: Seq<Message>) -> bool {
    &&& prompt.len() > history.len()
    &&& forall|i: int| 0 <= i < history.len() ==> same_message(#[trigger] prompt[i], history[i])
    &&& is_context_message(prompt[history.len() as int])
}

proof fn lemma_opens_with_prefix(a: Seq<Message>, b: Seq<Message>, history: Seq<Message>, p: int)
    requires
        opens_with(a, history),
        history.len() < p <= a.len(),
        p <= b.len(),
        b.subrange(0, p) == a.subrange(0, p),
    ensures
        opens_with(b, history),
{
    assert forall|i: int| 0 <= i <= history.len() implies #[trigger] b[i] == a[i] by {
        assert(b[i] == b.subrange(0, p)[i]);
        assert(a[i] == a.subrange(0, p)[i]);
    }
    assert(b[history.len() as int] == a[history.len() as int]);
}

proof fn lemma_opens_with_push(a: Seq<Message>, x: Message, history: Seq<Message>)
    requires
        opens_with(a, history),
    ensures
        opens_with(a.push(x), history),
{
    assert forall|i: int| 0 <= i <= history.len() implies #[trigger] a.push(x)[i] == a[i] by {}
    assert(a.push(x)[history.len() as int] == a[history.len() as int]);
}

/// Every prompt from position `from` on that was sent with the tools
/// opens with `history`.
pub open spec fn tool_prompts_open_with(prompts: Seq<(Seq<Message>, bool)>, from: int, history: Seq<Message>) -> bool {
    forall|k: int| from <= k < prompts.len() && (#[trigger] prompts[k]).1 ==> opens_with(prompts[k].0, history)
}

/// The planning request sent with no tools: the prompt so far, then the
/// tool list and the planning instructions.
pub open spec fn is_planning_prompt(p: (Seq<Message>, bool), messages: Seq<Message>, tools: Seq<crate::llm::ToolDefinition>) -> bool {
    &&& !p.1
    &&& p.0.len() == messages.len() + 1
    &&& forall|i: int| 0 <= i < messages.len() ==> same_message(#[trigger] p.0[i], messages[i])
    &&& plain_message("system"@, "Available tools:\n"@ + tool_summary_seq(tools) + "\n\n"@ + PLANNING_INSTRUCTIONS@, p.0.last())
}

/// The compaction request sent with no tools: `messages[lo..hi]`, then the
/// summarizing instruction.
pub open spec fn is_summary_request(p: (Seq<Message>, bool), messages: Seq<Message>, lo: int, hi: int) -> bool {
    &&& !p.1
    &&& p.0.len() == hi - lo + 1
    &&& forall|k: int| 0 <= k < hi - lo ==> same_message(#[trigger] p.0[k], messages[lo + k])
    &&& plain_message("system"@, SUMMARIZE_INSTRUCTIONS@, p.0.last())
}

/// `new` is `old` with `old[lo..hi]` replaced by one summary message
/// carrying a non-blank summary.
pub open spec fn is_spliced(new: Seq<Message>, old: Seq<Message>, lo: int, hi: int) -> bool {
    &&& new.len() == old.len() - (hi - lo) + 1
    &&& new.subrange(0, lo) == old.subrange(0, lo)
    &&& new.subrange(lo + 1, new.len() as int) == old.subrange(hi, old.len() as int)
    &&& exists|summary: Seq<char>| !is_blank_seq(summary)
        && plain_message("system"@, #[trigger] ("Summary of earlier conversation:\n"@ + summary), new[lo])
}

/// Where compaction splits `len` messages: before the `keep` most recent,
/// but not before `prefix`.
pub open spec fn compaction_split(len: int, keep: int, prefix: int) -> int {
    let base = if len >= keep { len - keep } else { 0 };
    if base >= prefix { base } else { prefix }
}

/// The result of one call to the model: it finished (with a reply or a
/// failure), or cancellation was requested before its result was used.
enum LlmCallOutcome {
    Completed(Result<LlmResponse, LlmError>),
    Cancelled,
}

/// A reply with neither a tool call nor non-blank text.
pub open spec fn is_empty_reply(resp: LlmResponse) -> bool {
    resp.tool_calls@.len() == 0 && !(resp.text matches Some(t) && !is_blank_seq(t@))
}

/// The backoff before retry `k + 1` as a `Duration`: `base * 2^k`
/// milliseconds.
pub open spec fn backoff_duration(base: u64, k: nat) -> std::time::Duration {
    duration_of((backoff(base, k) / 1000) as u64, ((backoff(base, k) % 1000) * 1_000_000) as u32)
}

/// The backoffs slept before retries `1..=n`.
pub open spec fn backoff_sleeps(base: u64, n: nat) -> Seq<std::time::Duration> {
    Seq::new(n, |k: int| backoff_duration(base, k as nat))
}

/// One user session: the model, the tools, the persisted history and the
/// limits every turn runs under.
pub struct Assistant<L: Llm, D: ToolDispatcher, E: EventSink> {
    llm: L,
    dispatcher: D,
    registry: ToolRegistry,
    transcript: Transcript,
    events: E,
    limits: LoopLimits,
    clock: Box<dyn Clock>,
    cancel: Box<dyn CancelSignal>,
    token_counter: Box<dyn TokenCounter>,
    budget: ContextBudget,
    planning_enabled: bool,
    /// Durable facts taught through the `remember` tool, kept apart from
    /// the transcript.
    memory: Box<dyn MemoryStore>,
    /// Labels attached to the model-call events.
    provider: String,
    model: String,
    /// What the last turn did: the tool calls it dispatched, in order,
    /// whether each changed something, and how many times the model was
    /// asked to check its own work.
    turn: Ghost<(Seq<ToolCall>, Seq<bool>, nat)>,
    /// Every prompt the last turn handed to the model, in order, each with
    /// whether the tools were offered with it.
    prompts: Ghost<Seq<(Seq<Message>, bool)>>,
    /// The tool call the last turn refused to run as a loop, if any.
    refused: Ghost<Option<ToolCall>>,
    /// What the dispatcher returned for each tool call of the last turn.
    results: Ghost<Seq<Result<ToolOutcome, ToolDispatcherError>>>,
    /// Every backoff the session slept through, in order.
    slept: Ghost<Seq<std::time::Duration>>,
}

impl<L: Llm, D: ToolDispatcher, E: EventSink> Assistant<L, D, E> {
    /// The persisted conversation.
    pub closed spec fn history(&self) -> Seq<Message> {
        self.transcript@
    }

    pub closed spec fn limits(&self) -> LoopLimits {
        self.limits
    }

    pub closed spec fn budget(&self) -> ContextBudget {
        self.budget
    }

    pub closed spec fn planning_enabled(&self) -> bool {
        self.planning_enabled
    }

    /// The sink the session reports to.
    pub closed spec fn spec_events(&self) -> E {
        self.events
    }

    /// The provider label of the model-call events.
    pub closed spec fn spec_provider(&self) -> Seq<char> {
        self.provider@
    }

    /// The model label of the model-call events.
    pub closed spec fn spec_model(&self) -> Seq<char> {
        self.model@
    }

    /// The tool calls the last turn dispatched, in order.
    pub closed spec fn turn_calls(&self) -> Seq<ToolCall> {
        self.turn@.0
    }

    /// For each call of `turn_calls`, whether its outcome changed something.
    pub closed spec fn turn_mutations(&self) -> Seq<bool> {
        self.turn@.1
    }

    /// How many times the last turn asked the model to verify its work.
    pub closed spec fn turn_verify_requests(&self) -> nat {
        self.turn@.2
    }

    /// The tool call the last turn refused to run because it was the
    /// `max_identical_repeats`-th identical request in a row, if any.
    pub closed spec fn turn_refused(&self) -> Option<ToolCall> {
        self.refused@
    }

    /// Every prompt the last turn handed to the model, in order, each with
    /// whether the tools were offered with it (they are not for the plan
    /// and for a compaction summary).
    pub closed spec fn turn_prompts(&self) -> Seq<(Seq<Message>, bool)> {
        self.prompts@
    }

    /// What the dispatcher returned for each call of `turn_calls`.
    pub closed spec fn turn_results(&self) -> Seq<Result<ToolOutcome, ToolDispatcherError>> {
        self.results@
    }

    /// The dispatcher the session runs tool calls through.
    pub closed spec fn spec_dispatcher(&self) -> D {
        self.dispatcher
    }

    /// Whether the cancel signal may report being set.
    pub closed spec fn cancel_may_be_set(&self) -> bool {
        self.cancel.spec_may_report(true)
    }

    pub closed spec fn wf(&self) -> bool {
        &&& self.transcript.wf()
        &&& self.limits.within_machine_limits()
    }

    /// Whether `wf` holds (it always does for a session built through this
    /// API).
    fn is_usable(&self) -> (b: bool)
        ensures
            b == self.wf(),
    {
        let n = self.transcript.len();
        1 <= n && n <= crate::transcript::MAX_HISTORY_MESSAGES + 1 && self.limits.fits_machine()
    }

    /// Everything a helper of the loop leaves alone.
    closed spec fn kept(self, other: Self) -> bool {
        &&& self.kept_but_prompts(other)
        &&& self.prompts@ == other.prompts@
    }

    /// Everything a helper that calls the model leaves alone.
    closed spec fn kept_but_prompts(self, other: Self) -> bool {
        &&& self.registry == other.registry
        &&& self.cancel == other.cancel
        &&& self.clock == other.clock
        &&& self.refused@ == other.refused@
        &&& self.transcript@ == other.transcript@
        &&& self.limits == other.limits
        &&& self.turn@ == other.turn@
        &&& self.results@ == other.results@
        &&& self.budget == other.budget
        &&& self.token_counter == other.token_counter
        &&& self.planning_enabled == other.planning_enabled
        &&& forall|e: Event| other.events.spec_has_emitted(e) ==> #[trigger] self.events.spec_has_emitted(e)
        &&& forall|a: Event, b: Event| other.events.spec_emitted_before(a, b) ==> #[trigger] self.events.spec_emitted_before(a, b)
    }

    /// The prompts of `self` are those of `other` followed by new ones, each
    /// `(prompt, true)` when `prompt` is given, each without tools otherwise.
    closed spec fn prompts_extended(self, other: Self, prompt: Option<Seq<Message>>) -> bool {
        &&& self.prompts@.len() >= other.prompts@.len()
        &&& forall|k: int| 0 <= k < other.prompts@.len() ==> #[trigger] self.prompts@[k] == other.prompts@[k]
        &&& forall|k: int| other.prompts@.len() <= k < self.prompts@.len() ==> match prompt {
            Some(p) => #[trigger] self.prompts@[k] == (p, true),
            None => !(#[trigger] self.prompts@[k]).1,
        }
    }

    /// A session with the system prompt as its only message, the default
    /// limits and budget, and planning on.
    pub fn new(
        llm: L,
        dispatcher: D,
        registry: ToolRegistry,
        events: E,
        clock: Box<dyn Clock>,
        cancel: Box<dyn CancelSignal>,
        token_counter: Box<dyn TokenCounter>,
        memory: Box<dyn MemoryStore>,
    ) -> (a: Self)
        ensures
            a.wf(),
            a.history().len() == 1,
            plain_message("system"@, SYSTEM_PROMPT@, a.history()[0]),
            a.limits() == default_loop_limits(),
            a.budget() == default_context_budget(),
            a.planning_enabled(),
            a.turn_calls().len() == 0,
            a.spec_events() == events,
    {
        let limits = LoopLimits::default();
        proof {
            reveal_with_fuel(pow2, 3);
        }
        Assistant {
            llm,
            dispatcher,
            registry,
            transcript: Transcript::new(system_message(SYSTEM_PROMPT.to_owned())),
            events,
            limits,
            clock,
            cancel,
            token_counter,
            budget: ContextBudget::default(),
            planning_enabled: true,
            memory,
            provider: "unknown".to_owned(),
            model: "unknown".to_owned(),
            turn: Ghost((Seq::empty(), Seq::empty(), 0)),
            prompts: Ghost(Seq::empty()),
            refused: Ghost(None),
            results: Ghost(Seq::empty()),
            slept: Ghost(Seq::empty()),
        }
    }

    pub fn with_llm_info(self, provider: String, model: String) -> (a: Self)
        ensures
            a.spec_provider() == provider@,
            a.spec_model() == model@,
            a.history() == self.history(),
            a.limits() == self.limits(),
            a.budget() == self.budget(),
            a.planning_enabled() == self.planning_enabled(),
            a.wf() == self.wf(),
    {
        let mut a = self;
        a.provider = provider;
        a.model = model;
        a
    }

    pub fn with_planning_enabled(self, planning_enabled: bool) -> (a: Self)
        ensures
            a.history() == self.history(),
            a.limits() == self.limits(),
            a.budget() == self.budget(),
            a.planning_enabled() == planning_enabled,
            a.wf() == self.wf(),
    {
        let mut a = self;
        a.planning_enabled = planning_enabled;
        a
    }

    pub fn with_limits(self, limits: LoopLimits) -> (a: Self)
        requires
            limits.within_machine_limits(),
        ensures
            a.history() == self.history(),
            a.limits() == limits,
            a.budget() == self.budget(),
            a.planning_enabled() == self.planning_enabled(),
            self.wf() ==> a.wf(),
    {
        let mut a = self;
        a.limits = limits;
        a
    }

    pub fn with_clock(self, clock: Box<dyn Clock>) -> (a: Self)
        ensures
            a.history() == self.history(),
            a.limits() == self.limits(),
            a.budget() == self.budget(),
            a.planning_enabled() == self.planning_enabled(),
            a.wf() == self.wf(),
    {
        let mut a = self;
        a.clock = clock;
        a
    }

    pub fn with_cancel_signal(self, cancel: Box<dyn CancelSignal>) -> (a: Self)
        ensures
            a.history() == self.history(),
            a.limits() == self.limits(),
            a.budget() == self.budget(),
            a.planning_enabled() == self.planning_enabled(),
            a.wf() == self.wf(),
    {
        let mut a = self;
        a.cancel = cancel;
        a
    }

    pub fn with_token_counter(self, token_counter: Box<dyn TokenCounter>) -> (a: Self)
        ensures
            a.history() == self.history(),
            a.limits() == self.limits(),
            a.budget() == self.budget(),
            a.planning_enabled() == self.planning_enabled(),
            a.wf() == self.wf(),
    {
        let mut a = self;
        a.token_counter = token_counter;
        a
    }

    pub fn with_budget(self, budget: ContextBudget) -> (a: Self)
        ensures
            a.history() == self.history(),
            a.limits() == self.limits(),
            a.budget() == budget,
            a.planning_enabled() == self.planning_enabled(),
            a.wf() == self.wf(),
    {
        let mut a = self;
        a.budget = budget;
        a
    }

    pub fn with_memory(self, memory: Box<dyn MemoryStore>) -> (a: Self)
        ensures
            a.history() == self.history(),
            a.limits() == self.limits(),
            a.budget() == self.budget(),
            a.planning_enabled() == self.planning_enabled(),
            a.wf() == self.wf(),
    {
        let mut a = self;
        a.memory = memory;
        a
    }

    /// Number of persisted messages, including the system prompt.
    pub fn message_count(&self) -> (n: usize)
        ensures
            n == self.history().len(),
    {
        self.transcript.len()
    }

    /// The system prompt's content, if the first message is still a system
    /// message.
    pub fn system_prompt(&self) -> (r: Option<&str>)
        ensures
            r is Some <==> (self.history().len() > 0 && self.history()[0].role@ == "system"@),
            r matches Some(c) ==> c@ == self.history()[0].content@,
    {
        self.transcript.system_prompt()
    }

    /// The event sink, for inspecting what was emitted.
    pub fn events(&self) -> (r: &E)
        ensures
            *r == self.spec_events(),
    {
        &self.events
    }
}


impl<L: Llm, D: ToolDispatcher, E: EventSink> Assistant<L, D, E> {
    /// The sink has the report of a request that failed with `reason` as
    /// its error.
    pub open spec fn reported_failure(&self, reason: Seq<char>) -> bool {
        exists|e: Event| #[trigger] self.spec_events().spec_has_emitted(e) && is_failure_report(e, reason)
    }

    /// The sink has the report of a cancelled request: `Cancelled`, then
    /// the request failed with `cancelled` as its error.
    pub open spec fn reported_cancellation(&self) -> bool {
        &&& self.spec_events().spec_has_emitted(Event::Cancelled)
        &&& exists|e: Event| #[trigger] self.spec_events().spec_has_emitted(e) && is_failure_report(e, "cancelled"@)
            && self.spec_events().spec_emitted_before(Event::Cancelled, e)
    }

    /// Whether the cancel signal is set: it can only report `true`.
    pub closed spec fn cancel_set(&self) -> bool {
        !self.cancel.spec_may_report(false)
    }

    /// Whether `tools` are the registered tools, in order, when `with_tools`,
    /// and no tools otherwise.
    pub closed spec fn offered(&self, tools: &[&crate::llm::ToolDefinition], with_tools: bool) -> bool {
        if with_tools {
            &&& tools@.len() == self.registry.definitions_view().len()
            &&& forall|i: int| 0 <= i < tools@.len() ==> *(#[trigger] tools@[i]) == self.registry.definitions_view()[i]
        } else {
            tools@.len() == 0
        }
    }

    /// Whether `r` is a reply the model `l` may give to `prompt`, with the
    /// registered tools offered when `with_tools`.
    pub closed spec fn model_replied(
        &self,
        l: L,
        prompt: Seq<Message>,
        with_tools: bool,
        r: Result<LlmResponse, LlmError>,
    ) -> bool {
        exists|m: &[Message], t: &[&crate::llm::ToolDefinition]|
            m@ == prompt && self.offered(t, with_tools) && #[trigger] l.spec_generates(m, t, &r)
    }

    /// Two sessions with the same registered tools agree on what the model
    /// may have replied.
    proof fn lemma_model_replied_registry(&self, other: &Self, l: L, prompt: Seq<Message>, with_tools: bool, r: Result<LlmResponse, LlmError>)
        requires
            self.registry == other.registry,
        ensures
            self.model_replied(l, prompt, with_tools, r) == other.model_replied(l, prompt, with_tools, r),
    {
        assert forall|t: &[&crate::llm::ToolDefinition]| self.offered(t, with_tools) == other.offered(t, with_tools) by {}
    }

    /// The model may ask for `call` in a reply to some prompt sent with the
    /// tools.
    pub open spec fn requested_by_model(&self, call: ToolCall) -> bool {
        exists|l: L, p: Seq<Message>, resp: LlmResponse|
            #[trigger] self.model_replied(l, p, true, Ok(resp)) && resp.tool_calls@.contains(call)
    }

    /// The model may fail with `e` on some prompt sent with the tools.
    pub open spec fn model_may_fail(&self, e: LlmError) -> bool {
        exists|l: L, p: Seq<Message>| #[trigger] self.model_replied(l, p, true, Err(e))
    }

    /// The model may reply to some prompt sent with the tools with neither
    /// a tool call nor non-blank text.
    pub open spec fn model_may_reply_empty(&self) -> bool {
        exists|l: L, p: Seq<Message>, resp: LlmResponse|
            #[trigger] self.model_replied(l, p, true, Ok(resp)) && is_empty_reply(resp)
    }

    /// A dispatcher of this session's kind may return `r` for `call`.
    pub open spec fn may_dispatch(&self, call: ToolCall, r: Result<ToolOutcome, ToolDispatcherError>) -> bool {
        exists|d: D| #[trigger] d.spec_dispatches(call, &r)
    }

    /// Two sessions with the same registered tools agree on what the model
    /// may have asked for, failed with or replied empty.
    proof fn lemma_model_facts_registry(&self, other: &Self)
        requires
            self.registry == other.registry,
        ensures
            forall|c: ToolCall| #[trigger] self.requested_by_model(c) ==> other.requested_by_model(c),
            forall|e: LlmError| #[trigger] self.model_may_fail(e) ==> other.model_may_fail(e),
            self.model_may_reply_empty() ==> other.model_may_reply_empty(),
    {
        assert forall|l: L, p: Seq<Message>, w: bool, r: Result<LlmResponse, LlmError>|
            #[trigger] self.model_replied(l, p, w, r) == other.model_replied(l, p, w, r) by {
            self.lemma_model_replied_registry(other, l, p, w, r);
        }
    }

    /// `reply` is an answer the model may give to `prompt`, sent with the
    /// tools.
    pub open spec fn replied_with_tools(&self, prompt: Seq<Message>, reply: Result<LlmResponse, LlmError>) -> bool {
        exists|l: L| #[trigger] self.model_replied(l, prompt, true, reply)
    }

    /// `replies` are what the model may have answered to `prompt`, sent
    /// with the tools, one per attempt: every attempt but the last failed
    /// with an error that is retried, and the last one ended the retries.
    pub open spec fn retried_replies(
        &self,
        prompt: Seq<Message>,
        replies: Seq<Result<LlmResponse, LlmError>>,
        r: Result<LlmResponse, AssistantError>,
    ) -> bool {
        &&& replies.len() > 0
        &&& forall|k: int| 0 <= k < replies.len() ==> self.replied_with_tools(prompt, #[trigger] replies[k])
        &&& forall|k: int| 0 <= k < replies.len() - 1 ==> (#[trigger] replies[k] matches Err(e)
            && spec_should_retry(e, k as u32, self.limits().max_llm_retries))
        &&& r matches Ok(resp) ==> replies.last() == Ok::<LlmResponse, LlmError>(resp)
        &&& r matches Err(AssistantError::Llm(e)) ==> replies.last() == Err::<LlmResponse, LlmError>(e)
            && !spec_should_retry(e, (replies.len() - 1) as u32, self.limits().max_llm_retries)
    }

    /// The token counter's estimate of each message of `messages`.
    pub closed spec fn prompt_costs(&self, messages: Seq<Message>) -> Seq<usize> {
        crate::context_budget::estimates(&*self.token_counter, messages)
    }

    /// The tokens the prompt may use.
    pub closed spec fn available(&self) -> int {
        if self.budget.max_tokens >= self.budget.output_reserve {
            self.budget.max_tokens - self.budget.output_reserve
        } else {
            0
        }
    }

    fn set_state(&mut self, state: TurnState)
        ensures
            final(self).kept(*old(self)),
            final(self).dispatcher == old(self).dispatcher,
            final(self).events.spec_has_emitted(Event::StateChanged { state }),
    {
        self.events.emit(Event::StateChanged { state });
    }

    /// Reports the cancellation and returns its error.
    fn cancelled(&mut self, request_start: &std::time::Instant) -> (e: AssistantError)
        ensures
            final(self).kept(*old(self)),
            final(self).slept@ == old(self).slept@,
            e == AssistantError::Cancelled,
            final(self).reported_cancellation(),
    {
        let duration = elapsed(request_start);
        self.events.emit(Event::Cancelled);
        let failed = Event::RequestFailed { duration, error: "cancelled".to_owned() };
        let ghost failed_event = failed;
        self.events.emit(failed);
        assert(self.spec_events().spec_has_emitted(failed_event) && is_failure_report(failed_event, "cancelled"@)
            && self.spec_events().spec_emitted_before(Event::Cancelled, failed_event));
        AssistantError::Cancelled
    }

    /// Reports the turn as failed for `reason` and returns `error`.
    fn abort(&mut self, request_start: &std::time::Instant, reason: &str, error: AssistantError) -> (e: AssistantError)
        ensures
            final(self).kept(*old(self)),
            e == error,
            final(self).reported_failure(reason@),
    {
        let duration = elapsed(request_start);
        let failed = Event::RequestFailed { duration, error: reason.to_owned() };
        let ghost failed_event = failed;
        self.events.emit(failed);
        assert(self.spec_events().spec_has_emitted(failed_event) && is_failure_report(failed_event, reason@));
        error
    }

    /// One call to the model, reported as it starts and ends. The tools are
    /// offered only when `with_tools`. The call runs to its end; when
    /// cancellation was requested while it ran, the cancellation wins and
    /// the late result is dropped.
    fn call_llm(&mut self, messages: &Vec<Message>, with_tools: bool) -> (r: LlmCallOutcome)
        ensures
            final(self).kept_but_prompts(*old(self)),
            final(self).prompts@ == old(self).prompts@.push((messages@, with_tools)),
            final(self).slept@ == old(self).slept@,
            r is Cancelled ==> old(self).cancel.spec_may_report(true),
            r matches LlmCallOutcome::Completed(res) ==> old(self).cancel.spec_may_report(false)
                && old(self).model_replied(old(self).llm, messages@, with_tools, res),
    {
        self.prompts = Ghost(self.prompts@.push((messages@, with_tools)));
        let images = match evictable_image_total(messages, 0) {
            Some(n) => n,
            None => usize::MAX,
        };
        self.events.emit(Event::LlmStarted { provider: self.provider.clone(), model: self.model.clone(), images });
        let start = instant_now();
        let m = messages.as_slice();
        let result = if with_tools {
            let tools = self.registry.definitions();
            let t = tools.as_slice();
            let result = self.llm.generate(m, t);
            assert(old(self).offered(t, with_tools));
            assert(old(self).llm.spec_generates(m, t, &result));
            result
        } else {
            let tools: Vec<&crate::llm::ToolDefinition> = Vec::new();
            let t = tools.as_slice();
            let result = self.llm.generate(m, t);
            assert(old(self).offered(t, with_tools));
            assert(old(self).llm.spec_generates(m, t, &result));
            result
        };
        let duration = elapsed(&start);
        if self.cancel.is_cancelled() {
            return LlmCallOutcome::Cancelled;
        }
        match &result {
            Ok(response) => {
                self.events.emit(Event::LlmCompleted { provider: self.provider.clone(), model: self.model.clone(), duration });
                self.events.emit(Event::TokensUsed {
                    prompt_tokens: response.usage.prompt_tokens,
                    completion_tokens: response.usage.completion_tokens,
                });
            },
            Err(error) => {
                self.events.emit(Event::LlmFailed {
                    provider: self.provider.clone(),
                    model: self.model.clone(),
                    duration,
                    error: error.message(),
                });
            },
        }
        LlmCallOutcome::Completed(result)
    }

    /// Calls the model with the tools, retrying a retryable failure with
    /// exponential backoff up to `max_llm_retries` times. A failure that is
    /// not retryable, or one after the last retry, ends the turn as `Llm`;
    /// a cancellation during the call or the backoff as `Cancelled`.
    fn generate_with_retry(&mut self, messages: &Vec<Message>, request_start: &std::time::Instant) -> (r: Result<LlmResponse, AssistantError>)
        requires
            old(self).wf(),
        ensures
            final(self).kept_but_prompts(*old(self)),
            final(self).prompts_extended(*old(self), Some(messages@)),
            old(self).prompts@.len() < final(self).prompts@.len()
                <= old(self).prompts@.len() + old(self).limits.max_llm_retries + 1,
            r matches Err(e) ==> (e is Llm || e is Cancelled),
            r matches Err(AssistantError::Llm(e)) ==> !(e is RequestFailed)
                || final(self).prompts@.len() == old(self).prompts@.len() + old(self).limits.max_llm_retries + 1,
            r matches Ok(resp) ==> exists|l: L| #[trigger] old(self).model_replied(l, messages@, true, Ok(resp)),
            forall|k: nat| k + 1 < final(self).prompts@.len() - old(self).prompts@.len() ==> old(self).clock.spec_slept(
                #[trigger] backoff_duration(old(self).limits.retry_base_delay_ms, k),
            ),
            old(self).cancel_set() ==> r == Err::<LlmResponse, AssistantError>(AssistantError::Cancelled),
            r matches Err(AssistantError::Cancelled) ==> final(self).reported_cancellation() && old(self).cancel.spec_may_report(true),
            r matches Err(AssistantError::Llm(e)) ==> exists|l: L| #[trigger] old(self).model_replied(l, messages@, true, Err(e)),
            !(r matches Err(AssistantError::Cancelled)) ==> exists|replies: Seq<Result<LlmResponse, LlmError>>|
                replies.len() == final(self).prompts@.len() - old(self).prompts@.len()
                    && #[trigger] old(self).retried_replies(messages@, replies, r),
            forall|k: u32| 1 <= k < final(self).prompts@.len() - old(self).prompts@.len()
                ==> #[trigger] reported_retry(final(self).spec_events(), k),
            final(self).slept@ == old(self).slept@ + backoff_sleeps(
                old(self).limits.retry_base_delay_ms,
                (final(self).prompts@.len() - old(self).prompts@.len() - 1) as nat,
            ),
    {
        let mut attempt: u32 = 0;
        let ghost mut replies: Seq<Result<LlmResponse, LlmError>> = Seq::empty();
        loop
            invariant
                self.wf(),
                self.kept_but_prompts(*old(self)),
                self.prompts_extended(*old(self), Some(messages@)),
                self.prompts@.len() == old(self).prompts@.len() + attempt,
                attempt <= self.limits.max_llm_retries,
                forall|k: nat| k < attempt ==> old(self).clock.spec_slept(
                    #[trigger] backoff_duration(old(self).limits.retry_base_delay_ms, k),
                ),
                forall|k: u32| 1 <= k <= attempt ==> #[trigger] reported_retry(self.events, k),
                self.slept@ == old(self).slept@ + backoff_sleeps(old(self).limits.retry_base_delay_ms, attempt as nat),
                replies.len() == attempt,
                forall|k: int| 0 <= k < replies.len() ==> old(self).replied_with_tools(messages@, #[trigger] replies[k]),
                forall|k: int| 0 <= k < replies.len() ==> (#[trigger] replies[k] matches Err(e)
                    && spec_should_retry(e, k as u32, old(self).limits.max_llm_retries)),
            decreases self.limits.max_llm_retries - attempt,
        {
            let ghost before = *self;
            let outcome = self.call_llm(messages, true);
            proof {
                lemma_retries_kept(before.events, self.events, attempt);
            }
            match outcome {
                LlmCallOutcome::Cancelled => {
                    let ghost pre = self.events;
                    let e = self.cancelled(request_start);
                    proof {
                        lemma_retries_kept(pre, self.events, attempt);
                    }
                    return Err(e);
                },
                LlmCallOutcome::Completed(Ok(response)) => {
                    assert(old(self).model_replied(before.llm, messages@, true, Ok(response)));
                    proof {
                        let all = replies.push(Ok(response));
                        assert(all.last() == Ok::<LlmResponse, LlmError>(response));
                        assert forall|k: int| 0 <= k < all.len() implies old(self).replied_with_tools(messages@, #[trigger] all[k]) by {
                            if k < replies.len() {
                                assert(all[k] == replies[k]);
                            } else {
                                assert(old(self).model_replied(before.llm, messages@, true, all[k]));
                            }
                        }
                        assert forall|k: int| 0 <= k < all.len() - 1 implies (#[trigger] all[k] matches Err(e)
                            && spec_should_retry(e, k as u32, old(self).limits().max_llm_retries)) by {
                            assert(all[k] == replies[k]);
                        }
                        assert(old(self).retried_replies(messages@, all, Ok(response)));
                    }
                    return Ok(response);
                },
                LlmCallOutcome::Completed(Err(error)) => {
                    assert(old(self).model_replied(before.llm, messages@, true, Err(error)));
                    let ghost all = replies.push(Err(error));
                    proof {
                        assert forall|k: int| 0 <= k < all.len() implies old(self).replied_with_tools(messages@, #[trigger] all[k]) by {
                            if k < replies.len() {
                                assert(all[k] == replies[k]);
                            } else {
                                assert(old(self).model_replied(before.llm, messages@, true, all[k]));
                            }
                        }
                        assert forall|k: int| 0 <= k < all.len() - 1 implies (#[trigger] all[k] matches Err(e)
                            && spec_should_retry(e, k as u32, old(self).limits().max_llm_retries)) by {
                            assert(all[k] == replies[k]);
                        }
                        assert(all.last() == Err::<LlmResponse, LlmError>(error));
                    }
                    if attempt >= self.limits.max_llm_retries {
                        assert(old(self).retried_replies(messages@, all, Err(AssistantError::Llm(error))));
                        return Err(AssistantError::Llm(error));
                    }
                    match retry_delay_ms(&error, attempt, &self.limits) {
                        None => {
                            assert(old(self).retried_replies(messages@, all, Err(AssistantError::Llm(error))));
                            return Err(AssistantError::Llm(error));
                        },
                        Some(delay) => {
                            if self.cancel.is_cancelled() {
                                let ghost pre = self.events;
                                let e = self.cancelled(request_start);
                                proof {
                                    lemma_retries_kept(pre, self.events, attempt);
                                }
                                return Err(e);
                            }
                            let ghost before_retry = self.events;
                            let retrying = Event::Retrying { attempt: attempt + 1, error: error.message() };
                            let ghost retrying_event = retrying;
                            self.events.emit(retrying);
                            proof {
                                lemma_retries_kept(before_retry, self.events, attempt);
                                assert(self.events.spec_has_emitted(retrying_event));
                                assert(reported_retry(self.events, (attempt + 1) as u32));
                            }
                            proof {
                                lemma_backoff_mono(self.limits.retry_base_delay_ms, attempt as nat, (self.limits.max_llm_retries - 1) as nat);
                            }
                            let nap = duration_new((delay / 1000) as u64, ((delay % 1000) * 1_000_000) as u32);
                            self.clock.sleep(nap);
                            self.slept = Ghost(self.slept@.push(nap));
                            proof {
                                replies = all;
                                let b = self.limits.retry_base_delay_ms;
                                assert(backoff_sleeps(b, (attempt + 1) as nat) =~= backoff_sleeps(b, attempt as nat).push(nap));
                            }
                            attempt = attempt + 1;
                        },
                    }
                },
            }
        }
    }

    /// Asks the model, with no tools offered, for a short plan before it
    /// acts. A failed or cancelled call, or a blank reply, means no plan.
    fn build_plan(&mut self, messages: &Vec<Message>) -> (r: Option<String>)
        ensures
            final(self).kept_but_prompts(*old(self)),
            final(self).prompts_extended(*old(self), None),
            final(self).prompts@.len() == old(self).prompts@.len() + 1,
            is_planning_prompt(final(self).prompts@.last(), messages@, old(self).registry.definitions_view()),
            r matches Some(p) ==> !is_blank_seq(p@),
    {
        let mut planning_messages = copy_messages(messages.as_slice());
        let ghost copies = planning_messages@;
        planning_messages.push(planning_message(self.registry.as_slice()));
        assert forall|i: int| 0 <= i < messages@.len() implies same_message(#[trigger] planning_messages@[i], messages@[i]) by {
            assert(planning_messages@[i] == copies[i]);
        }
        match self.call_llm(&planning_messages, false) {
            LlmCallOutcome::Completed(Ok(response)) => usable_text(response.text),
            _ => None,
        }
    }

    /// Folds `messages[protected_prefix..split]` (all the evictable
    /// messages but the `keep_recent_uncompacted` most recent) into one
    /// summary obtained from the model. Returns how many messages were
    /// folded, or `None` (messages untouched) when there was nothing to
    /// fold or no usable summary came back.
    fn compact(&mut self, messages: &mut Vec<Message>, protected_prefix: usize) -> (r: Option<usize>)
        requires
            protected_prefix <= old(messages)@.len(),
        ensures
            final(self).kept_but_prompts(*old(self)),
            final(self).prompts_extended(*old(self), None),
            final(messages)@.len() >= protected_prefix,
            final(messages)@.subrange(0, protected_prefix as int) == old(messages)@.subrange(0, protected_prefix as int),
            r is None ==> final(messages)@ == old(messages)@,
            ({
                let split = compaction_split(
                    old(messages)@.len() as int,
                    old(self).budget.keep_recent_uncompacted as int,
                    protected_prefix as int,
                );
                if split <= protected_prefix {
                    r is None && final(self).prompts@ == old(self).prompts@
                } else {
                    &&& final(self).prompts@.len() == old(self).prompts@.len() + 1
                    &&& is_summary_request(final(self).prompts@.last(), old(messages)@, protected_prefix as int, split)
                    &&& r matches Some(n) ==> n == split - protected_prefix
                        && is_spliced(final(messages)@, old(messages)@, protected_prefix as int, split)
                }
            }),
    {
        let split = match compact_split(messages.len(), self.budget.keep_recent_uncompacted, protected_prefix) {
            Some(split) => split,
            None => return None,
        };
        let request = summarize_request(messages, protected_prefix, split);
        let summary = match self.call_llm(&request, false) {
            LlmCallOutcome::Completed(Ok(response)) => match usable_text(response.text) {
                Some(text) => text,
                None => return None,
            },
            _ => return None,
        };
        let ghost before = messages@;
        let n = splice_summary(messages, protected_prefix, split, summary.as_str());
        assert(plain_message("system"@, "Summary of earlier conversation:\n"@ + summary@, messages@[protected_prefix as int]));
        Some(n)
    }

    /// The token counter's estimate of `messages`, or `None` when it does
    /// not fit in a `usize`.
    fn current_estimate(&self, messages: &Vec<Message>) -> (r: Option<usize>)
        ensures
            match r {
                Some(n) => n == cost_sum(self.prompt_costs(messages@)),
                None => cost_sum(self.prompt_costs(messages@)) > usize::MAX,
            },
    {
        let costs = message_costs(&*self.token_counter, messages.as_slice());
        sum_costs(costs.as_slice())
    }

    /// Whether the token counter's estimate of `messages` is within
    /// `available`.
    fn fits(&self, messages: &Vec<Message>, available: usize) -> (b: bool)
        ensures
            b == (cost_sum(self.prompt_costs(messages@)) <= available),
    {
        match self.current_estimate(messages) {
            Some(n) => n <= available,
            None => false,
        }
    }

    /// The estimate reported with a budget event (`usize::MAX` when it does
    /// not fit in a `usize`).
    fn remaining_estimate(&self, messages: &Vec<Message>) -> (r: usize)
        ensures
            r == if cost_sum(self.prompt_costs(messages@)) <= usize::MAX {
                cost_sum(self.prompt_costs(messages@))
            } else {
                usize::MAX as nat
            },
    {
        match self.current_estimate(messages) {
            Some(n) => n,
            None => usize::MAX,
        }
    }

    /// Keeps `messages[protected_prefix..]` within the prompt budget,
    /// applying the eviction steps in order of increasing cost until the
    /// token counter's estimate fits: strip older images, truncate long
    /// tool results, summarize the middle of the evictable range, and
    /// finally drop the oldest evictable messages. The protected prefix is
    /// never touched.
    fn fit_to_budget(&mut self, messages: &mut Vec<Message>, protected_prefix: usize) -> (steps: Ghost<(Seq<Message>, Seq<Message>)>)
        requires
            protected_prefix <= old(messages)@.len(),
        ensures
            final(self).kept_but_prompts(*old(self)),
            final(self).prompts_extended(*old(self), None),
            final(messages)@.len() >= protected_prefix,
            final(messages)@.subrange(0, protected_prefix as int) == old(messages)@.subrange(0, protected_prefix as int),
            cost_sum(old(self).prompt_costs(old(messages)@)) <= old(self).available()
                ==> final(messages)@ == old(messages)@ && final(self).prompts@ == old(self).prompts@
                && final(self).events == old(self).events,
            final(messages)@.len() <= protected_prefix
                || cost_sum(final(self).prompt_costs(final(messages)@)) <= final(self).available(),
            cost_sum(old(self).prompt_costs(old(messages)@)) > old(self).available() ==> {
                let (after_images, after_truncation) = steps@;
                let old_images = image_count(
                    old(messages)@,
                    image_positions(old(messages)@, protected_prefix as int, old(messages)@.len() as int),
                );
                let budget = old(self).budget;
                &&& if old_images <= usize::MAX {
                    images_stripped(old(messages)@, after_images, protected_prefix as int, budget.keep_recent_images as int)
                } else {
                    after_images == old(messages)@
                }
                &&& cost_sum(old(self).prompt_costs(after_images)) <= old(self).available()
                    ==> final(messages)@ == after_images && final(self).prompts@ == old(self).prompts@
                &&& cost_sum(old(self).prompt_costs(after_images)) > old(self).available() ==> {
                    &&& if budget.truncate_head_chars + budget.truncate_tail_chars <= usize::MAX {
                        results_truncated(
                            after_images,
                            after_truncation,
                            protected_prefix as int,
                            budget.truncate_head_chars as nat,
                            budget.truncate_tail_chars as nat,
                        )
                    } else {
                        after_truncation == after_images
                    }
                    &&& cost_sum(old(self).prompt_costs(after_truncation)) <= old(self).available()
                        ==> final(messages)@ == after_truncation && final(self).prompts@ == old(self).prompts@
                }
            },
    {
        let ghost start = messages@;
        let available = self.budget.available_tokens();
        if self.fits(messages, available) {
            return Ghost((start, start));
        }

        if evictable_image_total(messages, protected_prefix).is_some() {
            let dropped = evict_images(messages, protected_prefix, self.budget.keep_recent_images);
            if dropped > 0 {
                let remaining_estimate = self.remaining_estimate(messages);
                self.events.emit(Event::BudgetPressure { step: BudgetStep::DroppedImages { count: dropped }, remaining_estimate });
            }
            assert(messages@.subrange(0, protected_prefix as int) =~= start.subrange(0, protected_prefix as int));
        }
        let ghost after_images = messages@;
        if self.fits(messages, available) {
            return Ghost((after_images, after_images));
        }

        if self.budget.truncate_head_chars <= usize::MAX - self.budget.truncate_tail_chars {
            let ghost before = messages@;
            let truncated = truncate_long_tool_results(
                messages,
                protected_prefix,
                self.budget.truncate_head_chars,
                self.budget.truncate_tail_chars,
            );
            if truncated > 0 {
                let remaining_estimate = self.remaining_estimate(messages);
                self.events.emit(Event::BudgetPressure { step: BudgetStep::TruncatedText { count: truncated }, remaining_estimate });
            }
            assert forall|i: int| 0 <= i < protected_prefix implies #[trigger] messages@[i] == before[i] by {
                assert(messages@[i].content == before[i].content);
            }
            assert(messages@.subrange(0, protected_prefix as int) =~= start.subrange(0, protected_prefix as int));
        }
        let ghost after_truncation = messages@;
        if self.fits(messages, available) {
            return Ghost((after_images, after_truncation));
        }

        match self.compact(messages, protected_prefix) {
            Some(turns_compacted) => {
                self.events.emit(Event::TranscriptCompacted { turns_compacted });
            },
            None => {},
        }
        assert(messages@.subrange(0, protected_prefix as int) =~= start.subrange(0, protected_prefix as int));
        if self.fits(messages, available) {
            return Ghost((after_images, after_truncation));
        }

        let ghost before_drop = messages@;
        let dropped = drop_oldest_until_fits(messages, protected_prefix, available, &*self.token_counter);
        if dropped > 0 {
            let remaining_estimate = self.remaining_estimate(messages);
            self.events.emit(Event::BudgetPressure { step: BudgetStep::DroppedTurns { count: dropped }, remaining_estimate });
        }
        assert(messages@.subrange(0, protected_prefix as int) =~= before_drop.subrange(0, protected_prefix as int));
        Ghost((after_images, after_truncation))
    }

    /// This turn's starting prompt: the persisted history followed by the
    /// computer context, read fresh (it is never persisted).
    fn build_prompt_messages(&mut self) -> (r: Result<Vec<Message>, AssistantError>)
        ensures
            final(self).kept(*old(self)),
            r matches Err(e) ==> e is Tool,
            r matches Err(AssistantError::Tool(e)) ==> old(self).dispatcher.spec_context(&Err(e)),
            r matches Ok(ms) ==> opens_with(ms@, old(self).transcript@) && ms@.len() == old(self).transcript@.len() + 1,
    {
        let context = match self.dispatcher.get_context() {
            Ok(context) => context,
            Err(error) => return Err(AssistantError::Tool(error)),
        };
        let mut messages = self.transcript.snapshot();
        let ghost snap = messages@;
        messages.push(context_message(context.as_str()));
        assert forall|i: int| 0 <= i < self.transcript@.len() implies same_message(#[trigger] messages@[i], self.transcript@[i]) by {
            assert(messages@[i] == snap[i]);
        }
        Ok(messages)
    }
}


impl<L: Llm, D: ToolDispatcher, E: EventSink> Assistant<L, D, E> {
    /// Runs one user request to its end.
    ///
    /// The user message is persisted first; an answer, when there is one,
    /// is persisted after it. In between, the model is called (with the
    /// prompt kept within budget) and every tool call it asks for is
    /// dispatched, until it answers in text or a limit ends the turn:
    /// the same call requested `max_identical_repeats` times in a row
    /// (`LoopDetected`, before that call runs), `max_consecutive_tool_failures`
    /// failed dispatches in a row, `max_tool_calls` dispatches in the turn,
    /// `MAX_EMPTY_RESPONSES` replies in a row with neither text nor a tool
    /// call, a model failure, or cancellation. An answer that follows a
    /// state-changing tool call is held back once while the model is asked
    /// to verify the evidence; the next answer is accepted either way.
    /// Every prompt sent with the tools opens with the whole persisted
    /// conversation, this request included, and the computer context: the
    /// budget steps never evict them.
    pub fn process(&mut self, input: &str) -> (r: Result<String, AssistantError>)
        requires
            old(self).wf(),
        ensures
            final(self).wf(),
            final(self).limits() == old(self).limits(),
            final(self).budget() == old(self).budget(),
            final(self).planning_enabled() == old(self).planning_enabled(),
            exists|u: Message| plain_message("user"@, input@, u) && {
                let persisted = #[trigger] pushed(old(self).history(), u);
                &&& r is Err ==> persisted == final(self).history()
                &&& r matches Ok(t) ==> exists|a: Message| plain_message("assistant"@, t@, a)
                    && #[trigger] pushed(persisted, a) == final(self).history()
                &&& tool_prompts_open_with(final(self).turn_prompts(), 0, persisted)
            },
            r matches Ok(t) ==> !is_blank_seq(t@),
            r matches Ok(t) ==> exists|l: L, p: Seq<Message>, resp: LlmResponse|
                #[trigger] old(self).model_replied(l, p, true, Ok(resp)) && resp.text == Some(t),
            old(self).cancel_set() ==> {
                &&& (r == Err::<String, AssistantError>(AssistantError::Cancelled) || r matches Err(AssistantError::Tool(_)))
                &&& final(self).turn_calls().len() == 0
                &&& forall|k: int| 0 <= k < final(self).turn_prompts().len() ==> !(#[trigger] final(self).turn_prompts()[k]).1
            },
            final(self).turn_calls().len() == final(self).turn_mutations().len(),
            final(self).turn_calls().len() <= old(self).limits().max_tool_calls || final(self).turn_calls().len() <= 1,
            no_loop(final(self).turn_calls(), old(self).limits().max_identical_repeats as nat),
            final(self).turn_verify_requests() <= 1,
            (r is Ok && final(self).turn_mutations().len() > 0 && final(self).turn_mutations().last())
                ==> final(self).turn_verify_requests() == 1,
            r matches Err(AssistantError::LoopDetected(n)) ==> n == old(self).limits().max_identical_repeats,
            r matches Err(AssistantError::TooManyConsecutiveToolFailures(n))
                ==> n == old(self).limits().max_consecutive_tool_failures,
            (r matches Err(AssistantError::LoopDetected(_))) == (final(self).turn_refused() is Some),
            final(self).turn_refused() matches Some(c) ==> run_length(final(self).turn_calls().push(c), final(self).turn_calls().len() as int)
                >= old(self).limits().max_identical_repeats,
            forall|e: Event| old(self).spec_events().spec_has_emitted(e) ==> #[trigger] final(self).spec_events().spec_has_emitted(e),
            final(self).spec_events().spec_has_emitted(Event::RequestStarted),
            r matches Err(AssistantError::Cancelled) ==> final(self).reported_cancellation(),
            r is Ok ==> exists|e: Event| #[trigger] final(self).spec_events().spec_has_emitted(e) && e is RequestCompleted,
            r matches Err(AssistantError::Tool(e)) ==> old(self).spec_dispatcher().spec_context(&Err(e)),
            r matches Err(AssistantError::Cancelled) ==> old(self).cancel_may_be_set(),
            r matches Err(AssistantError::Llm(e)) ==> old(self).model_may_fail(e),
            r matches Err(AssistantError::EmptyResponse) ==> old(self).model_may_reply_empty(),
            r matches Err(AssistantError::ToolCallLimitExceeded) ==> final(self).turn_calls().len() >= old(self).limits().max_tool_calls,
            r matches Err(AssistantError::TooManyConsecutiveToolFailures(_)) ==> old(self).limits().max_consecutive_tool_failures == 0
                || (final(self).turn_results().len() > 0 && final(self).turn_results().last() is Err),
            final(self).turn_results().len() == final(self).turn_calls().len(),
            forall|k: int| 0 <= k < final(self).turn_results().len()
                ==> old(self).may_dispatch(final(self).turn_calls()[k], #[trigger] final(self).turn_results()[k])
                && final(self).turn_mutations()[k] == (final(self).turn_results()[k] matches Ok(o) && o.mutated),
            forall|k: int| 0 <= k < final(self).turn_calls().len() ==> old(self).requested_by_model(#[trigger] final(self).turn_calls()[k]),
            final(self).turn_refused() matches Some(c) ==> old(self).requested_by_model(c),
            old(self).cancel_set() && !old(self).planning_enabled() ==> final(self).turn_prompts().len() == 0,
            r matches Err(AssistantError::LoopDetected(_)) ==> final(self).reported_failure("loop detected"@),
            r matches Err(AssistantError::TooManyConsecutiveToolFailures(_)) ==> final(self).reported_failure("too many consecutive tool failures"@),
            r matches Err(AssistantError::ToolCallLimitExceeded) ==> final(self).reported_failure("tool call limit exceeded"@),
            r matches Err(AssistantError::EmptyResponse) ==> final(self).reported_failure("empty response"@),
            (r is Ok && final(self).turn_mutations().len() > 0 && final(self).turn_mutations().last())
                ==> final(self).spec_events().spec_has_emitted(Event::AnsweredUnverified),
            final(self).turn_verify_requests() == 1
                ==> final(self).spec_events().spec_has_emitted(Event::StateChanged { state: TurnState::Verifying }),
    {
        let request_start = instant_now();
        self.events.emit(Event::RequestStarted);
        self.set_state(TurnState::Receiving);

        let user = user_message(input);
        let ghost u = user;
        self.transcript.push(user);
        self.turn = Ghost((Seq::empty(), Seq::empty(), 0));
        self.prompts = Ghost(Seq::empty());
        self.refused = Ghost(None);
        self.results = Ghost(Seq::empty());

        let ghost turn_self = *self;
        proof {
            turn_self.lemma_model_facts_registry(&*old(self));
        }
        match self.run_turn(&request_start) {
            Ok(text) => {
                proof {
                    let (l, p, resp) = choose|l: L, p: Seq<Message>, resp: LlmResponse|
                        #[trigger] turn_self.model_replied(l, p, true, Ok(resp)) && resp.text == Some(text)
                            && opens_with(p, turn_self.transcript@);
                    turn_self.lemma_model_replied_registry(&*old(self), l, p, true, Ok(resp));
                    assert(old(self).model_replied(l, p, true, Ok(resp)));
                }
                let answer = assistant_text_message(text.clone());
                let ghost a = answer;
                self.transcript.push(answer);
                let duration = elapsed(&request_start);
                let completed = Event::RequestCompleted { duration };
                let ghost completed_event = completed;
                self.events.emit(completed);
                assert(self.spec_events().spec_has_emitted(completed_event));
                assert(plain_message("assistant"@, text@, a));
                assert(pushed(pushed(old(self).history(), u), a) == self.history());
                Ok(text)
            },
            Err(e) => {
                assert(pushed(old(self).history(), u) == self.history());
                Err(e)
            },
        }
    }

    /// Everything of a turn between persisting the request and persisting
    /// the answer.
    fn run_turn(&mut self, request_start: &std::time::Instant) -> (r: Result<String, AssistantError>)
        requires
            old(self).wf(),
            old(self).turn@ == (Seq::<ToolCall>::empty(), Seq::<bool>::empty(), 0nat),
            old(self).refused@ is None,
            old(self).results@ == Seq::<Result<ToolOutcome, ToolDispatcherError>>::empty(),
        ensures
            r matches Err(AssistantError::Tool(e)) ==> old(self).dispatcher.spec_context(&Err(e)),
            r matches Err(AssistantError::Cancelled) ==> old(self).cancel.spec_may_report(true),
            r matches Err(AssistantError::Llm(e)) ==> old(self).model_may_fail(e),
            r matches Err(AssistantError::EmptyResponse) ==> old(self).model_may_reply_empty(),
            r matches Err(AssistantError::ToolCallLimitExceeded) ==> final(self).turn@.0.len() >= old(self).limits.max_tool_calls,
            r matches Err(AssistantError::TooManyConsecutiveToolFailures(_)) ==> old(self).limits.max_consecutive_tool_failures == 0
                || (final(self).results@.len() > 0 && final(self).results@.last() is Err),
            final(self).results@.len() == final(self).turn@.0.len(),
            forall|k: int| 0 <= k < final(self).results@.len() ==> old(self).may_dispatch(final(self).turn@.0[k], #[trigger] final(self).results@[k])
                && final(self).turn@.1[k] == (final(self).results@[k] matches Ok(o) && o.mutated),
            forall|k: int| 0 <= k < final(self).turn@.0.len() ==> old(self).requested_by_model(#[trigger] final(self).turn@.0[k]),
            final(self).refused@ matches Some(c) ==> old(self).requested_by_model(c),
            old(self).cancel_set() && !old(self).planning_enabled ==> final(self).prompts@ == old(self).prompts@,
            r matches Err(AssistantError::LoopDetected(_)) ==> final(self).reported_failure("loop detected"@),
            r matches Err(AssistantError::TooManyConsecutiveToolFailures(_)) ==> final(self).reported_failure("too many consecutive tool failures"@),
            r matches Err(AssistantError::ToolCallLimitExceeded) ==> final(self).reported_failure("tool call limit exceeded"@),
            r matches Err(AssistantError::EmptyResponse) ==> final(self).reported_failure("empty response"@),
            (r is Ok && final(self).turn@.1.len() > 0 && final(self).turn@.1.last()) ==> final(self).events.spec_has_emitted(Event::AnsweredUnverified),
            final(self).turn@.2 == 1 ==> final(self).events.spec_has_emitted(Event::StateChanged { state: TurnState::Verifying }),
            final(self).wf(),
            final(self).transcript@ == old(self).transcript@,
            final(self).limits == old(self).limits,
            final(self).budget == old(self).budget,
            final(self).planning_enabled == old(self).planning_enabled,
            r matches Ok(t) ==> !is_blank_seq(t@),
            final(self).turn_calls().len() == final(self).turn_mutations().len(),
            final(self).turn_calls().len() <= old(self).limits().max_tool_calls || final(self).turn_calls().len() <= 1,
            no_loop(final(self).turn_calls(), old(self).limits().max_identical_repeats as nat),
            final(self).turn_verify_requests() <= 1,
            (r is Ok && final(self).turn_mutations().len() > 0 && final(self).turn_mutations().last())
                ==> final(self).turn_verify_requests() == 1,
            r matches Err(AssistantError::LoopDetected(n)) ==> n == old(self).limits().max_identical_repeats,
            r matches Err(AssistantError::TooManyConsecutiveToolFailures(n))
                ==> n == old(self).limits().max_consecutive_tool_failures,
            final(self).prompts@.len() >= old(self).prompts@.len(),
            tool_prompts_open_with(final(self).prompts@, old(self).prompts@.len() as int, old(self).transcript@),
            final(self).registry == old(self).registry,
            final(self).cancel == old(self).cancel,
            (r matches Err(AssistantError::LoopDetected(_))) == (final(self).refused@ is Some),
            final(self).refused@ matches Some(c) ==> run_length(final(self).turn@.0.push(c), final(self).turn@.0.len() as int)
                >= old(self).limits.max_identical_repeats,
            r matches Ok(t) ==> exists|l: L, p: Seq<Message>, resp: LlmResponse|
                #[trigger] old(self).model_replied(l, p, true, Ok(resp)) && resp.text == Some(t)
                    && opens_with(p, old(self).transcript@),
            old(self).cancel_set() ==> {
                &&& (r == Err::<String, AssistantError>(AssistantError::Cancelled) || r matches Err(AssistantError::Tool(_)))
                &&& final(self).turn@.0.len() == 0
                &&& forall|k: int| old(self).prompts@.len() <= k < final(self).prompts@.len() ==> !(#[trigger] final(self).prompts@[k]).1
            },
            forall|e: Event| old(self).events.spec_has_emitted(e) ==> #[trigger] final(self).events.spec_has_emitted(e),
            r matches Err(AssistantError::Cancelled) ==> final(self).reported_cancellation(),
    {
        let ghost lim = self.limits;
        let ghost history = self.transcript@;
        let ghost p0 = self.prompts@.len() as int;
        let mut messages = match self.build_prompt_messages() {
            Ok(messages) => messages,
            Err(e) => return Err(e),
        };

        if self.planning_enabled {
            self.set_state(TurnState::Planning);
            match self.build_plan(&messages) {
                Some(plan) => {
                    self.events.emit(Event::PlanCreated { plan: plan.clone() });
                    let ghost before = messages@;
                    let m = plan_message(plan.as_str());
                    messages.push(m);
                    proof {
                        lemma_opens_with_push(before, m, history);
                    }
                },
                None => {},
            }
        }

        // Everything built so far (history, context, plan) is off-limits to
        // the budget fitter: only what the turn adds from here is evictable.
        let protected_prefix = messages.len();
        let mut guard = TurnGuard::new(self.limits);

        loop
            invariant
                self.wf(),
                self.limits == lim,
                self.budget == old(self).budget,
                self.planning_enabled == old(self).planning_enabled,
                self.transcript@ == old(self).transcript@,
                lim == old(self).limits,
                protected_prefix <= messages@.len(),
                guard.wf(),
                !guard.finished(),
                !guard.awaiting_result(),
                guard.limits() == lim,
                self.turn@.0.len() == self.turn@.1.len(),
                self.turn@.0.len() == guard.tool_call_count(),
                no_loop(self.turn@.0, lim.max_identical_repeats as nat),
                self.turn@.0.len() == 0 ==> guard.last_tool_call() is None && guard.identical_repeats() == 0,
                self.turn@.0.len() > 0 ==> (guard.last_tool_call() matches Some(l) && l.same_as(self.turn@.0.last()))
                    && guard.identical_repeats() == run_length(self.turn@.0, self.turn@.0.len() - 1),
                guard.unverified_mutation() == (self.turn@.1.len() > 0 && self.turn@.1.last()),
                guard.verification_gate_used() == (self.turn@.2 == 1),
                self.turn@.2 <= 1,
                history == old(self).transcript@,
                p0 == old(self).prompts@.len(),
                history.len() < protected_prefix,
                opens_with(messages@, history),
                self.prompts@.len() >= p0,
                tool_prompts_open_with(self.prompts@, p0, history),
                self.registry == old(self).registry,
                self.cancel == old(self).cancel,
                self.refused@ is None,
                old(self).cancel_set() ==> self.turn@.0.len() == 0
                    && forall|k: int| p0 <= k < self.prompts@.len() ==> !(#[trigger] self.prompts@[k]).1,
                forall|e: Event| old(self).events.spec_has_emitted(e) ==> #[trigger] self.events.spec_has_emitted(e),
                self.results@.len() == self.turn@.1.len(),
                forall|k: int| 0 <= k < self.results@.len() ==> old(self).may_dispatch(self.turn@.0[k], #[trigger] self.results@[k])
                    && self.turn@.1[k] == (self.results@[k] matches Ok(o) && o.mutated),
                forall|k: int| 0 <= k < self.turn@.0.len() ==> old(self).requested_by_model(#[trigger] self.turn@.0[k]),
                old(self).cancel_set() && !old(self).planning_enabled ==> self.prompts@ == old(self).prompts@,
                self.turn@.2 == 1 ==> self.events.spec_has_emitted(Event::StateChanged { state: TurnState::Verifying }),
            decreases
                (if lim.max_tool_calls > 0 { lim.max_tool_calls as int } else { 1int }) - guard.tool_call_count(),
                (if guard.verification_gate_used() { 0int } else { 1int }),
                MAX_EMPTY_RESPONSES - guard.empty_responses(),
        {
            if self.cancel.is_cancelled() {
                let e = self.cancelled(request_start);
                return Err(e);
            }

            let ghost before_fit = messages@;
            let _ = self.fit_to_budget(&mut messages, protected_prefix);
            proof {
                lemma_opens_with_prefix(before_fit, messages@, history, protected_prefix as int);
            }

            self.set_state(TurnState::Thinking);
            let ghost asked = messages@;
            let ghost gen_self = *self;
            let response = match self.generate_with_retry(&messages, request_start) {
                Ok(response) => response,
                Err(e) => {
                    proof {
                        if e is Llm {
                            let le = e->Llm_0;
                            let l = choose|l: L| #[trigger] gen_self.model_replied(l, asked, true, Err(le));
                            gen_self.lemma_model_replied_registry(&*old(self), l, asked, true, Err(le));
                            assert(old(self).model_replied(l, asked, true, Err(le)));
                        }
                    }
                    return Err(e);
                },
            };
            let ghost l0 = choose|l: L| #[trigger] gen_self.model_replied(l, asked, true, Ok(response));
            let ghost resp0 = response;
            proof {
                gen_self.lemma_model_replied_registry(&*old(self), l0, asked, true, Ok(response));
                assert(old(self).model_replied(l0, asked, true, Ok(response)));
            }

            if response.tool_calls.len() > 0 {
                self.set_state(TurnState::Executing);
                let calls = response.tool_calls;
                let ghost c0 = guard.tool_call_count();
                let mut k: usize = 0;
                while k < calls.len()
                    invariant
                        k <= calls@.len(),
                        self.wf(),
                        self.limits == lim,
                        self.budget == old(self).budget,
                        self.planning_enabled == old(self).planning_enabled,
                        self.transcript@ == old(self).transcript@,
                        lim == old(self).limits,
                        protected_prefix <= messages@.len(),
                        guard.wf(),
                        !guard.finished(),
                        !guard.awaiting_result(),
                        guard.limits() == lim,
                        self.turn@.0.len() == self.turn@.1.len(),
                        self.turn@.0.len() == guard.tool_call_count(),
                        no_loop(self.turn@.0, lim.max_identical_repeats as nat),
                        self.turn@.0.len() == 0 ==> guard.last_tool_call() is None && guard.identical_repeats() == 0,
                        self.turn@.0.len() > 0 ==> (guard.last_tool_call() matches Some(l) && l.same_as(self.turn@.0.last()))
                            && guard.identical_repeats() == run_length(self.turn@.0, self.turn@.0.len() - 1),
                        guard.unverified_mutation() == (self.turn@.1.len() > 0 && self.turn@.1.last()),
                        guard.verification_gate_used() == (self.turn@.2 == 1),
                        self.turn@.2 <= 1,
                        guard.tool_call_count() == c0 + k,
                        history == old(self).transcript@,
                        p0 == old(self).prompts@.len(),
                        history.len() < protected_prefix,
                        opens_with(messages@, history),
                        self.prompts@.len() >= p0,
                        tool_prompts_open_with(self.prompts@, p0, history),
                        self.registry == old(self).registry,
                        self.cancel == old(self).cancel,
                        self.refused@ is None,
                        !old(self).cancel_set(),
                        forall|e: Event| old(self).events.spec_has_emitted(e) ==> #[trigger] self.events.spec_has_emitted(e),
                        self.results@.len() == self.turn@.1.len(),
                        forall|j: int| 0 <= j < self.results@.len() ==> old(self).may_dispatch(self.turn@.0[j], #[trigger] self.results@[j])
                            && self.turn@.1[j] == (self.results@[j] matches Ok(o) && o.mutated),
                        forall|j: int| 0 <= j < self.turn@.0.len() ==> old(self).requested_by_model(#[trigger] self.turn@.0[j]),
                        calls@ == resp0.tool_calls@,
                        self.turn@.2 == 1 ==> self.events.spec_has_emitted(Event::StateChanged { state: TurnState::Verifying }),
                        old(self).model_replied(l0, asked, true, Ok(resp0)),
                    decreases calls@.len() - k,
                {
                    if self.cancel.is_cancelled() {
                        let e = self.cancelled(request_start);
                        return Err(e);
                    }
                    let call = calls[k].duplicate();
                    proof {
                        assert(resp0.tool_calls@[k as int] == call);
                        assert(resp0.tool_calls@.contains(call));
                        assert(old(self).requested_by_model(call));
                    }
                    let ghost before_call = messages@;
                    let call_message = assistant_tool_call_message(call.duplicate());
                    messages.push(call_message);
                    proof {
                        lemma_opens_with_push(before_call, call_message, history);
                    }

                    let ghost before = self.turn@.0;
                    match guard.tool_requested(&call) {
                        Some(e) => {
                            proof {
                                let after = before.push(call);
                                if before.len() > 0 {
                                    lemma_run_length_push(before, call, before.len() - 1);
                                }
                                assert(run_length(after, after.len() - 1) == guard.identical_repeats());
                            }
                            self.refused = Ghost(Some(call));
                            let e = self.abort(request_start, "loop detected", e);
                            return Err(e);
                        },
                        None => {},
                    }
                    proof {
                        let after = before.push(call);
                        if before.len() > 0 {
                            lemma_run_length_push(before, call, before.len() - 1);
                        }
                        assert(run_length(after, after.len() - 1) == guard.identical_repeats());
                        assert forall|i: int| 0 <= i < after.len() implies #[trigger] run_length(after, i) < lim.max_identical_repeats by {
                            if i < before.len() {
                                lemma_run_length_push(before, call, i);
                                assert(run_length(before, i) < lim.max_identical_repeats);
                            }
                        }
                    }
                    self.turn = Ghost((self.turn@.0.push(call), self.turn@.1, self.turn@.2));

                    self.events.emit(Event::ToolStarted { name: call.name.clone(), arguments: call.arguments.clone() });
                    let tool_name = call.name.clone();
                    let start = instant_now();
                    let ghost dispatcher_before = self.dispatcher;
                    let dispatch_result = self.dispatcher.dispatch(call);
                    let ghost result = dispatch_result;
                    assert(dispatcher_before.spec_dispatches(call, &result));
                    let duration = elapsed(&start);
                    let (outcome, dispatched) = match dispatch_result {
                        Ok(outcome) => (outcome, true),
                        Err(error) => {
                            let mut text = "ERROR: ".to_owned();
                            push_str(&mut text, error.message().as_str());
                            (ToolOutcome::from_text(text), false)
                        },
                    };
                    self.events.emit(Event::ToolCompleted {
                        name: tool_name.clone(),
                        duration,
                        output: outcome.text.clone(),
                        images: outcome.images.len(),
                    });
                    let mutated = outcome.mutated;
                    self.turn = Ghost((self.turn@.0, self.turn@.1.push(mutated), self.turn@.2));
                    self.results = Ghost(self.results@.push(result));
                    proof {
                        assert(old(self).may_dispatch(call, result));
                        assert(mutated == (result matches Ok(o) && o.mutated));
                    }
                    let ghost before_result = messages@;
                    let result_message = tool_result_message(tool_name, outcome);
                    messages.push(result_message);
                    proof {
                        lemma_opens_with_push(before_result, result_message, history);
                    }

                    match guard.tool_finished(dispatched, mutated) {
                        Some(e) => {
                            let reason = match e {
                                AssistantError::TooManyConsecutiveToolFailures(_) => "too many consecutive tool failures",
                                _ => "tool call limit exceeded",
                            };
                            let e = self.abort(request_start, reason, e);
                            return Err(e);
                        },
                        None => {},
                    }
                    k = k + 1;
                }
                continue;
            }

            let text_is_answer = match &response.text {
                Some(text) => !is_blank(text.as_str()),
                None => false,
            };
            match guard.text_received(text_is_answer) {
                TextStep::Verify => {
                    self.set_state(TurnState::Verifying);
                    let ghost before_nudge = messages@;
                    let nudge = verify_nudge();
                    messages.push(nudge);
                    proof {
                        lemma_opens_with_push(before_nudge, nudge, history);
                    }
                    self.turn = Ghost((self.turn@.0, self.turn@.1, 1));
                },
                TextStep::Answer { unverified } => {
                    if unverified {
                        self.events.emit(Event::AnsweredUnverified);
                    }
                    self.set_state(TurnState::Responding);
                    let ghost reply = response;
                    let text = response.text.unwrap();
                    assert(reply.text == Some(text));
                    assert(exists|l: L| #[trigger] old(self).model_replied(l, asked, true, Ok(reply)));
                    return Ok(text);
                },
                TextStep::NudgeEmpty => {
                    let ghost before_nudge = messages@;
                    let nudge = empty_nudge();
                    messages.push(nudge);
                    proof {
                        lemma_opens_with_push(before_nudge, nudge, history);
                    }
                },
                TextStep::GiveUp => {
                    let e = self.abort(request_start, "empty response", AssistantError::EmptyResponse);
                    return Err(e);
                },
            }
        }
    }
}

impl<L: Llm, D: ToolDispatcher, E: EventSink> AutonomousAgent for Assistant<L, D, E> {
    /// An answer is never blank; an unusable session always fails.
    open spec fn spec_responds(&self, prompt: &str, r: &Result<String, String>) -> bool {
        &&& r matches Ok(t) ==> !is_blank_seq(t@)
        &&& !self.wf() ==> r is Err
    }

    /// Runs `prompt` through the same agent loop as a user request; an
    /// error comes back as its display text.
    /// A session that is not usable answers with an error and is left as
    /// it was; otherwise the prompt is persisted like a user request, and
    /// a non-blank answer after it on success.
    fn respond_to(&mut self, prompt: &str) -> (r: Result<String, String>)
        ensures
            !old(self).wf() ==> r is Err && final(self).history() == old(self).history(),
            old(self).wf() ==> final(self).wf() && exists|u: Message| plain_message("user"@, prompt@, u) && {
                let persisted = #[trigger] pushed(old(self).history(), u);
                &&& r is Err ==> persisted == final(self).history()
                &&& r matches Ok(t) ==> !is_blank_seq(t@) && exists|a: Message| plain_message("assistant"@, t@, a)
                    && #[trigger] pushed(persisted, a) == final(self).history()
            },
    {
        if !self.is_usable() {
            return Err("the session is not in a usable state".to_owned());
        }
        match self.process(prompt) {
            Ok(text) => Ok(text),
            Err(error) => Err(error.message()),
        }
    }
}

} // verus!
