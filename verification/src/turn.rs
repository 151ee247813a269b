//! The decisions of one agent turn, separated from the model and tool calls
//! they sit between: which limit ends the turn, when an answer is accepted,
//! when the model is asked to check its own work, and when a failed model
//! call is retried.
use vstd::prelude::*;
use crate::llm::{LlmError, ToolCall, is_retryable};
use crate::dispatch::ToolDispatcherError;
use crate::text::{opt_view, push_str, push_decimal, decimal_seq, decimal_text, parse_decimal};
use crate::ports::Environment;

verus! {

/// How many turns in a row the model may answer with neither text nor a
/// tool call before the turn is aborted.
pub const MAX_EMPTY_RESPONSES: usize = 3;

/// Every bound the agent loop enforces on a single turn.
#[derive(Debug, Clone, Copy)]
pub struct LoopLimits {
    /// Total tool calls allowed in one turn.
    pub max_tool_calls: usize,
    /// How many times in a row the exact same tool call may be requested.
    pub max_identical_repeats: usize,
    /// How many tool calls in a row may fail before the turn gives up.
    pub max_consecutive_tool_failures: usize,
    /// How many times a retryable model failure is retried.
    pub max_llm_retries: u32,
    /// Base delay, in milliseconds, of the retry backoff.
    pub retry_base_delay_ms: u64,
}

/// The limits a session starts with.
pub open spec fn default_loop_limits() -> LoopLimits {
    LoopLimits {
        max_tool_calls: 30,
        max_identical_repeats: 3,
        max_consecutive_tool_failures: 5,
        max_llm_retries: 3,
        retry_base_delay_ms: 250,
    }
}

impl LoopLimits {
    /// The retry backoff fits the machine: `2^attempt` fits a `u32` for
    /// every attempt made, and the longest delay fits a `Duration`.
    pub open spec fn within_machine_limits(&self) -> bool {
        &&& self.max_llm_retries <= 32
        &&& self.max_llm_retries > 0 ==> backoff(self.retry_base_delay_ms, (self.max_llm_retries - 1) as nat) <= MAX_DURATION_MS
    }

}

impl Default for LoopLimits {
    fn default() -> (r: LoopLimits)
        ensures
            r == default_loop_limits(),
    {
        LoopLimits {
            max_tool_calls: 30,
            max_identical_repeats: 3,
            max_consecutive_tool_failures: 5,
            max_llm_retries: 3,
            retry_base_delay_ms: 250,
        }
    }
}

/// `value` read as a `usize` by `str::parse`, or `default` when it is
/// absent or does not parse.
pub open spec fn usize_or(value: Option<Seq<char>>, default: usize) -> usize {
    match value {
        Some(t) => match decimal_text(t) {
            Some(n) => if n <= usize::MAX { n as usize } else { default },
            None => default,
        },
        None => default,
    }
}

/// `value` read as a `u32` by `str::parse`, or `default` when it is absent
/// or does not parse.
pub open spec fn u32_or(value: Option<Seq<char>>, default: u32) -> u32 {
    match value {
        Some(t) => match decimal_text(t) {
            Some(n) => if n <= u32::MAX { n as u32 } else { default },
            None => default,
        },
        None => default,
    }
}

/// The default limits with each count given as text applied on top; a
/// count that is absent or does not parse keeps its default.
pub open spec fn overridden_limits(
    max_tool_calls: Option<Seq<char>>,
    max_identical_repeats: Option<Seq<char>>,
    max_consecutive_tool_failures: Option<Seq<char>>,
    max_llm_retries: Option<Seq<char>>,
) -> LoopLimits {
    let d = default_loop_limits();
    LoopLimits {
        max_tool_calls: usize_or(max_tool_calls, d.max_tool_calls),
        max_identical_repeats: usize_or(max_identical_repeats, d.max_identical_repeats),
        max_consecutive_tool_failures: usize_or(max_consecutive_tool_failures, d.max_consecutive_tool_failures),
        max_llm_retries: u32_or(max_llm_retries, d.max_llm_retries),
        retry_base_delay_ms: d.retry_base_delay_ms,
    }
}

/// `value` read as a `usize`, or `default`.
pub fn parse_usize_or(value: Option<&str>, default: usize) -> (r: usize)
    ensures
        r == usize_or(match value { Some(t) => Some(t@), None => None }, default),
{
    match value {
        Some(t) => match parse_decimal(t, usize::MAX as u64) {
            Some(n) => n as usize,
            None => default,
        },
        None => default,
    }
}

/// `value` read as a `u32`, or `default`.
pub fn parse_u32_or(value: Option<&str>, default: u32) -> (r: u32)
    ensures
        r == u32_or(match value { Some(t) => Some(t@), None => None }, default),
{
    match value {
        Some(t) => match parse_decimal(t, u32::MAX as u64) {
            Some(n) => n as u32,
            None => default,
        },
        None => default,
    }
}

/// The variable `key` of `env`, when it is set.
pub fn env_value<V: Environment>(env: &V, key: &str) -> Option<String> {
    match env.var(key) {
        Ok(value) => Some(value),
        Err(_) => None,
    }
}

impl LoopLimits {
    /// Whether `within_machine_limits` holds.
    pub fn fits_machine(&self) -> (b: bool)
        ensures
            b == self.within_machine_limits(),
    {
        if self.max_llm_retries > 32 {
            return false;
        }
        if self.max_llm_retries == 0 {
            return true;
        }
        let longest = backoff_factor(self.retry_base_delay_ms, self.max_llm_retries - 1);
        longest <= MAX_DURATION_MS
    }

    /// The defaults with the counts given as text applied on top: each one
    /// that is absent or does not parse keeps its default. The backoff
    /// delay is not configurable.
    pub fn with_overrides(
        max_tool_calls: Option<&str>,
        max_identical_repeats: Option<&str>,
        max_consecutive_tool_failures: Option<&str>,
        max_llm_retries: Option<&str>,
    ) -> (r: LoopLimits)
        ensures
            r == overridden_limits(
                opt_view(max_tool_calls),
                opt_view(max_identical_repeats),
                opt_view(max_consecutive_tool_failures),
                opt_view(max_llm_retries),
            ),
    {
        let d = LoopLimits::default();
        LoopLimits {
            max_tool_calls: parse_usize_or(max_tool_calls, d.max_tool_calls),
            max_identical_repeats: parse_usize_or(max_identical_repeats, d.max_identical_repeats),
            max_consecutive_tool_failures: parse_usize_or(max_consecutive_tool_failures, d.max_consecutive_tool_failures),
            max_llm_retries: parse_u32_or(max_llm_retries, d.max_llm_retries),
            retry_base_delay_ms: d.retry_base_delay_ms,
        }
    }

    /// The defaults with `NALA_MAX_TOOL_CALLS`, `NALA_MAX_IDENTICAL_REPEATS`,
    /// `NALA_MAX_CONSECUTIVE_TOOL_FAILURES` and `NALA_MAX_LLM_RETRIES`
    /// applied on top, as `with_overrides` applies them.
    pub fn from_env<V: Environment>(env: &V) -> (r: LoopLimits)
        ensures
            exists|a: Option<Seq<char>>, b: Option<Seq<char>>, c: Option<Seq<char>>, e: Option<Seq<char>>|
                r == #[trigger] overridden_limits(a, b, c, e),
    {
        let a = env_value(env, "NALA_MAX_TOOL_CALLS");
        let b = env_value(env, "NALA_MAX_IDENTICAL_REPEATS");
        let c = env_value(env, "NALA_MAX_CONSECUTIVE_TOOL_FAILURES");
        let e = env_value(env, "NALA_MAX_LLM_RETRIES");
        let a = match &a { Some(t) => Some(t.as_str()), None => None };
        let b = match &b { Some(t) => Some(t.as_str()), None => None };
        let c = match &c { Some(t) => Some(t.as_str()), None => None };
        let e = match &e { Some(t) => Some(t.as_str()), None => None };
        let r = LoopLimits::with_overrides(a, b, c, e);
        assert(r == overridden_limits(opt_view(a), opt_view(b), opt_view(c), opt_view(e)));
        r
    }
}

/// Why a turn ended without an answer.
#[derive(Debug, Clone, PartialEq)]
pub enum AssistantError {
    Llm(LlmError),
    Tool(ToolDispatcherError),
    LoopDetected(usize),
    ToolCallLimitExceeded,
    EmptyResponse,
    TooManyConsecutiveToolFailures(usize),
    Cancelled,
}

impl AssistantError {
    pub open spec fn spec_message(self) -> Seq<char> {
        match self {
            AssistantError::Llm(e) => "LLM error: "@ + e.spec_message(),
            AssistantError::Tool(e) => "tool error: "@ + e.spec_message(),
            AssistantError::LoopDetected(n) => "loop detected: the same tool call was requested "@
                + decimal_seq(n as nat) + " times in a row"@,
            AssistantError::ToolCallLimitExceeded => "tool call limit exceeded"@,
            AssistantError::EmptyResponse => "the model produced neither text nor a tool call too many times in a row"@,
            AssistantError::TooManyConsecutiveToolFailures(n) => decimal_seq(n as nat) + " tool calls in a row failed"@,
            AssistantError::Cancelled => "cancelled"@,
        }
    }

    /// The error's display text.
    pub fn message(&self) -> (s: String)
        ensures
            s@ == self.spec_message(),
    {
        match self {
            AssistantError::Llm(e) => {
                let mut s = "LLM error: ".to_owned();
                push_str(&mut s, e.message().as_str());
                s
            },
            AssistantError::Tool(e) => {
                let mut s = "tool error: ".to_owned();
                push_str(&mut s, e.message().as_str());
                s
            },
            AssistantError::LoopDetected(n) => {
                let mut s = "loop detected: the same tool call was requested ".to_owned();
                push_decimal(&mut s, *n as u64);
                push_str(&mut s, " times in a row");
                s
            },
            AssistantError::ToolCallLimitExceeded => "tool call limit exceeded".to_owned(),
            AssistantError::EmptyResponse => "the model produced neither text nor a tool call too many times in a row".to_owned(),
            AssistantError::TooManyConsecutiveToolFailures(n) => {
                let mut s = String::new();
                push_decimal(&mut s, *n as u64);
                push_str(&mut s, " tool calls in a row failed");
                s
            },
            AssistantError::Cancelled => "cancelled".to_owned(),
        }
    }
}

/// What the turn does with a model reply that carries no tool call.
#[derive(Debug, Clone, PartialEq)]
pub enum TextStep {
    /// End the turn with this text; `unverified` when the last action
    /// changed something and was never checked.
    Answer { unverified: bool },
    /// Ask the model once to check the evidence of its last action.
    Verify,
    /// Remind the model to either call a tool or answer.
    NudgeEmpty,
    /// Too many empty replies in a row.
    GiveUp,
}

/// The counters and flags one turn keeps between model and tool calls.
pub struct TurnGuard {
    limits: LoopLimits,
    last_tool_call: Option<ToolCall>,
    identical_repeats: usize,
    tool_call_count: usize,
    empty_responses: usize,
    consecutive_tool_failures: usize,
    unverified_mutation: bool,
    verification_gate_used: bool,
    awaiting_result: bool,
    finished: bool,
}

impl TurnGuard {
    pub closed spec fn limits(&self) -> LoopLimits { self.limits }
    pub closed spec fn last_tool_call(&self) -> Option<ToolCall> { self.last_tool_call }
    pub closed spec fn identical_repeats(&self) -> nat { self.identical_repeats as nat }
    pub closed spec fn tool_call_count(&self) -> nat { self.tool_call_count as nat }
    pub closed spec fn empty_responses(&self) -> nat { self.empty_responses as nat }
    pub closed spec fn consecutive_tool_failures(&self) -> nat { self.consecutive_tool_failures as nat }
    pub closed spec fn unverified_mutation(&self) -> bool { self.unverified_mutation }
    pub closed spec fn verification_gate_used(&self) -> bool { self.verification_gate_used }
    /// A tool call was accepted and its result has not been reported yet.
    pub closed spec fn awaiting_result(&self) -> bool { self.awaiting_result }
    /// The turn has ended (an answer or an abort was decided).
    pub closed spec fn finished(&self) -> bool { self.finished }

    /// While the turn runs, every counter is below the limit that would end it.
    pub open spec fn wf(&self) -> bool {
        &&& (self.identical_repeats() == 0 || self.identical_repeats() < self.limits().max_identical_repeats)
        &&& (self.consecutive_tool_failures() == 0
            || self.consecutive_tool_failures() < self.limits().max_consecutive_tool_failures)
        &&& self.empty_responses() < MAX_EMPTY_RESPONSES
        &&& if self.awaiting_result() {
            1 <= self.tool_call_count()
                && (self.tool_call_count() <= self.limits().max_tool_calls || self.tool_call_count() == 1)
        } else {
            self.tool_call_count() == 0 || self.tool_call_count() < self.limits().max_tool_calls
        }
    }

    pub fn new(limits: LoopLimits) -> (g: TurnGuard)
        ensures
            g.wf(),
            g.limits() == limits,
            g.last_tool_call() is None,
            g.identical_repeats() == 0,
            g.tool_call_count() == 0,
            g.empty_responses() == 0,
            g.consecutive_tool_failures() == 0,
            !g.unverified_mutation(),
            !g.verification_gate_used(),
            !g.awaiting_result(),
            !g.finished(),
    {
        TurnGuard {
            limits,
            last_tool_call: None,
            identical_repeats: 0,
            tool_call_count: 0,
            empty_responses: 0,
            consecutive_tool_failures: 0,
            unverified_mutation: false,
            verification_gate_used: false,
            awaiting_result: false,
            finished: false,
        }
    }

    pub fn is_finished(&self) -> (r: bool)
        ensures
            r == self.finished(),
    {
        self.finished
    }

    pub fn is_awaiting_result(&self) -> (r: bool)
        ensures
            r == self.awaiting_result(),
    {
        self.awaiting_result
    }

    /// Records that the model asked for `call`. The same call requested
    /// `max_identical_repeats` times in a row ends the turn as a loop;
    /// otherwise the call is counted and the empty-reply streak resets.
    pub fn tool_requested(&mut self, call: &ToolCall) -> (r: Option<AssistantError>)
        requires
            old(self).wf(),
            !old(self).finished(),
            !old(self).awaiting_result(),
        ensures
            ({
                let same = old(self).last_tool_call() matches Some(l) && l.same_as(*call);
                let repeats = if same { old(self).identical_repeats() + 1 } else { 1 };
                &&& final(self).identical_repeats() == repeats
                &&& final(self).last_tool_call() == if same { old(self).last_tool_call() } else { Some(*call) }
                &&& if repeats >= old(self).limits().max_identical_repeats {
                    &&& r == Some(AssistantError::LoopDetected(old(self).limits().max_identical_repeats))
                    &&& final(self).finished()
                } else {
                    &&& r is None
                    &&& !final(self).finished()
                    &&& final(self).awaiting_result()
                    &&& final(self).tool_call_count() == old(self).tool_call_count() + 1
                    &&& final(self).empty_responses() == 0
                    &&& final(self).wf()
                }
            }),
            final(self).limits() == old(self).limits(),
            final(self).consecutive_tool_failures() == old(self).consecutive_tool_failures(),
            final(self).unverified_mutation() == old(self).unverified_mutation(),
            final(self).verification_gate_used() == old(self).verification_gate_used(),
    {
        let same = match &self.last_tool_call {
            Some(last) => last.is_same_as(call),
            None => false,
        };
        if same {
            self.identical_repeats = self.identical_repeats + 1;
        } else {
            self.identical_repeats = 1;
            self.last_tool_call = Some(call.duplicate());
        }
        if self.identical_repeats >= self.limits.max_identical_repeats {
            self.finished = true;
            return Some(AssistantError::LoopDetected(self.limits.max_identical_repeats));
        }
        self.tool_call_count = self.tool_call_count + 1;
        self.empty_responses = 0;
        self.awaiting_result = true;
        None
    }

    /// Records the result of the call last accepted: whether the dispatcher
    /// ran it, and whether it changed something. Too many failures in a
    /// row, or reaching the tool-call limit, ends the turn.
    pub fn tool_finished(&mut self, dispatched: bool, mutated: bool) -> (r: Option<AssistantError>)
        requires
            old(self).wf(),
            !old(self).finished(),
            old(self).awaiting_result(),
        ensures
            ({
                let failures = if dispatched { 0 } else { old(self).consecutive_tool_failures() + 1 };
                &&& final(self).consecutive_tool_failures() == failures
                &&& final(self).unverified_mutation() == mutated
                &&& !final(self).awaiting_result()
                &&& if failures >= old(self).limits().max_consecutive_tool_failures {
                    r == Some(AssistantError::TooManyConsecutiveToolFailures(
                        old(self).limits().max_consecutive_tool_failures,
                    )) && final(self).finished()
                } else if old(self).tool_call_count() >= old(self).limits().max_tool_calls {
                    r == Some(AssistantError::ToolCallLimitExceeded) && final(self).finished()
                } else {
                    r is None && !final(self).finished() && final(self).wf()
                }
            }),
            final(self).limits() == old(self).limits(),
            final(self).tool_call_count() == old(self).tool_call_count(),
            final(self).identical_repeats() == old(self).identical_repeats(),
            final(self).last_tool_call() == old(self).last_tool_call(),
            final(self).empty_responses() == old(self).empty_responses(),
            final(self).verification_gate_used() == old(self).verification_gate_used(),
    {
        if dispatched {
            self.consecutive_tool_failures = 0;
        } else {
            self.consecutive_tool_failures = self.consecutive_tool_failures + 1;
        }
        self.unverified_mutation = mutated;
        self.awaiting_result = false;
        if self.consecutive_tool_failures >= self.limits.max_consecutive_tool_failures {
            self.finished = true;
            return Some(AssistantError::TooManyConsecutiveToolFailures(
                self.limits.max_consecutive_tool_failures,
            ));
        }
        if self.tool_call_count >= self.limits.max_tool_calls {
            self.finished = true;
            return Some(AssistantError::ToolCallLimitExceeded);
        }
        None
    }

    /// Decides what a reply without tool calls does. Non-blank text ends
    /// the turn, except that an unchecked mutation gets exactly one
    /// verification round first; blank or missing text is nudged, and the
    /// third such reply in a row gives up.
    pub fn text_received(&mut self, text_is_answer: bool) -> (r: TextStep)
        requires
            old(self).wf(),
            !old(self).finished(),
            !old(self).awaiting_result(),
        ensures
            if text_is_answer {
                if old(self).unverified_mutation() && !old(self).verification_gate_used() {
                    &&& r == TextStep::Verify
                    &&& final(self).verification_gate_used()
                    &&& !final(self).finished()
                    &&& final(self).wf()
                    &&& final(self).empty_responses() == old(self).empty_responses()
                } else {
                    &&& r == (TextStep::Answer { unverified: old(self).unverified_mutation() })
                    &&& final(self).finished()
                    &&& final(self).verification_gate_used() == old(self).verification_gate_used()
                }
            } else {
                &&& final(self).empty_responses() == old(self).empty_responses() + 1
                &&& final(self).verification_gate_used() == old(self).verification_gate_used()
                &&& if old(self).empty_responses() + 1 >= MAX_EMPTY_RESPONSES {
                    r == TextStep::GiveUp && final(self).finished()
                } else {
                    r == TextStep::NudgeEmpty && !final(self).finished() && final(self).wf()
                }
            },
            final(self).limits() == old(self).limits(),
            final(self).tool_call_count() == old(self).tool_call_count(),
            final(self).identical_repeats() == old(self).identical_repeats(),
            final(self).last_tool_call() == old(self).last_tool_call(),
            final(self).consecutive_tool_failures() == old(self).consecutive_tool_failures(),
            final(self).unverified_mutation() == old(self).unverified_mutation(),
            !final(self).awaiting_result(),
    {
        if text_is_answer {
            if self.unverified_mutation && !self.verification_gate_used {
                self.verification_gate_used = true;
                return TextStep::Verify;
            }
            self.finished = true;
            return TextStep::Answer { unverified: self.unverified_mutation };
        }
        self.empty_responses = self.empty_responses + 1;
        if self.empty_responses >= MAX_EMPTY_RESPONSES {
            self.finished = true;
            return TextStep::GiveUp;
        }
        TextStep::NudgeEmpty
    }

    /// Ends the turn on cancellation.
    pub fn cancel(&mut self) -> (r: AssistantError)
        ensures
            r == AssistantError::Cancelled,
            final(self).finished(),
            final(self).limits() == old(self).limits(),
    {
        self.finished = true;
        AssistantError::Cancelled
    }
}

/// `2^attempt`, the multiplier of the retry backoff's base delay.
pub open spec fn pow2(n: nat) -> nat
    decreases n,
{
    if n == 0 { 1 } else { 2 * pow2((n - 1) as nat) }
}

/// Whether a failed model call is retried: only a retryable failure, and
/// only while fewer than `max_llm_retries` retries have been made.
pub open spec fn spec_should_retry(error: LlmError, attempt: u32, max_llm_retries: u32) -> bool {
    (error is RequestFailed) && attempt < max_llm_retries
}

/// The backoff before retry number `attempt + 1`: `base * 2^attempt`.
pub open spec fn backoff(base: u64, attempt: nat) -> int {
    base * pow2(attempt)
}

/// The first retry waits the base delay, and each later one twice as long
/// as the one before it.
pub proof fn backoff_doubles(base: u64, attempt: nat)
    ensures
        backoff(base, 0) == base,
        backoff(base, attempt + 1) == 2 * backoff(base, attempt),
{
    assert(pow2(0) == 1);
    assert(base * 1 == base);
    assert(pow2(attempt + 1) == 2 * pow2(attempt));
    assert(base * (2 * pow2(attempt)) == 2 * (base * pow2(attempt))) by (nonlinear_arith);
}

/// The longest span a `Duration` holds, in whole milliseconds:
/// `u64::MAX` seconds and 999 milliseconds.
pub const MAX_DURATION_MS: u128 = 18_446_744_073_709_551_615_999;

/// `base * 2^attempt`, computed wide enough that it never overflows.
fn backoff_factor(base: u64, attempt: u32) -> (r: u128)
    requires
        attempt < 32,
    ensures
        r == backoff(base, attempt as nat),
{
    let mut factor: u128 = 1;
    let mut k: u32 = 0;
    while k < attempt
        invariant
            k <= attempt < 32,
            factor == pow2(k as nat),
        decreases attempt - k,
    {
        proof {
            lemma_pow2_bound(k as nat + 1);
        }
        factor = factor * 2;
        k = k + 1;
    }
    proof {
        lemma_pow2_bound(attempt as nat);
        let b = base as int;
        let f = factor as int;
        assert(b * f <= 0xffff_ffff_ffff_ffff * 0x1_0000_0000) by (nonlinear_arith)
            requires
                0 <= b <= 0xffff_ffff_ffff_ffff,
                0 <= f <= 0x1_0000_0000,
        ;
    }
    (base as u128) * factor
}

/// The larger the attempt, the longer the backoff.
pub proof fn lemma_backoff_mono(base: u64, a: nat, b: nat)
    requires
        a <= b,
    ensures
        backoff(base, a) <= backoff(base, b),
{
    lemma_pow2_mono(a, b);
    let x = pow2(a) as int;
    let y = pow2(b) as int;
    let c = base as int;
    assert(c * x <= c * y) by (nonlinear_arith)
        requires
            0 <= c,
            x <= y,
    ;
}

/// The delay, in milliseconds, before retry number `attempt + 1`:
/// `base * 2^attempt`, or `None` when a retry is not due.
pub fn retry_delay_ms(error: &LlmError, attempt: u32, limits: &LoopLimits) -> (r: Option<u128>)
    requires
        attempt < 32,
    ensures
        r is Some <==> spec_should_retry(*error, attempt, limits.max_llm_retries),
        r matches Some(d) ==> d == backoff(limits.retry_base_delay_ms, attempt as nat),
{
    if !is_retryable(error) || attempt >= limits.max_llm_retries {
        return None;
    }
    Some(backoff_factor(limits.retry_base_delay_ms, attempt))
}

pub proof fn lemma_pow2_mono(a: nat, b: nat)
    requires
        a <= b,
    ensures
        pow2(a) <= pow2(b),
    decreases b,
{
    if a < b {
        lemma_pow2_mono(a, (b - 1) as nat);
    }
}

pub proof fn lemma_pow2_bound(n: nat)
    requires
        n <= 32,
    ensures
        1 <= pow2(n) <= 0x1_0000_0000,
{
    reveal_with_fuel(pow2, 33);
    assert(pow2(32) == 0x1_0000_0000);
    lemma_pow2_mono(n, 32);
    lemma_pow2_mono(0, n);
}

/// The default limits: at most 30 tool calls a turn, the third identical
/// call in a row is a loop, five failed calls in a row end the turn, and a
/// failed model request is retried three times, first after 250 ms.
pub proof fn default_limits_values()
    ensures
        default_loop_limits().max_tool_calls == 30,
        default_loop_limits().max_identical_repeats == 3,
        default_loop_limits().max_consecutive_tool_failures == 5,
        default_loop_limits().max_llm_retries == 3,
        default_loop_limits().retry_base_delay_ms == 250,
{
}

/// Only a failed request is retried, and only while retries are left; a
/// response that could not be understood never is.
pub proof fn only_failed_requests_are_retried(error: LlmError, attempt: u32, max_llm_retries: u32)
    ensures
        error is InvalidResponse ==> !spec_should_retry(error, attempt, max_llm_retries),
        attempt >= max_llm_retries ==> !spec_should_retry(error, attempt, max_llm_retries),
        (error is RequestFailed && attempt < max_llm_retries) ==> spec_should_retry(error, attempt, max_llm_retries),
{
}

/// A count written out in decimal replaces its default, whatever the
/// default; an absent count keeps the default, and so does text holding
/// any character that is neither a digit nor a `+`.
pub proof fn written_counts_override_defaults(n: nat, text: Seq<char>, default: usize)
    ensures
        n <= usize::MAX ==> usize_or(Some(decimal_seq(n)), default) == n,
        n <= u32::MAX ==> u32_or(Some(decimal_seq(n)), default as u32) == n,
        usize_or(None, default) == default,
        (exists|i: int| 0 <= i < text.len() && ((text[i] as u32) < 48 || (text[i] as u32) > 57) && text[i] != '+')
            ==> usize_or(Some(text), default) == default,
{
    crate::text::decimal_rendering_parses_back(n);
    if exists|i: int| 0 <= i < text.len() && ((text[i] as u32) < 48 || (text[i] as u32) > 57) && text[i] != '+' {
        let i = choose|i: int| 0 <= i < text.len() && ((text[i] as u32) < 48 || (text[i] as u32) > 57) && text[i] != '+';
        let d = crate::text::unsigned_part(text);
        if text.len() > 0 && text[0] == '+' {
            assert(i > 0);
            assert(d[i - 1] == text[i]);
            assert(!crate::text::is_digit(d[i - 1]));
        } else {
            assert(d[i] == text[i]);
            assert(!crate::text::is_digit(d[i]));
        }
    }
}

} // verus!
