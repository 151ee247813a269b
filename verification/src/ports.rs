//! The ports the library talks to the outside world through: HTTP, durable
//! memory, the computer and its processes and environment, speech,
//! cancellation, clocks, the model, and the autonomous event queue.
use vstd::prelude::*;
use crate::llm::{LlmError, LlmResponse, Message, ToolCall, ToolDefinition, ToolOutcome};
use crate::dispatch::ToolDispatcherError;
use crate::text::push_str;

verus! {

#[verifier::external_type_specification]
#[verifier::external_body]
pub struct ExInstant(std::time::Instant);

/// The current instant (`Instant::now`); nothing is promised of it.
#[verifier::external_body]
pub(crate) fn instant_now() -> std::time::Instant {
    std::time::Instant::now()
}

/// The time elapsed since `start` (`Instant::elapsed`); nothing is promised
/// of it.
#[verifier::external_body]
pub(crate) fn elapsed(start: &std::time::Instant) -> std::time::Duration {
    start.elapsed()
}

/// What `Duration::new` makes of `secs` and `nanos`.
pub uninterp spec fn duration_of(secs: u64, nanos: u32) -> std::time::Duration;

/// `Duration::new(secs, nanos)`. It panics only when `nanos` carries past
/// `u64::MAX` seconds, which a `nanos` below one second never does.
#[verifier::external_body]
pub(crate) fn duration_new(secs: u64, nanos: u32) -> (d: std::time::Duration)
    requires
        nanos < 1_000_000_000,
    ensures
        d == duration_of(secs, nanos),
{
    std::time::Duration::new(secs, nanos)
}

/// `Duration::clone` (it is `Copy`): the same duration.
pub assume_specification[ <std::time::Duration as Clone>::clone ](d: &std::time::Duration) -> (r: std::time::Duration)
    ensures
        r == *d,
;

/// Why an HTTP request failed.
#[derive(Debug, Clone, PartialEq)]
pub enum HttpError {
    Request(String),
    Status(u16),
    TooLarge { limit: usize },
}

impl HttpError {
    pub open spec fn spec_message(self) -> Seq<char> {
        match self {
            HttpError::Request(d) => "request failed: "@ + d@,
            HttpError::Status(code) => "unexpected status "@ + crate::text::decimal_seq(code as nat),
            HttpError::TooLarge { limit } => "response body too large (limit is "@ + crate::text::decimal_seq(limit as nat) + " bytes)"@,
        }
    }

    /// The error's display text.
    pub fn message(&self) -> (s: String)
        ensures
            s@ == self.spec_message(),
    {
        match self {
            HttpError::Request(d) => {
                let mut s = "request failed: ".to_owned();
                push_str(&mut s, d.as_str());
                s
            },
            HttpError::Status(code) => {
                let mut s = "unexpected status ".to_owned();
                crate::text::push_decimal(&mut s, *code as u64);
                s
            },
            HttpError::TooLarge { limit } => {
                let mut s = "response body too large (limit is ".to_owned();
                crate::text::push_decimal(&mut s, *limit as u64);
                push_str(&mut s, " bytes)");
                s
            },
        }
    }
}

/// A blocking HTTP GET.
pub trait HttpFetcher {
    /// Whether `r` is a response a GET of `url` may give (a fetcher that
    /// promises nothing holds it of every response).
    spec fn spec_fetches(&self, url: &str, r: &Result<String, HttpError>) -> bool;

    fn get(&self, url: &str) -> (r: Result<String, HttpError>)
        ensures
            self.spec_fetches(url, &r),
    ;
}

/// A fetcher that is never connected: every request fails.
#[derive(Debug, Default)]
pub struct NoHttpFetcher;

impl HttpFetcher for NoHttpFetcher {
    /// Every request fails as not connected.
    open spec fn spec_fetches(&self, url: &str, r: &Result<String, HttpError>) -> bool {
        r matches Err(HttpError::Request(m)) && m@ == "NoHttpFetcher is never connected"@
    }

    fn get(&self, url: &str) -> (r: Result<String, HttpError>)
        ensures
            r matches Err(HttpError::Request(m)) && m@ == "NoHttpFetcher is never connected"@,
    {
        Err(HttpError::Request("NoHttpFetcher is never connected".to_owned()))
    }
}

/// Why remembering a fact failed.
#[derive(Debug, Clone, PartialEq)]
pub enum MemoryError {
    Save(String),
    InvalidArguments(String),
}

impl MemoryError {
    /// The error's display text.
    pub fn message(&self) -> (s: String)
        ensures
            s@ == match self {
                MemoryError::Save(d) => "could not save memory: "@ + d@,
                MemoryError::InvalidArguments(d) => "invalid remember arguments: "@ + d@,
            },
    {
        let (mut s, d) = match self {
            MemoryError::Save(d) => ("could not save memory: ".to_owned(), d),
            MemoryError::InvalidArguments(d) => ("invalid remember arguments: ".to_owned(), d),
        };
        push_str(&mut s, d.as_str());
        s
    }
}

/// A store of durable facts outside the conversation transcript.
pub trait MemoryStore {
    /// All remembered facts, as `(key, value)` pairs.
    fn facts(&mut self) -> Vec<(String, String)>;

    /// Whether `r` is an answer recording `key` = `value` may give (a
    /// store that promises nothing holds it of every answer).
    spec fn spec_remembers(&self, key: String, value: String, r: &Result<(), MemoryError>) -> bool;

    /// Records `key` = `value`, replacing any existing value for `key`.
    fn remember(&mut self, key: String, value: String) -> (r: Result<(), MemoryError>)
        ensures
            old(self).spec_remembers(key, value, &r),
    ;
}

/// Why reading the environment failed.
#[derive(Debug, Clone, PartialEq)]
pub enum EnvironmentError {
    VarNotSet(String, String),
    CurrentDirUnavailable(String),
}

impl EnvironmentError {
    pub open spec fn spec_message(self) -> Seq<char> {
        match self {
            EnvironmentError::VarNotSet(k, d) => "environment variable "@ + k@ + " is not set: "@ + d@,
            EnvironmentError::CurrentDirUnavailable(d) => "current directory unavailable: "@ + d@,
        }
    }

    /// The error's display text.
    pub fn message(&self) -> (s: String)
        ensures
            s@ == self.spec_message(),
    {
        match self {
            EnvironmentError::VarNotSet(k, d) => {
                let mut s = "environment variable ".to_owned();
                push_str(&mut s, k.as_str());
                push_str(&mut s, " is not set: ");
                push_str(&mut s, d.as_str());
                s
            },
            EnvironmentError::CurrentDirUnavailable(d) => {
                let mut s = "current directory unavailable: ".to_owned();
                push_str(&mut s, d.as_str());
                s
            },
        }
    }
}

/// Process-level environment state.
pub trait Environment {
    fn var(&self, key: &str) -> Result<String, EnvironmentError>;

    fn current_dir(&self) -> Result<String, EnvironmentError>;
}

/// Why running a process failed.
#[derive(Debug, Clone, PartialEq)]
pub enum ProcessError {
    ProcessFailed(String),
    InvalidArguments(String),
    /// Timed out after this long and was killed.
    Timeout(std::time::Duration),
}

/// Spawns programs with a timeout.
pub trait Process {
    fn system_description(&self) -> &'static str;

    fn spawn(&mut self, program: &str, args: &[&str], timeout: std::time::Duration) -> Result<String, ProcessError>;
}

/// What the agent is told about the computer it runs commands on.
#[derive(Debug, Clone)]
pub struct ComputerContext {
    pub system: String,
    pub username: String,
    pub home_dir: String,
    pub desktop_dir: String,
    pub current_dir: String,
}

/// Why a computer operation failed.
#[derive(Debug, Clone, PartialEq)]
pub enum ComputerError {
    CommandFailed(String),
    Environment(EnvironmentError),
}

impl ComputerError {
    /// The error's display text.
    pub fn message(&self) -> (s: String)
        ensures
            s@ == match self {
                ComputerError::CommandFailed(d) => "command failed: "@ + d@,
                ComputerError::Environment(e) => "environment error: "@ + e.spec_message(),
            },
    {
        match self {
            ComputerError::CommandFailed(d) => {
                let mut s = "command failed: ".to_owned();
                push_str(&mut s, d.as_str());
                s
            },
            ComputerError::Environment(e) => {
                let mut s = "environment error: ".to_owned();
                let m = e.message();
                push_str(&mut s, m.as_str());
                s
            },
        }
    }
}

/// The computer commands run on.
pub trait Computer {
    /// Describes the operating system to the model.
    fn system_description(&self) -> &'static str;

    /// Describes the shell commands run through.
    fn process_description(&self) -> &'static str;

    /// Whether `r` is a result running `command` with `timeout` may give
    /// (a computer that promises nothing holds it of every result).
    spec fn spec_executes(&self, command: &str, timeout: std::time::Duration, r: &Result<String, ComputerError>) -> bool;

    fn execute_command(&mut self, command: &str, timeout: std::time::Duration) -> (r: Result<String, ComputerError>)
        ensures
            old(self).spec_executes(command, timeout, &r),
    ;

    /// Whether `r` is a context reading this computer may give.
    spec fn spec_context(&self, r: &Result<String, ComputerError>) -> bool;

    /// The computer's context (system, user, directories) as the text shown
    /// to the model.
    fn get_context(&mut self) -> (r: Result<String, ComputerError>)
        ensures
            old(self).spec_context(&r),
    ;
}

/// Why speaking failed.
#[derive(Debug, Clone, PartialEq)]
pub enum SpeechError {
    Backend(String),
    /// The backend cannot be reached at all.
    Unavailable(String),
    /// The backend refused or botched this request.
    Synthesis(String),
    /// Audio was produced but could not be played.
    Playback(String),
    /// The backend's own configuration is invalid.
    Configuration(String),
}

impl SpeechError {
    /// The error's display text.
    pub fn message(&self) -> (s: String)
        ensures
            s@ == match self {
                SpeechError::Backend(d) => "TTS backend failed: "@ + d@,
                SpeechError::Unavailable(d) => "TTS backend unavailable: "@ + d@,
                SpeechError::Synthesis(d) => "TTS synthesis failed: "@ + d@,
                SpeechError::Playback(d) => "TTS playback failed: "@ + d@,
                SpeechError::Configuration(d) => "TTS configuration invalid: "@ + d@,
            },
    {
        let (mut s, d) = match self {
            SpeechError::Backend(d) => ("TTS backend failed: ".to_owned(), d),
            SpeechError::Unavailable(d) => ("TTS backend unavailable: ".to_owned(), d),
            SpeechError::Synthesis(d) => ("TTS synthesis failed: ".to_owned(), d),
            SpeechError::Playback(d) => ("TTS playback failed: ".to_owned(), d),
            SpeechError::Configuration(d) => ("TTS configuration invalid: ".to_owned(), d),
        };
        push_str(&mut s, d.as_str());
        s
    }
}

pub trait Speech {
    fn say(&self, text: &str) -> Result<(), SpeechError>;
}

/// Whether the current turn should stop at the next step boundary.
pub trait CancelSignal {
    /// Whether the signal may report `cancelled` (a signal that is set
    /// reports only `true`; one that is never set only `false`).
    spec fn spec_may_report(&self, cancelled: bool) -> bool;

    fn is_cancelled(&self) -> (r: bool)
        ensures
            self.spec_may_report(r),
    ;
}

/// Never cancelled.
pub struct NeverCancelled;

impl CancelSignal for NeverCancelled {
    open spec fn spec_may_report(&self, cancelled: bool) -> bool {
        !cancelled
    }

    fn is_cancelled(&self) -> (r: bool)
        ensures
            !r,
    {
        false
    }
}

/// Time as the agent loop sees it, for timeouts and retry backoff.
pub trait Clock {
    /// Whether the clock has been asked to sleep for `duration`.
    spec fn spec_slept(&self, duration: std::time::Duration) -> bool;

    fn now(&self) -> std::time::Instant;

    /// Blocks for `duration`.
    fn sleep(&self, duration: std::time::Duration)
        ensures
            self.spec_slept(duration),
    ;
}

/// A local calendar date and time.
#[derive(Debug, Clone, Copy, PartialEq, Eq)]
pub struct LocalDateTime {
    pub year: i32,
    /// 1 to 12.
    pub month: u32,
    /// 1 to 31.
    pub day: u32,
    /// 0 to 23.
    pub hour: u32,
    /// 0 to 59.
    pub minute: u32,
}

/// Wall-clock, calendar time.
pub trait WallClock {
    fn now_local(&self) -> LocalDateTime;
}

/// The model.
pub trait Llm {
    /// Whether `r` is a reply the model may give to `messages` with `tools`
    /// offered (a model that promises nothing holds it of every reply).
    spec fn spec_generates(&self, messages: &[Message], tools: &[&ToolDefinition], r: &Result<LlmResponse, LlmError>) -> bool;

    fn generate(&mut self, messages: &[Message], tools: &[&ToolDefinition]) -> (r: Result<LlmResponse, LlmError>)
        ensures
            old(self).spec_generates(messages, tools, &r),
    ;
}

/// Runs the tool calls of a turn and reads the computer context shown to
/// the model.
pub trait ToolDispatcher {
    /// Whether `r` is a result this dispatcher may give for `tool_call` (a
    /// dispatcher that promises nothing holds it of every result).
    spec fn spec_dispatches(&self, tool_call: ToolCall, r: &Result<ToolOutcome, ToolDispatcherError>) -> bool;

    /// Whether `r` is a context reading this dispatcher may give.
    spec fn spec_context(&self, r: &Result<String, ToolDispatcherError>) -> bool;

    fn dispatch(&mut self, tool_call: ToolCall) -> (r: Result<ToolOutcome, ToolDispatcherError>)
        ensures
            old(self).spec_dispatches(tool_call, &r),
    ;

    fn get_context(&mut self) -> (r: Result<String, ToolDispatcherError>)
        ensures
            old(self).spec_context(&r),
    ;
}

/// What happened when an autonomous event was offered to the queue.
#[derive(Debug, Clone, Copy, PartialEq, Eq)]
pub enum PublishOutcome {
    Accepted,
    /// An equivalent event is already waiting.
    Duplicate,
    /// The queue is at capacity.
    Dropped,
}

/// Runs a prompt through the agent loop on behalf of an autonomous event.
pub trait AutonomousAgent {
    /// Whether `r` is an answer the agent may give to `prompt`.
    spec fn spec_responds(&self, prompt: &str, r: &Result<String, String>) -> bool;

    fn respond_to(&mut self, prompt: &str) -> (r: Result<String, String>)
        ensures
            old(self).spec_responds(prompt, &r),
    ;
}

} // verus!
