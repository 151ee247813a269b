//! The model-facing data types: tool calls, token usage, a model turn, the
//! messages a prompt is made of, tool definitions and tool outcomes.
use vstd::prelude::*;

verus! {

/// One tool invocation requested by the model.
#[derive(Debug, Clone, PartialEq)]
pub struct ToolCall {
    pub name: String,
    pub arguments: String,
}

impl ToolCall {
    /// Two calls are the same request when both name and arguments match.
    pub open spec fn same_as(self, other: ToolCall) -> bool {
        self.name@ == other.name@ && self.arguments@ == other.arguments@
    }

    pub fn is_same_as(&self, other: &ToolCall) -> (r: bool)
        ensures
            r == self.same_as(*other),
            r == (self.name@ == other.name@ && self.arguments@ == other.arguments@),
    {
        self.name == other.name && self.arguments == other.arguments
    }

    pub fn duplicate(&self) -> (r: ToolCall)
        ensures
            r == *self,
    {
        ToolCall { name: self.name.clone(), arguments: self.arguments.clone() }
    }
}

/// Why a call to the model failed.
#[derive(Debug, Clone, PartialEq)]
pub enum LlmError {
    RequestFailed(String),
    InvalidResponse(String),
}

/// Whether an `LlmError` is worth trying again: a failed request (network
/// hiccup, non-2xx status) is; a response that did not parse is not.
pub fn is_retryable(error: &LlmError) -> (r: bool)
    ensures
        r == (error is RequestFailed),
{
    match error {
        LlmError::RequestFailed(_) => true,
        LlmError::InvalidResponse(_) => false,
    }
}

impl LlmError {
    pub open spec fn spec_message(self) -> Seq<char> {
        match self {
            LlmError::RequestFailed(d) => "request failed: "@ + d@,
            LlmError::InvalidResponse(d) => "invalid response: "@ + d@,
        }
    }

    /// The error's display text.
    pub fn message(&self) -> (s: String)
        ensures
            s@ == self.spec_message(),
    {
        match self {
            LlmError::RequestFailed(d) => {
                let mut s = "request failed: ".to_owned();
                crate::text::push_str(&mut s, d.as_str());
                s
            },
            LlmError::InvalidResponse(d) => {
                let mut s = "invalid response: ".to_owned();
                crate::text::push_str(&mut s, d.as_str());
                s
            },
        }
    }
}

/// Token accounting for one completed model call; `None` means the backend
/// did not report that count.
#[derive(Debug, Clone, Copy, Default, PartialEq, Eq)]
pub struct Usage {
    pub prompt_tokens: Option<u32>,
    pub completion_tokens: Option<u32>,
}

impl Usage {
    /// `prompt_tokens + completion_tokens`, or `None` if either is unknown.
    pub fn total_tokens(&self) -> (r: Option<u32>)
        requires
            self.prompt_tokens is Some && self.completion_tokens is Some ==> self.prompt_tokens->0
                + self.completion_tokens->0 <= u32::MAX,
        ensures
            r == match (self.prompt_tokens, self.completion_tokens) {
                (Some(p), Some(c)) => Some((p + c) as u32),
                _ => None,
            },
    {
        match (self.prompt_tokens, self.completion_tokens) {
            (Some(p), Some(c)) => Some(p + c),
            _ => None,
        }
    }
}

/// One model turn: optional text, any number of tool calls, and usage.
#[derive(Debug, Clone, Default)]
pub struct LlmResponse {
    pub text: Option<String>,
    pub tool_calls: Vec<ToolCall>,
    pub usage: Usage,
}

impl LlmResponse {
    pub fn text(text: String) -> (r: LlmResponse)
        ensures
            r.text == Some(text),
            r.tool_calls@.len() == 0,
            r.usage == (Usage { prompt_tokens: None, completion_tokens: None }),
    {
        LlmResponse {
            text: Some(text),
            tool_calls: Vec::new(),
            usage: Usage { prompt_tokens: None, completion_tokens: None },
        }
    }

    pub fn tool_call(tool_call: ToolCall) -> (r: LlmResponse)
        ensures
            r.text is None,
            r.tool_calls@ == seq![tool_call],
            r.usage == (Usage { prompt_tokens: None, completion_tokens: None }),
    {
        let mut tool_calls = Vec::new();
        tool_calls.push(tool_call);
        LlmResponse {
            text: None,
            tool_calls,
            usage: Usage { prompt_tokens: None, completion_tokens: None },
        }
    }

    pub fn tool_calls(tool_calls: Vec<ToolCall>) -> (r: LlmResponse)
        ensures
            r.text is None,
            r.tool_calls == tool_calls,
            r.usage == (Usage { prompt_tokens: None, completion_tokens: None }),
    {
        LlmResponse {
            text: None,
            tool_calls,
            usage: Usage { prompt_tokens: None, completion_tokens: None },
        }
    }

    /// A response can end the turn only with no pending tool calls and
    /// non-blank text.
    pub open spec fn spec_is_final_answer(self) -> bool {
        self.tool_calls@.len() == 0 && self.text is Some && !crate::text::is_blank_seq(
            self.text->0@,
        )
    }

    pub fn is_final_answer(&self) -> (r: bool)
        ensures
            r == self.spec_is_final_answer(),
    {
        if self.tool_calls.len() != 0 {
            return false;
        }
        match &self.text {
            Some(text) => !crate::text::is_blank(text.as_str()),
            None => false,
        }
    }
}

/// One message of a prompt.
#[derive(Debug, Clone)]
pub struct Message {
    pub role: String,
    pub content: String,
    pub tool_calls: Option<Vec<ToolCall>>,
    /// Set only on `tool` messages, naming the tool that produced it.
    pub tool_name: Option<String>,
    /// Base64-encoded images attached to this message.
    pub images: Vec<String>,
}

/// `a` and `b` hold the same role, content, tool calls, tool name and images.
pub open spec fn same_message(a: Message, b: Message) -> bool {
    &&& a.role == b.role
    &&& a.content == b.content
    &&& a.tool_name == b.tool_name
    &&& a.images@ == b.images@
    &&& match (a.tool_calls, b.tool_calls) {
        (Some(x), Some(y)) => x@ == y@,
        (None, None) => true,
        _ => false,
    }
}

impl Message {
    /// A field-by-field copy.
    pub fn duplicate(&self) -> (r: Message)
        ensures
            same_message(r, *self),
    {
        let tool_calls = match &self.tool_calls {
            Some(calls) => {
                let mut v: Vec<ToolCall> = Vec::new();
                let mut i: usize = 0;
                while i < calls.len()
                    invariant
                        i <= calls@.len(),
                        v@ == calls@.subrange(0, i as int),
                    decreases calls@.len() - i,
                {
                    v.push(calls[i].duplicate());
                    assert(calls@.subrange(0, i + 1) == calls@.subrange(0, i as int).push(calls@[i as int]));
                    i = i + 1;
                }
                assert(calls@.subrange(0, calls@.len() as int) == calls@);
                assert(v@ == calls@);
                Some(v)
            },
            None => None,
        };
        let images = self.images.clone();
        assert(images@ =~= self.images@);
        let r = Message {
            role: self.role.clone(),
            content: self.content.clone(),
            tool_calls,
            tool_name: match &self.tool_name {
                Some(n) => Some(n.clone()),
                None => None,
            },
            images,
        };
        r
    }
}

/// Field-by-field copies of `messages`, in order.
pub fn copy_messages(messages: &[Message]) -> (r: Vec<Message>)
    ensures
        r@.len() == messages@.len(),
        forall|i: int| 0 <= i < r@.len() ==> same_message(#[trigger] r@[i], messages@[i]),
{
    let mut r: Vec<Message> = Vec::new();
    let mut i: usize = 0;
    while i < messages.len()
        invariant
            i <= messages@.len(),
            r@.len() == i,
            forall|k: int| 0 <= k < i ==> same_message(#[trigger] r@[k], messages@[k]),
        decreases messages@.len() - i,
    {
        r.push(messages[i].duplicate());
        i = i + 1;
    }
    r
}

/// A tool as published to the model.
#[derive(Debug, Clone)]
pub struct ToolDefinition {
    pub name: String,
    pub description: String,
    pub parameters: serde_json::Value,
}

impl ToolDefinition {
    /// A field-by-field copy.
    pub fn duplicate(&self) -> (r: ToolDefinition)
        ensures
            r == *self,
    {
        ToolDefinition {
            name: self.name.clone(),
            description: self.description.clone(),
            parameters: self.parameters.clone(),
        }
    }
}

/// What running a tool produced.
#[derive(Debug, Clone, Default, PartialEq)]
pub struct ToolOutcome {
    pub text: String,
    pub images: Vec<String>,
    /// Whether the call changed some external state.
    pub mutated: bool,
}

impl ToolOutcome {
    /// A text-only, non-mutating outcome.
    pub fn from_text(text: String) -> (r: ToolOutcome)
        ensures
            r.text == text,
            r.images@.len() == 0,
            !r.mutated,
    {
        ToolOutcome { text, images: Vec::new(), mutated: false }
    }
}

pub open spec fn plain_message(role: Seq<char>, content: Seq<char>, m: Message) -> bool {
    &&& m.role@ == role
    &&& m.content@ == content
    &&& m.tool_calls is None
    &&& m.tool_name is None
    &&& m.images@.len() == 0
}

pub fn system_message(content: String) -> (m: Message)
    ensures
        plain_message("system"@, content@, m),
{
    Message {
        role: "system".to_owned(),
        content,
        tool_calls: None,
        tool_name: None,
        images: Vec::new(),
    }
}

pub fn user_message(content: &str) -> (m: Message)
    ensures
        plain_message("user"@, content@, m),
{
    Message {
        role: "user".to_owned(),
        content: content.to_owned(),
        tool_calls: None,
        tool_name: None,
        images: Vec::new(),
    }
}

pub fn assistant_text_message(content: String) -> (m: Message)
    ensures
        plain_message("assistant"@, content@, m),
{
    Message {
        role: "assistant".to_owned(),
        content,
        tool_calls: None,
        tool_name: None,
        images: Vec::new(),
    }
}

pub fn assistant_tool_call_message(tool_call: ToolCall) -> (m: Message)
    ensures
        m.role@ == "assistant"@,
        m.content@.len() == 0,
        m.tool_calls is Some,
        m.tool_calls->0@ == seq![tool_call],
        m.tool_name is None,
        m.images@.len() == 0,
{
    let mut calls = Vec::new();
    calls.push(tool_call);
    Message {
        role: "assistant".to_owned(),
        content: String::new(),
        tool_calls: Some(calls),
        tool_name: None,
        images: Vec::new(),
    }
}

pub fn tool_result_message(tool_name: String, outcome: ToolOutcome) -> (m: Message)
    ensures
        m.role@ == "tool"@,
        m.content == outcome.text,
        m.tool_calls is None,
        m.tool_name == Some(tool_name),
        m.images == outcome.images,
{
    Message {
        role: "tool".to_owned(),
        content: outcome.text,
        tool_calls: None,
        tool_name: Some(tool_name),
        images: outcome.images,
    }
}

/// Two tool calls are the same request exactly when both their names and
/// their arguments are equal: a call with other arguments is another
/// request, even to the same tool.
pub proof fn same_request_needs_same_name_and_arguments(a: ToolCall, b: ToolCall)
    ensures
        a.same_as(b) == (a.name@ == b.name@ && a.arguments@ == b.arguments@),
        a.arguments@ != b.arguments@ ==> !a.same_as(b),
        a.name@ != b.name@ ==> !a.same_as(b),
{
}

} // verus!
