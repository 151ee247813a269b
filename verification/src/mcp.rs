//! MCP servers as tool providers: the client port, and the toolsets that
//! publish a server's tools (optionally narrowed to an allowlist) and route
//! calls to it.
use vstd::prelude::*;
use crate::json::{parse_json, json_accepts, json_error_message, json_parsed, empty_object};
use crate::llm::ToolDefinition;
use crate::text::{push_str, str_eq};

verus! {

/// One tool an MCP server reports.
#[derive(Debug, Clone)]
pub struct McpToolInfo {
    pub name: String,
    pub description: String,
    pub parameters: serde_json::Value,
}

/// What an MCP tool call returned: text plus any images, in server order.
#[derive(Debug, Clone, Default, PartialEq)]
pub struct McpToolResult {
    pub text: String,
    pub images: Vec<String>,
}

#[derive(Debug, Clone, PartialEq)]
pub enum McpError {
    Transport(String),
    Protocol(String),
    ToolFailed(String),
}

impl McpError {
    /// The error's display text.
    pub fn message(&self) -> (s: String)
        ensures
            s@ == match self {
                McpError::Transport(d) => "transport error: "@ + d@,
                McpError::Protocol(d) => "protocol error: "@ + d@,
                McpError::ToolFailed(d) => "tool call failed: "@ + d@,
            },
    {
        let (mut s, d) = match self {
            McpError::Transport(d) => ("transport error: ".to_owned(), d),
            McpError::Protocol(d) => ("protocol error: ".to_owned(), d),
            McpError::ToolFailed(d) => ("tool call failed: ".to_owned(), d),
        };
        push_str(&mut s, d.as_str());
        s
    }
}

/// A connection to one MCP server.
pub trait McpClient {
    /// Whether `r` is a reply the server may give to a call of `name` with
    /// `arguments` (a client that promises nothing holds it of every reply).
    spec fn spec_calls(&self, name: &str, arguments: serde_json::Value, r: &Result<McpToolResult, McpError>) -> bool;

    fn list_tools(&mut self) -> Result<Vec<McpToolInfo>, McpError>;

    fn call_tool(&mut self, name: &str, arguments: serde_json::Value) -> (r: Result<McpToolResult, McpError>)
        ensures
            old(self).spec_calls(name, arguments, &r),
    ;
}

/// A client that is never connected: it lists no tools and fails every call.
#[derive(Debug, Default)]
pub struct NoMcpClient;

impl McpClient for NoMcpClient {
    /// Every call fails as not connected.
    open spec fn spec_calls(&self, name: &str, arguments: serde_json::Value, r: &Result<McpToolResult, McpError>) -> bool {
        r matches Err(McpError::Transport(m)) && m@ == "NoMcpClient is never connected"@
    }

    fn list_tools(&mut self) -> (r: Result<Vec<McpToolInfo>, McpError>)
        ensures
            r matches Ok(tools) && tools@.len() == 0,
    {
        Ok(Vec::new())
    }

    fn call_tool(&mut self, name: &str, arguments: serde_json::Value) -> (r: Result<McpToolResult, McpError>)
        ensures
            r matches Err(McpError::Transport(m)) && m@ == "NoMcpClient is never connected"@,
    {
        Err(McpError::Transport("NoMcpClient is never connected".to_owned()))
    }
}

/// Whether `name` is listed in `allowed`.
pub open spec fn listed(allowed: Seq<Seq<char>>, name: Seq<char>) -> bool {
    allowed.contains(name)
}

fn is_listed(allowed: &[&str], name: &str) -> (r: bool)
    ensures
        r == listed(strs_view(allowed@), name@),
{
    let mut i: usize = 0;
    while i < allowed.len()
        invariant
            i <= allowed@.len(),
            forall|k: int| 0 <= k < i ==> (#[trigger] allowed@[k])@ != name@,
        decreases allowed@.len() - i,
    {
        if str_eq(allowed[i], name) {
            assert(strs_view(allowed@)[i as int] == name@);
            return true;
        }
        i = i + 1;
    }
    false
}

/// An optional allowlist, as a sequence.
pub open spec fn allow_view(allowed: Option<&[&str]>) -> Option<Seq<Seq<char>>> {
    match allowed {
        Some(a) => Some(strs_view(a@)),
        None => None,
    }
}

/// The characters of each string.
pub open spec fn strs_view(a: Seq<&str>) -> Seq<Seq<char>> {
    a.map_values(|x: &str| x@)
}

/// The names that survive an optional allowlist, in server order.
pub open spec fn kept_names(tools: Seq<McpToolInfo>, allowed: Option<Seq<Seq<char>>>) -> Seq<Seq<char>>
    decreases tools.len(),
{
    if tools.len() == 0 {
        Seq::empty()
    } else {
        let rest = kept_names(tools.drop_last(), allowed);
        let n = tools.last().name@;
        match allowed {
            Some(a) => if listed(a, n) {
                rest.push(n)
            } else {
                rest
            },
            None => rest.push(n),
        }
    }
}

fn definitions_from(tools: Vec<McpToolInfo>, allowed: Option<&[&str]>) -> (defs: Vec<ToolDefinition>)
    ensures
        defs@.map_values(|d: ToolDefinition| d.name@) == kept_names(
            tools@,
            allow_view(allowed),
        ),
{
    let ghost al = allow_view(allowed);
    let mut defs: Vec<ToolDefinition> = Vec::new();
    let mut i: usize = 0;
    while i < tools.len()
        invariant
            i <= tools@.len(),
            al == allow_view(allowed),
            defs@.map_values(|d: ToolDefinition| d.name@) == kept_names(
                tools@.subrange(0, i as int),
                al,
            ),
        decreases tools@.len() - i,
    {
        let tool = &tools[i];
        let keep = match allowed {
            Some(a) => is_listed(a, tool.name.as_str()),
            None => true,
        };
        let ghost before = defs@;
        proof {
            let p = tools@.subrange(0, i + 1);
            assert(p.drop_last() == tools@.subrange(0, i as int));
            assert(p.last() == tools@[i as int]);
        }
        if keep {
            defs.push(
                ToolDefinition {
                    name: tool.name.clone(),
                    description: tool.description.clone(),
                    parameters: tool.parameters.clone(),
                },
            );
            assert(defs@.map_values(|d: ToolDefinition| d.name@) == before.map_values(
                |d: ToolDefinition| d.name@,
            ).push(tool.name@));
        }
        i = i + 1;
    }
    assert(tools@.subrange(0, tools@.len() as int) == tools@);
    defs
}

/// A dynamically discovered set of MCP tools, optionally narrowed to an
/// allowlist; one toolset per connected server.
pub struct McpToolset<M: McpClient> {
    client: M,
    definitions: Vec<ToolDefinition>,
}

impl<M: McpClient> McpToolset<M> {
    /// The names of the published tools, in server order.
    pub closed spec fn spec_names(&self) -> Seq<Seq<char>> {
        self.definitions@.map_values(|d: ToolDefinition| d.name@)
    }

    pub open spec fn spec_handles(&self, name: Seq<char>) -> bool {
        self.spec_names().contains(name)
    }

    /// The connection calls go through.
    pub closed spec fn spec_client(&self) -> M {
        self.client
    }

    /// Lists the server's tools and keeps those on `allowed` (all of them
    /// when `allowed` is `None`). A listing failure is returned as is.
    pub fn connect(client: M, allowed: Option<&[&str]>) -> (r: Result<Self, McpError>)
        ensures
            r matches Ok(t) ==> exists|tools: Seq<McpToolInfo>|
                t.spec_names() == #[trigger] kept_names(
                    tools,
                    allow_view(allowed),
                ),
    {
        let mut client = client;
        let tools = match client.list_tools() {
            Ok(tools) => tools,
            Err(e) => return Err(e),
        };
        Ok(Self::with_tools(client, tools, allowed))
    }

    /// A toolset over `client` publishing the listed `tools` that survive
    /// the allowlist, in listing order.
    pub fn with_tools(client: M, tools: Vec<McpToolInfo>, allowed: Option<&[&str]>) -> (t: Self)
        ensures
            t.spec_client() == client,
            t.spec_names() == kept_names(
                tools@,
                allow_view(allowed),
            ),
    {
        let definitions = definitions_from(tools, allowed);
        McpToolset { client, definitions }
    }

    pub fn definitions(&self) -> (d: &[ToolDefinition])
        ensures
            d@.map_values(|x: ToolDefinition| x.name@) == self.spec_names(),
    {
        self.definitions.as_slice()
    }

    pub fn handles(&self, name: &str) -> (r: bool)
        ensures
            r == self.spec_handles(name@),
    {
        let mut i: usize = 0;
        while i < self.definitions.len()
            invariant
                i <= self.definitions@.len(),
                forall|k: int| 0 <= k < i ==> self.spec_names()[k] != name@,
            decreases self.definitions@.len() - i,
        {
            if str_eq(self.definitions[i].name.as_str(), name) {
                assert(self.spec_names()[i as int] == name@);
                return true;
            }
            i = i + 1;
        }
        false
    }

    /// Parses `arguments` as JSON and forwards the call to the server. Bad
    /// JSON is a `Protocol` error carrying the parser's message.
    pub fn call(&mut self, name: &str, arguments: &str) -> (r: Result<McpToolResult, McpError>)
        ensures
            !json_accepts(arguments@) ==> (r matches Err(McpError::Protocol(m)) && m@
                == json_error_message(arguments@)),
            json_accepts(arguments@) ==> old(self).spec_client().spec_calls(name, json_parsed(arguments@)->Ok_0, &r),
            final(self).spec_names() == old(self).spec_names(),
    {
        let value = match parse_json(arguments) {
            Ok(v) => v,
            Err(m) => return Err(McpError::Protocol(m)),
        };
        self.client.call_tool(name, value)
    }

    /// The client, to inspect what was sent to it.
    pub fn client(&self) -> (r: &M)
        ensures
            *r == self.spec_client(),
    {
        &self.client
    }
}

/// The tools a computer-use MCP server is allowed to publish by default.
pub fn default_allowlist() -> (v: Vec<&'static str>)
    ensures
        strs_view(v@) == seq![
            "screenshot"@,
            "left_click"@,
            "double_click"@,
            "type"@,
            "key"@,
            "scroll"@,
            "get_display_size"@,
            "list_windows"@,
        ],
{
    vec![
        "screenshot",
        "left_click",
        "double_click",
        "type",
        "key",
        "scroll",
        "get_display_size",
        "list_windows",
    ]
}

/// The allowlisted tools that change what is on screen.
pub open spec fn spec_is_mutating(name: Seq<char>) -> bool {
    name == "left_click"@ || name == "double_click"@ || name == "type"@ || name == "key"@ || name
        == "scroll"@
}

/// The text appended to a mutating action's result when a verification
/// screenshot was attached.
pub open spec fn verification_note() -> Seq<char> {
    "\n\n[Auto-verification screenshot attached — check it before answering.]"@
}

/// `r` is `result` with the verification screenshot `shot` attached: on a
/// successful screenshot its images appended and a note added to the text;
/// a failed screenshot leaves the result as it was.
pub open spec fn verification_attached(result: McpToolResult, shot: Result<McpToolResult, McpError>, r: McpToolResult) -> bool {
    match shot {
        Ok(v) => r.text@ == result.text@ + verification_note() && r.images@ == result.images@ + v.images@,
        Err(_) => r == result,
    }
}

/// A mutating action's result with its verification screenshot attached:
/// on a successful screenshot its images are appended and a note added to
/// the text; a failed screenshot leaves the result as it was.
pub fn attach_verification(result: McpToolResult, shot: Result<McpToolResult, McpError>) -> (r:
    McpToolResult)
    ensures
        match shot {
            Ok(v) => r.text@ == result.text@ + verification_note() && r.images@ == result.images@
                + v.images@,
            Err(_) => r == result,
        },
{
    match shot {
        Ok(verification) => {
            let mut images = result.images;
            let mut extra = verification.images;
            let ghost a = images@;
            let ghost b = extra@;
            images.append(&mut extra);
            let mut text = result.text;
            push_str(
                &mut text,
                "\n\n[Auto-verification screenshot attached — check it before answering.]",
            );
            McpToolResult { text, images }
        },
        Err(_) => result,
    }
}

/// A computer-use MCP server's tools, narrowed to an allowlist. Every
/// mutating action gets a screenshot of its effect attached.
pub struct ComputerUseToolset<M: McpClient> {
    client: M,
    allowed: Vec<String>,
    definitions: Vec<ToolDefinition>,
}

impl<M: McpClient> ComputerUseToolset<M> {
    pub closed spec fn spec_allowed(&self) -> Seq<Seq<char>> {
        self.allowed@.map_values(|a: String| a@)
    }

    pub open spec fn spec_handles(&self, name: Seq<char>) -> bool {
        self.spec_allowed().contains(name)
    }

    /// The connection calls go through.
    pub closed spec fn spec_client(&self) -> M {
        self.client
    }

    pub closed spec fn spec_names(&self) -> Seq<Seq<char>> {
        self.definitions@.map_values(|d: ToolDefinition| d.name@)
    }

    pub fn connect(client: M, allowed: &[&str]) -> (r: Result<Self, McpError>)
        ensures
            r matches Ok(t) ==> {
                &&& t.spec_allowed() == strs_view(allowed@)
                &&& exists|tools: Seq<McpToolInfo>| t.spec_names() == #[trigger] kept_names(tools, Some(strs_view(allowed@)))
            },
    {
        let mut client = client;
        let mut names: Vec<String> = Vec::new();
        let mut i: usize = 0;
        while i < allowed.len()
            invariant
                i <= allowed@.len(),
                names@.map_values(|a: String| a@) == allowed@.subrange(0, i as int).map_values(
                    |a: &str| a@,
                ),
            decreases allowed@.len() - i,
        {
            let ghost before = names@;
            names.push(allowed[i].to_owned());
            assert(names@.map_values(|a: String| a@) == before.map_values(|a: String| a@).push(
                allowed@[i as int]@,
            ));
            assert(allowed@.subrange(0, i + 1).map_values(|a: &str| a@) == allowed@.subrange(
                0,
                i as int,
            ).map_values(|a: &str| a@).push(allowed@[i as int]@));
            i = i + 1;
        }
        assert(allowed@.subrange(0, allowed@.len() as int) == allowed@);
        let tools = match client.list_tools() {
            Ok(tools) => tools,
            Err(e) => return Err(e),
        };
        let definitions = definitions_from(tools, Some(allowed));
        Ok(ComputerUseToolset { client, allowed: names, definitions })
    }

    pub fn definitions(&self) -> (d: &[ToolDefinition])
        ensures
            d@.map_values(|x: ToolDefinition| x.name@) == self.spec_names(),
    {
        self.definitions.as_slice()
    }

    pub fn handles(&self, name: &str) -> (r: bool)
        ensures
            r == self.spec_handles(name@),
    {
        let mut i: usize = 0;
        while i < self.allowed.len()
            invariant
                i <= self.allowed@.len(),
                forall|k: int| 0 <= k < i ==> self.spec_allowed()[k] != name@,
            decreases self.allowed@.len() - i,
        {
            if str_eq(self.allowed[i].as_str(), name) {
                assert(self.spec_allowed()[i as int] == name@);
                return true;
            }
            i = i + 1;
        }
        false
    }

    pub fn is_mutating(name: &str) -> (r: bool)
        ensures
            r == spec_is_mutating(name@),
    {
        str_eq(name, "left_click") || str_eq(name, "double_click") || str_eq(name, "type")
            || str_eq(name, "key") || str_eq(name, "scroll")
    }

    /// Runs `name` with `arguments` (JSON). When the action is mutating and
    /// `screenshot` is allowed, a screenshot is taken afterwards and, if
    /// that succeeds, its images are appended and a note added to the text;
    /// a failed screenshot leaves the action's own result untouched.
    pub fn call(&mut self, name: &str, arguments: &str) -> (r: Result<McpToolResult, McpError>)
        ensures
            !json_accepts(arguments@) ==> (r matches Err(McpError::Protocol(m)) && m@
                == json_error_message(arguments@)),
            json_accepts(arguments@) ==> exists|first: Result<McpToolResult, McpError>|
                #[trigger] old(self).spec_client().spec_calls(name, json_parsed(arguments@)->Ok_0, &first) && match first {
                    Err(e) => r == Err::<McpToolResult, McpError>(e),
                    Ok(x) => if spec_is_mutating(name@) && old(self).spec_handles("screenshot"@) {
                        r matches Ok(y) && exists|c: M, n: &str, v: serde_json::Value, shot: Result<McpToolResult, McpError>|
                            #[trigger] c.spec_calls(n, v, &shot) && n@ == "screenshot"@ && verification_attached(x, shot, y)
                    } else {
                        r == Ok::<McpToolResult, McpError>(x)
                    },
                },
            final(self).spec_allowed() == old(self).spec_allowed(),
    {
        let value = match parse_json(arguments) {
            Ok(v) => v,
            Err(m) => return Err(McpError::Protocol(m)),
        };
        let ghost value_sent = value;
        let first = self.client.call_tool(name, value);
        let ghost first_reply = first;
        assert(old(self).spec_client().spec_calls(name, json_parsed(arguments@)->Ok_0, &first_reply));
        let mut result = match first {
            Ok(r) => r,
            Err(e) => return Err(e),
        };
        proof {
            reveal_strlit("screenshot");
        }
        if Self::is_mutating(name) && self.handles("screenshot") {
            let ghost client_mid = self.client;
            let ghost before = result;
            let shot_name = "screenshot";
            let no_arguments = empty_object();
            let ghost shot_arguments = no_arguments;
            let shot = self.client.call_tool(shot_name, no_arguments);
            assert(client_mid.spec_calls(shot_name, shot_arguments, &shot));
            let ghost shot_reply = shot;
            result = attach_verification(result, shot);
            assert(verification_attached(before, shot_reply, result));
        }
        Ok(result)
    }

    /// The client, to inspect what was sent to it.
    pub fn client(&self) -> (r: &M)
        ensures
            *r == self.spec_client(),
    {
        &self.client
    }
}

} // verus!
