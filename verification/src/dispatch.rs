//! Routing a tool call to whatever handles it: a connected device first
//! (by its prefixed name, or by a bare capability name exactly one device
//! publishes), then the registered tools in registration order — a native
//! tool by name, or the first MCP toolset that publishes the name.
use vstd::prelude::*;
use crate::device::{DeviceRegistry, DeviceToolset, RemoteDevice, is_device_reply, device_answer, capability_names};
use crate::llm::{ToolCall, ToolDefinition, ToolOutcome};
use crate::mcp::{McpClient, McpError, McpToolResult, McpToolset};
use crate::json::{json_accepts, json_error_message, json_parsed};
use crate::text::{push_str, str_eq};

verus! {

/// Why a tool call could not be dispatched or run.
#[derive(Debug, Clone, PartialEq)]
pub enum ToolDispatcherError {
    ToolNotFound,
    ToolErrorParsingArguments(String),
    ToolExecuteError(String),
}

impl ToolDispatcherError {
    pub open spec fn spec_message(self) -> Seq<char> {
        match self {
            ToolDispatcherError::ToolNotFound => "tool not found"@,
            ToolDispatcherError::ToolErrorParsingArguments(d) => "failed to parse tool call arguments: "@ + d@,
            ToolDispatcherError::ToolExecuteError(d) => "tool execution failed: "@ + d@,
        }
    }

    /// The error's display text.
    pub fn message(&self) -> (s: String)
        ensures
            s@ == self.spec_message(),
    {
        match self {
            ToolDispatcherError::ToolNotFound => "tool not found".to_owned(),
            ToolDispatcherError::ToolErrorParsingArguments(d) => {
                let mut s = "failed to parse tool call arguments: ".to_owned();
                push_str(&mut s, d.as_str());
                s
            },
            ToolDispatcherError::ToolExecuteError(d) => {
                let mut s = "tool execution failed: ".to_owned();
                push_str(&mut s, d.as_str());
                s
            },
        }
    }
}

/// A tool that runs in-process: it parses its own JSON arguments and runs.
pub trait NativeTool {
    /// Whether `r` is an answer this tool may give when run with
    /// `arguments` (an implementation that promises nothing holds it of
    /// every answer).
    spec fn spec_answers(&self, arguments: &str, r: &Result<ToolOutcome, ToolDispatcherError>) -> bool;

    fn run(&mut self, arguments: &str) -> (r: Result<ToolOutcome, ToolDispatcherError>)
        ensures
            old(self).spec_answers(arguments, &r),
    ;

    /// The computer context this tool can read (only meaningful for tools
    /// registered as providing one).
    fn context(&mut self) -> Result<String, ToolDispatcherError>;
}

/// One registered entry of the dispatcher.
pub enum Tools<N, M: McpClient, R: RemoteDevice> {
    /// A native tool under its name; `provides_context` marks the tool whose
    /// context `get_context` reports.
    Native { name: String, provides_context: bool, tool: N },
    /// One toolset per connected MCP server.
    Mcp(Vec<McpToolset<M>>),
    /// One toolset per connected device.
    Devices(Vec<DeviceToolset<R>>),
}

/// Where a tool call goes.
pub enum Route {
    Device { slot: int, toolset: int },
    Native { slot: int },
    Mcp { slot: int, toolset: int },
    NotFound,
}

/// The first `Devices` entry at or after `i`.
pub open spec fn first_devices_slot<N, M: McpClient, R: RemoteDevice>(
    tools: Seq<Tools<N, M, R>>,
    i: int,
) -> Option<int>
    decreases tools.len() - i,
{
    if i < 0 || i >= tools.len() {
        None
    } else if tools[i] is Devices {
        Some(i)
    } else {
        first_devices_slot(tools, i + 1)
    }
}

/// The first device toolset at or after `i` that handles `name` by its prefixed name.
pub open spec fn first_prefixed<R: RemoteDevice>(ts: Seq<DeviceToolset<R>>, name: Seq<char>, i: int) -> Option<int>
    decreases ts.len() - i,
{
    if i < 0 || i >= ts.len() {
        None
    } else if ts[i].spec_handles(name) {
        Some(i)
    } else {
        first_prefixed(ts, name, i + 1)
    }
}

/// The positions, among the first `n` device toolsets, of those publishing `name` bare.
pub open spec fn bare_indices<R: RemoteDevice>(ts: Seq<DeviceToolset<R>>, name: Seq<char>, n: int) -> Seq<int>
    decreases n,
{
    if n <= 0 {
        Seq::empty()
    } else if ts[n - 1].spec_handles_bare(name) {
        bare_indices(ts, name, n - 1).push(n - 1)
    } else {
        bare_indices(ts, name, n - 1)
    }
}

/// The device toolset (within the first `Devices` entry) that a call named
/// `name` reaches, if any: the first one handling the prefixed name, else
/// the only one publishing the bare name.
pub open spec fn device_choice<R: RemoteDevice>(ts: Seq<DeviceToolset<R>>, name: Seq<char>) -> Option<int> {
    match first_prefixed(ts, name, 0) {
        Some(t) => Some(t),
        None => {
            let b = bare_indices(ts, name, ts.len() as int);
            if b.len() == 1 {
                Some(b[0])
            } else {
                None
            }
        },
    }
}

/// The first MCP toolset at or after `i` publishing `name`.
pub open spec fn first_mcp<M: McpClient>(ts: Seq<McpToolset<M>>, name: Seq<char>, i: int) -> Option<int>
    decreases ts.len() - i,
{
    if i < 0 || i >= ts.len() {
        None
    } else if ts[i].spec_handles(name) {
        Some(i)
    } else {
        first_mcp(ts, name, i + 1)
    }
}

/// Where the registered entries from `i` on send a call named `name`,
/// skipping device entries.
pub open spec fn registered_route<N, M: McpClient, R: RemoteDevice>(
    tools: Seq<Tools<N, M, R>>,
    name: Seq<char>,
    i: int,
) -> Route
    decreases tools.len() - i,
{
    if i < 0 || i >= tools.len() {
        Route::NotFound
    } else {
        match tools[i] {
            Tools::Native { name: n, .. } => if n@ == name {
                Route::Native { slot: i }
            } else {
                registered_route(tools, name, i + 1)
            },
            Tools::Mcp(ts) => match first_mcp(ts@, name, 0) {
                Some(t) => Route::Mcp { slot: i, toolset: t },
                None => registered_route(tools, name, i + 1),
            },
            Tools::Devices(_) => registered_route(tools, name, i + 1),
        }
    }
}

/// Where a call named `name` goes: a connected device when one is chosen,
/// otherwise the registered entries in order.
pub open spec fn route<N, M: McpClient, R: RemoteDevice>(tools: Seq<Tools<N, M, R>>, name: Seq<char>) -> Route {
    match first_devices_slot(tools, 0) {
        Some(d) => match device_choice(tools[d]->Devices_0@, name) {
            Some(t) => Route::Device { slot: d, toolset: t },
            None => registered_route(tools, name, 0),
        },
        None => registered_route(tools, name, 0),
    }
}

/// The entries other than `Devices` ones, in order.
pub open spec fn registered_entries<N, M: McpClient, R: RemoteDevice>(s: Seq<Tools<N, M, R>>) -> Seq<Tools<N, M, R>>
    decreases s.len(),
{
    if s.len() == 0 {
        s
    } else if s.last() is Devices {
        registered_entries(s.drop_last())
    } else {
        registered_entries(s.drop_last()).push(s.last())
    }
}

/// The names a toolset publishes and how a device toolset routes.
pub open spec fn same_device_toolset<R: RemoteDevice>(a: DeviceToolset<R>, b: DeviceToolset<R>) -> bool {
    a.spec_device_name() == b.spec_device_name() && a.spec_capabilities() == b.spec_capabilities()
}

/// `a` and `b` route calls identically: same kind, same names.
pub open spec fn same_shape<N, M: McpClient, R: RemoteDevice>(a: Tools<N, M, R>, b: Tools<N, M, R>) -> bool {
    match (a, b) {
        (Tools::Native { name: n1, provides_context: c1, .. }, Tools::Native { name: n2, provides_context: c2, .. }) =>
            n1@ == n2@ && c1 == c2,
        (Tools::Mcp(t1), Tools::Mcp(t2)) => t1@.len() == t2@.len() && forall|k: int|
            0 <= k < t1@.len() ==> #[trigger] t1@[k].spec_names() == t2@[k].spec_names(),
        (Tools::Devices(t1), Tools::Devices(t2)) => t1@.len() == t2@.len() && forall|k: int|
            0 <= k < t1@.len() ==> same_device_toolset(#[trigger] t1@[k], t2@[k]),
        _ => false,
    }
}

/// The outcome an MCP result becomes: its text and images, never marked as
/// mutating; an MCP error becomes an execution error with its message.
pub fn mcp_outcome(res: Result<McpToolResult, McpError>) -> (r: Result<ToolOutcome, ToolDispatcherError>)
    ensures
        mcp_result_outcome(res, r),
{
    match res {
        Ok(x) => Ok(ToolOutcome { text: x.text, images: x.images, mutated: false }),
        Err(e) => Err(ToolDispatcherError::ToolExecuteError(e.message())),
    }
}

/// `r` is what `mcp_outcome` makes of the server's reply `res`.
pub open spec fn mcp_result_outcome(res: Result<McpToolResult, McpError>, r: Result<ToolOutcome, ToolDispatcherError>) -> bool {
    match res {
        Ok(x) => r == Ok::<ToolOutcome, ToolDispatcherError>(ToolOutcome { text: x.text, images: x.images, mutated: false }),
        Err(e) => r matches Err(ToolDispatcherError::ToolExecuteError(m)) && m@ == match e {
            McpError::Transport(d) => "transport error: "@ + d@,
            McpError::Protocol(d) => "protocol error: "@ + d@,
            McpError::ToolFailed(d) => "tool call failed: "@ + d@,
        },
    }
}

/// For well-formed JSON `arguments`, `r` is a reply the toolset's server
/// may give to `name` with those arguments, as `mcp_outcome` maps it.
pub open spec fn mcp_answer<M: McpClient>(t: McpToolset<M>, name: Seq<char>, arguments: Seq<char>, r: Result<ToolOutcome, ToolDispatcherError>) -> bool {
    json_accepts(arguments) ==> exists|n: &str, res: Result<McpToolResult, McpError>|
        n@ == name && #[trigger] t.spec_client().spec_calls(n, json_parsed(arguments)->Ok_0, &res) && mcp_result_outcome(res, r)
}

/// Every entry but `slot` is untouched, and `slot` still routes the same way.
pub open spec fn frame_except<N, M: McpClient, R: RemoteDevice>(
    old: Seq<Tools<N, M, R>>,
    new: Seq<Tools<N, M, R>>,
    slot: int,
) -> bool {
    &&& new.len() == old.len()
    &&& 0 <= slot < old.len()
    &&& forall|j: int| 0 <= j < old.len() && j != slot ==> new[j] == old[j]
    &&& same_shape(new[slot], old[slot])
}

/// The prefixed tool names one device toolset publishes.
pub open spec fn toolset_tool_names<R: RemoteDevice>(t: DeviceToolset<R>) -> Seq<Seq<char>> {
    t.spec_capabilities().map_values(|c: Seq<char>| crate::device::prefixed(t.spec_device_name(), c))
}

/// The prefixed tool names of several device toolsets, in order.
pub open spec fn toolsets_tool_names<R: RemoteDevice>(ts: Seq<DeviceToolset<R>>) -> Seq<Seq<char>>
    decreases ts.len(),
{
    if ts.len() == 0 {
        Seq::empty()
    } else {
        toolsets_tool_names(ts.drop_last()) + toolset_tool_names(ts.last())
    }
}

/// The tool names every connected device publishes, entry by entry.
pub open spec fn device_tool_names<N, M: McpClient, R: RemoteDevice>(es: Seq<Tools<N, M, R>>) -> Seq<Seq<char>>
    decreases es.len(),
{
    if es.len() == 0 {
        Seq::empty()
    } else {
        device_tool_names(es.drop_last()) + match es.last() {
            Tools::Devices(ts) => toolsets_tool_names(ts@),
            _ => Seq::empty(),
        }
    }
}

/// The first native entry at or after `i` registered as providing context.
pub open spec fn first_context_slot<N, M: McpClient, R: RemoteDevice>(es: Seq<Tools<N, M, R>>, i: int) -> Option<int>
    decreases es.len() - i,
{
    if i < 0 || i >= es.len() {
        None
    } else if es[i] matches Tools::Native { provides_context: true, .. } {
        Some(i)
    } else {
        first_context_slot(es, i + 1)
    }
}

fn find_devices_slot<N, M: McpClient, R: RemoteDevice>(tools: &Vec<Tools<N, M, R>>) -> (r: Option<usize>)
    ensures
        r matches Some(d) ==> first_devices_slot(tools@, 0) == Some(d as int) && d < tools@.len()
            && tools@[d as int] is Devices,
        r is None ==> first_devices_slot(tools@, 0) is None,
{
    let mut i: usize = 0;
    while i < tools.len()
        invariant
            i <= tools@.len(),
            first_devices_slot(tools@, 0) == first_devices_slot(tools@, i as int),
        decreases tools@.len() - i,
    {
        match &tools[i] {
            Tools::Devices(_) => return Some(i),
            _ => {},
        }
        i = i + 1;
    }
    None
}

fn find_prefixed<R: RemoteDevice>(ts: &Vec<DeviceToolset<R>>, name: &str) -> (r: Option<usize>)
    ensures
        r matches Some(t) ==> first_prefixed(ts@, name@, 0) == Some(t as int) && t < ts@.len(),
        r is None ==> first_prefixed(ts@, name@, 0) is None,
{
    let mut i: usize = 0;
    while i < ts.len()
        invariant
            i <= ts@.len(),
            first_prefixed(ts@, name@, 0) == first_prefixed(ts@, name@, i as int),
        decreases ts@.len() - i,
    {
        if ts[i].handles(name) {
            return Some(i);
        }
        i = i + 1;
    }
    None
}

fn find_bare<R: RemoteDevice>(ts: &Vec<DeviceToolset<R>>, name: &str) -> (r: Vec<usize>)
    ensures
        r@.map_values(|x: usize| x as int) == bare_indices(ts@, name@, ts@.len() as int),
        forall|k: int| 0 <= k < r@.len() ==> #[trigger] r@[k] < ts@.len(),
{
    let mut r: Vec<usize> = Vec::new();
    let mut i: usize = 0;
    while i < ts.len()
        invariant
            i <= ts@.len(),
            r@.map_values(|x: usize| x as int) == bare_indices(ts@, name@, i as int),
            forall|k: int| 0 <= k < r@.len() ==> #[trigger] r@[k] < i,
        decreases ts@.len() - i,
    {
        let ghost before = r@;
        if ts[i].handles_bare(name) {
            r.push(i);
            assert(r@.map_values(|x: usize| x as int) == before.map_values(|x: usize| x as int).push(i as int));
        }
        i = i + 1;
    }
    r
}

fn find_mcp<M: McpClient>(ts: &Vec<McpToolset<M>>, name: &str) -> (r: Option<usize>)
    ensures
        r matches Some(t) ==> first_mcp(ts@, name@, 0) == Some(t as int) && t < ts@.len(),
        r is None ==> first_mcp(ts@, name@, 0) is None,
{
    let mut i: usize = 0;
    while i < ts.len()
        invariant
            i <= ts@.len(),
            first_mcp(ts@, name@, 0) == first_mcp(ts@, name@, i as int),
        decreases ts@.len() - i,
    {
        if ts[i].handles(name) {
            return Some(i);
        }
        i = i + 1;
    }
    None
}

/// Runs tool calls against the registered tools and connected devices.
pub struct ToolDispatcher<N: NativeTool, M: McpClient, R: RemoteDevice> {
    tools: Vec<Tools<N, M, R>>,
}

/// `new` is `old` with every `Devices` entry replaced by one built from
/// `devices` (none when `devices` is empty), the other entries kept in
/// order.
pub open spec fn synced_with<N, M: McpClient, R: RemoteDevice>(
    old: Seq<Tools<N, M, R>>,
    devices: Seq<R>,
    new: Seq<Tools<N, M, R>>,
) -> bool {
    let kept = registered_entries(old);
    if devices.len() == 0 {
        new == kept
    } else {
        &&& new.len() == kept.len() + 1
        &&& new.subrange(0, kept.len() as int) == kept
        &&& new.last() matches Tools::Devices(ts)
            && ts@.len() == devices.len()
            && forall|k: int| 0 <= k < ts@.len() ==> (#[trigger] ts@[k]).device() == devices[k]
                && ts@[k].spec_device_name() == devices[k].spec_name()@
                && ts@[k].spec_capabilities() == capability_names(devices[k].spec_capabilities()@)
    }
}

impl<N: NativeTool, M: McpClient, R: RemoteDevice> ToolDispatcher<N, M, R> {
    /// The registered entries, in registration order.
    pub closed spec fn entries(&self) -> Seq<Tools<N, M, R>> {
        self.tools@
    }

    pub fn new() -> (r: Self)
        ensures
            r.entries().len() == 0,
    {
        ToolDispatcher { tools: Vec::new() }
    }

    /// Appends an entry; earlier entries keep precedence.
    pub fn register(&mut self, tool: Tools<N, M, R>)
        ensures
            final(self).entries() == old(self).entries().push(tool),
    {
        self.tools.push(tool);
    }

    /// Replaces every `Devices` entry with one built from `devices` (none
    /// when `devices` is empty), keeping the other entries in order.
    pub fn sync_devices(&mut self, devices: Vec<R>)
        ensures
            synced_with(old(self).entries(), devices@, final(self).entries()),
    {
        let ghost old_tools = self.tools@;
        let mut kept: Vec<Tools<N, M, R>> = Vec::new();
        let mut rest = Vec::new();
        std::mem::swap(&mut rest, &mut self.tools);
        for t in it: rest.into_iter()
            invariant
                it.seq() == old_tools,
                kept@ == registered_entries(old_tools.subrange(0, it.index() as int)),
        {
            proof {
                let k0 = it.index() as int;
                assert(t == old_tools[k0]);
                assert(old_tools.subrange(0, k0 + 1).drop_last() == old_tools.subrange(0, k0));
            }
            let is_dev = match &t {
                Tools::Devices(_) => true,
                _ => false,
            };
            if !is_dev {
                kept.push(t);
            }
        }
        assert(old_tools.subrange(0, old_tools.len() as int) == old_tools);
        self.tools = kept;
        let ghost kept_v = self.tools@;
        if devices.len() > 0 {
            let mut toolsets: Vec<DeviceToolset<R>> = Vec::new();
            let ghost dv = devices@;
            for d in it: devices.into_iter()
                invariant
                    it.seq() == dv,
                    toolsets@.len() == it.index(),
                    forall|k: int| 0 <= k < toolsets@.len() ==> (#[trigger] toolsets@[k]).device() == dv[k]
                        && toolsets@[k].spec_device_name() == dv[k].spec_name()@
                        && toolsets@[k].spec_capabilities() == capability_names(dv[k].spec_capabilities()@),
            {
                toolsets.push(DeviceToolset::new(d));
            }
            self.tools.push(Tools::Devices(toolsets));
            assert(self.tools@.subrange(0, kept_v.len() as int) =~= kept_v);
        }
    }
}

impl<N: NativeTool, M: McpClient, R: RemoteDevice> ToolDispatcher<N, M, R> {
    /// Sends `call` to the connected device chosen for it, if any.
    fn dispatch_to_device(&mut self, call: &ToolCall) -> (r: Option<ToolOutcome>)
        ensures
            match first_devices_slot(old(self).entries(), 0) {
                Some(d) => match device_choice(old(self).entries()[d]->Devices_0@, call.name@) {
                    Some(t) => (r matches Some(o) && is_device_reply(o)
                        && device_answer(old(self).entries()[d]->Devices_0@[t], call.name@, call.arguments@, o))
                        && frame_except(old(self).entries(), final(self).entries(), d),
                    None => r is None && final(self).entries() == old(self).entries(),
                },
                None => r is None && final(self).entries() == old(self).entries(),
            },
    {
        let d = match find_devices_slot(&self.tools) {
            Some(d) => d,
            None => return None,
        };
        let ghost old_tools = self.tools@;
        let slot = self.tools.remove(d);
        match slot {
            Tools::Devices(mut ts) => {
                let name = call.name.as_str();
                assert(ts@ == old_tools[d as int]->Devices_0@);
                let choice = match find_prefixed(&ts, name) {
                    Some(t) => Some(t),
                    None => {
                        let b = find_bare(&ts, name);
                        if b.len() == 1 {
                            assert(b@.map_values(|x: usize| x as int)[0] == b@[0] as int);
                            assert(b@.map_values(|x: usize| x as int).len() == 1);
                            Some(b[0])
                        } else {
                            None
                        }
                    },
                };
                assert(match choice {
                    Some(t) => device_choice(ts@, call.name@) == Some(t as int) && t < ts@.len(),
                    None => device_choice(ts@, call.name@) is None,
                });
                match choice {
                    Some(t) => {
                        let ghost old_ts = ts@;
                        let mut toolset = ts.remove(t);
                        let outcome = toolset.call(name, call.arguments.as_str());
                        ts.insert(t, toolset);
                        proof {
                            assert forall|k: int| 0 <= k < ts@.len() implies same_device_toolset(#[trigger] ts@[k], old_ts[k]) by {
                                if k != t {
                                    assert(ts@[k] == old_ts[k]);
                                }
                            }
                        }
                        let ghost new_ts = ts@;
                        self.tools.insert(d, Tools::Devices(ts));
                        proof {
                            assert(self.tools@[d as int] matches Tools::Devices(x) && x@ == new_ts);
                            assert(same_shape(self.tools@[d as int], old_tools[d as int]));
                        }
                        Some(outcome)
                    },
                    None => {
                        self.tools.insert(d, Tools::Devices(ts));
                        assert(self.tools@ =~= old_tools);
                        None
                    },
                }
            },
            other => {
                self.tools.insert(d, other);
                assert(self.tools@ =~= old_tools);
                None
            },
        }
    }

    fn run_native(&mut self, slot: usize, arguments: &str) -> (r: Result<ToolOutcome, ToolDispatcherError>)
        requires
            slot < old(self).entries().len(),
            old(self).entries()[slot as int] is Native,
        ensures
            frame_except(old(self).entries(), final(self).entries(), slot as int),
            old(self).entries()[slot as int] matches Tools::Native { tool, .. } && tool.spec_answers(arguments, &r),
    {
        let ghost old_tools = self.tools@;
        let entry = self.tools.remove(slot);
        match entry {
            Tools::Native { name, provides_context, mut tool } => {
                let r = tool.run(arguments);
                self.tools.insert(slot, Tools::Native { name, provides_context, tool });
                r
            },
            other => {
                self.tools.insert(slot, other);
                assert(self.tools@ =~= old_tools);
                Err(ToolDispatcherError::ToolNotFound)
            },
        }
    }

    fn run_mcp(&mut self, slot: usize, t: usize, name: &str, arguments: &str) -> (r: Result<ToolOutcome, ToolDispatcherError>)
        requires
            slot < old(self).entries().len(),
            old(self).entries()[slot as int] matches Tools::Mcp(ts) && t < ts@.len(),
        ensures
            frame_except(old(self).entries(), final(self).entries(), slot as int),
            !json_accepts(arguments@) ==> (r matches Err(ToolDispatcherError::ToolExecuteError(m))
                && m@ == "protocol error: "@ + json_error_message(arguments@)),
            r matches Ok(o) ==> !o.mutated,
            mcp_answer(old(self).entries()[slot as int]->Mcp_0@[t as int], name@, arguments@, r),
    {
        let ghost old_tools = self.tools@;
        let entry = self.tools.remove(slot);
        match entry {
            Tools::Mcp(mut ts) => {
                let ghost old_ts = ts@;
                let mut toolset = ts.remove(t);
                let ghost toolset_before = toolset;
                let res = toolset.call(name, arguments);
                let ghost reply = res;
                proof {
                    if json_accepts(arguments@) {
                        assert(toolset_before.spec_client().spec_calls(name, json_parsed(arguments@)->Ok_0, &reply));
                    }
                }
                ts.insert(t, toolset);
                proof {
                    assert forall|k: int| 0 <= k < ts@.len() implies #[trigger] ts@[k].spec_names() == old_ts[k].spec_names() by {
                        if k != t {
                            assert(ts@[k] == old_ts[k]);
                        }
                    }
                }
                self.tools.insert(slot, Tools::Mcp(ts));
                mcp_outcome(res)
            },
            other => {
                self.tools.insert(slot, other);
                assert(self.tools@ =~= old_tools);
                Err(ToolDispatcherError::ToolNotFound)
            },
        }
    }

    /// Runs `call` wherever `route` sends it. A device reply is always an
    /// outcome; an MCP result keeps its text and images and is never marked
    /// as mutating; a native tool's result is returned as it came; an
    /// unknown name is `ToolNotFound`. Only the entry that ran changes.
    pub fn dispatch(&mut self, call: ToolCall) -> (r: Result<ToolOutcome, ToolDispatcherError>)
        ensures
            match route(old(self).entries(), call.name@) {
                Route::NotFound => r == Err::<ToolOutcome, ToolDispatcherError>(ToolDispatcherError::ToolNotFound)
                    && final(self).entries() == old(self).entries(),
                Route::Device { slot, toolset } => frame_except(old(self).entries(), final(self).entries(), slot)
                    && (r matches Ok(o) && is_device_reply(o)
                        && device_answer(old(self).entries()[slot]->Devices_0@[toolset], call.name@, call.arguments@, o)),
                Route::Native { slot } => frame_except(old(self).entries(), final(self).entries(), slot)
                    && (old(self).entries()[slot] matches Tools::Native { tool, .. }
                        && exists|a: &str| a@ == call.arguments@ && #[trigger] tool.spec_answers(a, &r)),
                Route::Mcp { slot, toolset } => frame_except(old(self).entries(), final(self).entries(), slot)
                    && (!json_accepts(call.arguments@) ==> (r matches Err(ToolDispatcherError::ToolExecuteError(m))
                        && m@ == "protocol error: "@ + json_error_message(call.arguments@)))
                    && (r matches Ok(o) ==> !o.mutated)
                    && mcp_answer(old(self).entries()[slot]->Mcp_0@[toolset], call.name@, call.arguments@, r),
            },
    {
        match self.dispatch_to_device(&call) {
            Some(outcome) => return Ok(outcome),
            None => {},
        }
        let name = call.name.as_str();
        let ghost target = route(old(self).entries(), call.name@);
        assert(target == registered_route(self.tools@, call.name@, 0));
        let mut i: usize = 0;
        while i < self.tools.len()
            invariant
                i <= self.tools@.len(),
                self.tools@ == old(self).tools@,
                name@ == call.name@,
                target == route(old(self).entries(), call.name@),
                target == registered_route(self.tools@, call.name@, i as int),
            decreases self.tools@.len() - i,
        {
            let mut kind: u8 = 0;
            let mut mcp_t: usize = 0;
            match &self.tools[i] {
                Tools::Native { name: n, .. } => {
                    if str_eq(n.as_str(), name) {
                        kind = 1;
                    } else {
                        assert(registered_route(self.tools@, call.name@, i as int) == registered_route(self.tools@, call.name@, i + 1));
                    }
                },
                Tools::Mcp(ts) => match find_mcp(ts, name) {
                    Some(t) => {
                        kind = 2;
                        mcp_t = t;
                    },
                    None => {
                        assert(registered_route(self.tools@, call.name@, i as int) == registered_route(self.tools@, call.name@, i + 1));
                    },
                },
                Tools::Devices(_) => {
                    assert(registered_route(self.tools@, call.name@, i as int) == registered_route(self.tools@, call.name@, i + 1));
                },
            }
            proof {
                if kind == 0 {
                    assert(registered_route(self.tools@, call.name@, i as int) == registered_route(self.tools@, call.name@, i + 1));
                }
            }
            if kind == 1 {
                assert(registered_route(self.tools@, call.name@, i as int) == Route::Native { slot: i as int });
                return self.run_native(i, call.arguments.as_str());
            }
            if kind == 2 {
                assert(registered_route(self.tools@, call.name@, i as int) == Route::Mcp { slot: i as int, toolset: mcp_t as int });
                return self.run_mcp(i, mcp_t, name, call.arguments.as_str());
            }
            i = i + 1;
        }
        Err(ToolDispatcherError::ToolNotFound)
    }

    /// The context reported by the first native tool registered as
    /// providing one; `ToolNotFound` when there is none.
    pub fn get_context(&mut self) -> (r: Result<String, ToolDispatcherError>)
        ensures
            match first_context_slot(old(self).entries(), 0) {
                Some(slot) => frame_except(old(self).entries(), final(self).entries(), slot),
                None => r == Err::<String, ToolDispatcherError>(ToolDispatcherError::ToolNotFound)
                    && final(self).entries() == old(self).entries(),
            },
    {
        let mut i: usize = 0;
        while i < self.tools.len()
            invariant
                i <= self.tools@.len(),
                self.tools@ == old(self).tools@,
                first_context_slot(self.tools@, 0) == first_context_slot(self.tools@, i as int),
            decreases self.tools@.len() - i,
        {
            let provides = match &self.tools[i] {
                Tools::Native { provides_context, .. } => *provides_context,
                _ => false,
            };
            if provides {
                let ghost old_tools = self.tools@;
                let entry = self.tools.remove(i);
                match entry {
                    Tools::Native { name, provides_context, mut tool } => {
                        let r = tool.context();
                        self.tools.insert(i, Tools::Native { name, provides_context, tool });
                        return r;
                    },
                    other => {
                        self.tools.insert(i, other);
                        assert(self.tools@ =~= old_tools);
                        return Err(ToolDispatcherError::ToolNotFound);
                    },
                }
            }
            i = i + 1;
        }
        Err(ToolDispatcherError::ToolNotFound)
    }

    /// Every connected device's capabilities as prefixed tool definitions.
    pub fn device_tools(&self) -> (defs: Vec<ToolDefinition>)
        ensures
            defs@.map_values(|d: ToolDefinition| d.name@) == device_tool_names(self.entries()),
    {
        let mut defs: Vec<ToolDefinition> = Vec::new();
        let mut i: usize = 0;
        while i < self.tools.len()
            invariant
                i <= self.tools@.len(),
                defs@.map_values(|d: ToolDefinition| d.name@) == device_tool_names(self.tools@.subrange(0, i as int)),
            decreases self.tools@.len() - i,
        {
            proof {
                let p = self.tools@.subrange(0, i + 1);
                assert(p.drop_last() == self.tools@.subrange(0, i as int));
                assert(p.last() == self.tools@[i as int]);
            }
            match &self.tools[i] {
                Tools::Devices(ts) => {
                    let ghost base = defs@.map_values(|d: ToolDefinition| d.name@);
                    let mut k: usize = 0;
                    while k < ts.len()
                        invariant
                            k <= ts@.len(),
                            defs@.map_values(|d: ToolDefinition| d.name@) == base + toolsets_tool_names(ts@.subrange(0, k as int)),
                        decreases ts@.len() - k,
                    {
                        let ghost before = defs@;
                        let mut more = ts[k].definitions();
                        let ghost m = more@;
                        defs.append(&mut more);
                        proof {
                            let q = ts@.subrange(0, k + 1);
                            assert(q.drop_last() == ts@.subrange(0, k as int));
                            assert(q.last() == ts@[k as int]);
                            assert(m.map_values(|d: ToolDefinition| d.name@) =~= toolset_tool_names(ts@[k as int]));
                            assert(defs@.map_values(|d: ToolDefinition| d.name@) =~= before.map_values(|d: ToolDefinition| d.name@) + m.map_values(|d: ToolDefinition| d.name@));
                        }
                        k = k + 1;
                    }
                    assert(ts@.subrange(0, ts@.len() as int) == ts@);
                },
                _ => {},
            }
            i = i + 1;
        }
        assert(self.tools@.subrange(0, self.tools@.len() as int) == self.tools@);
        defs
    }
}

/// A prefixed name (`<device>_<capability>`) reaches the first connected
/// device that publishes it, whatever the registered tools are called.
pub proof fn prefixed_name_reaches_device<N, M: McpClient, R: RemoteDevice>(
    tools: Seq<Tools<N, M, R>>,
    name: Seq<char>,
    d: int,
    t: int,
)
    requires
        first_devices_slot(tools, 0) == Some(d),
        first_prefixed(tools[d]->Devices_0@, name, 0) == Some(t),
    ensures
        route(tools, name) == (Route::Device { slot: d, toolset: t }),
{
}

/// A bare capability name that exactly one connected device publishes
/// reaches that device, even when a registered tool has the same name.
pub proof fn bare_name_reaches_its_only_device<N, M: McpClient, R: RemoteDevice>(
    tools: Seq<Tools<N, M, R>>,
    name: Seq<char>,
    d: int,
    t: int,
)
    requires
        first_devices_slot(tools, 0) == Some(d),
        first_prefixed(tools[d]->Devices_0@, name, 0) is None,
        bare_indices(tools[d]->Devices_0@, name, tools[d]->Devices_0@.len() as int) == seq![t],
    ensures
        route(tools, name) == (Route::Device { slot: d, toolset: t }),
{
}

/// A bare name published by several devices, or by none, goes to the
/// registered tools: an ambiguous name never picks a device at random.
pub proof fn unclaimed_bare_name_falls_back<N, M: McpClient, R: RemoteDevice>(
    tools: Seq<Tools<N, M, R>>,
    name: Seq<char>,
    d: int,
)
    requires
        first_devices_slot(tools, 0) == Some(d),
        first_prefixed(tools[d]->Devices_0@, name, 0) is None,
        bare_indices(tools[d]->Devices_0@, name, tools[d]->Devices_0@.len() as int).len() != 1,
    ensures
        route(tools, name) == registered_route(tools, name, 0),
{
}

/// With no device connected, the registered tools alone decide, in
/// registration order.
pub proof fn without_devices_registered_tools_decide<N, M: McpClient, R: RemoteDevice>(
    tools: Seq<Tools<N, M, R>>,
    name: Seq<char>,
)
    requires
        first_devices_slot(tools, 0) is None,
    ensures
        route(tools, name) == registered_route(tools, name, 0),
{
}

impl<N: NativeTool, M: McpClient, R: RemoteDevice + Clone> ToolDispatcher<N, M, R> {
    /// Picks up the devices registered in `devices` right now, in place of
    /// any picked up before, then runs `call` wherever it routes.
    pub fn dispatch_with_devices(&mut self, devices: &DeviceRegistry<R>, call: ToolCall) -> (r: Result<ToolOutcome, ToolDispatcherError>)
        requires
            devices.wf(),
        ensures
            exists|snapshot: Seq<R>, synced: Seq<Tools<N, M, R>>|
                #![trigger synced_with(old(self).entries(), snapshot, synced)]
                snapshot.len() == devices.order().len()
                    && (forall|i: int| 0 <= i < snapshot.len() ==> cloned(devices.order()[i], #[trigger] snapshot[i]))
                    && synced_with(old(self).entries(), snapshot, synced)
                    && dispatch_answer(synced, call, r),
    {
        let snapshot = devices.snapshot();
        let ghost taken = snapshot@;
        self.sync_devices(snapshot);
        let ghost synced = self.entries();
        let r = self.dispatch(call);
        assert(synced_with(old(self).entries(), taken, synced));
        assert(dispatch_answer(synced, call, r));
        r
    }
}

/// What `dispatch` answers `call` with, given the registered entries.
pub open spec fn dispatch_answer<N: NativeTool, M: McpClient, R: RemoteDevice>(
    entries: Seq<Tools<N, M, R>>,
    call: ToolCall,
    r: Result<ToolOutcome, ToolDispatcherError>,
) -> bool {
    match route(entries, call.name@) {
        Route::NotFound => r == Err::<ToolOutcome, ToolDispatcherError>(ToolDispatcherError::ToolNotFound),
        Route::Device { slot, toolset } => r matches Ok(o) && is_device_reply(o)
            && device_answer(entries[slot]->Devices_0@[toolset], call.name@, call.arguments@, o),
        Route::Native { slot } => entries[slot] matches Tools::Native { tool, .. }
            && exists|a: &str| a@ == call.arguments@ && #[trigger] tool.spec_answers(a, &r),
        Route::Mcp { slot, toolset } => (!json_accepts(call.arguments@) ==> (r matches Err(ToolDispatcherError::ToolExecuteError(m))
            && m@ == "protocol error: "@ + json_error_message(call.arguments@)))
            && (r matches Ok(o) ==> !o.mutated)
            && mcp_answer(entries[slot]->Mcp_0@[toolset], call.name@, call.arguments@, r),
    }
}

impl<N: NativeTool, M: McpClient, R: RemoteDevice> crate::ports::ToolDispatcher for ToolDispatcher<N, M, R> {
    /// The answer `route` leads to for the registered entries.
    open spec fn spec_dispatches(&self, tool_call: ToolCall, r: &Result<ToolOutcome, ToolDispatcherError>) -> bool {
        dispatch_answer(self.entries(), tool_call, *r)
    }

    /// `ToolNotFound` when no native tool provides a context; whatever
    /// that tool reads otherwise.
    open spec fn spec_context(&self, r: &Result<String, ToolDispatcherError>) -> bool {
        first_context_slot(self.entries(), 0) is None ==> *r == Err::<String, ToolDispatcherError>(ToolDispatcherError::ToolNotFound)
    }

    /// Runs the call wherever `route` sends it, as the inherent `dispatch`.
    fn dispatch(&mut self, tool_call: ToolCall) -> (r: Result<ToolOutcome, ToolDispatcherError>)
        ensures
            match route(old(self).entries(), tool_call.name@) {
                Route::NotFound => r == Err::<ToolOutcome, ToolDispatcherError>(ToolDispatcherError::ToolNotFound)
                    && final(self).entries() == old(self).entries(),
                Route::Device { slot, toolset } => frame_except(old(self).entries(), final(self).entries(), slot)
                    && (r matches Ok(o) && is_device_reply(o)
                        && device_answer(old(self).entries()[slot]->Devices_0@[toolset], tool_call.name@, tool_call.arguments@, o)),
                Route::Native { slot } => frame_except(old(self).entries(), final(self).entries(), slot)
                    && (old(self).entries()[slot] matches Tools::Native { tool, .. }
                        && exists|a: &str| a@ == tool_call.arguments@ && #[trigger] tool.spec_answers(a, &r)),
                Route::Mcp { slot, toolset } => frame_except(old(self).entries(), final(self).entries(), slot)
                    && (!json_accepts(tool_call.arguments@) ==> (r matches Err(ToolDispatcherError::ToolExecuteError(m))
                        && m@ == "protocol error: "@ + json_error_message(tool_call.arguments@)))
                    && (r matches Ok(o) ==> !o.mutated)
                    && mcp_answer(old(self).entries()[slot]->Mcp_0@[toolset], tool_call.name@, tool_call.arguments@, r),
            },
    {
        ToolDispatcher::dispatch(self, tool_call)
    }

    /// The context of the first native tool registered as providing one, as
    /// the inherent `get_context`.
    fn get_context(&mut self) -> (r: Result<String, ToolDispatcherError>)
        ensures
            match first_context_slot(old(self).entries(), 0) {
                Some(slot) => frame_except(old(self).entries(), final(self).entries(), slot),
                None => r == Err::<String, ToolDispatcherError>(ToolDispatcherError::ToolNotFound)
                    && final(self).entries() == old(self).entries(),
            },
    {
        ToolDispatcher::get_context(self)
    }
}

/// An MCP server's result reaches the agent with its own text and images,
/// never counted as a change; an MCP error becomes an execution error
/// carrying the error's own text.
pub proof fn mcp_results_keep_text_and_images(res: Result<McpToolResult, McpError>, r: Result<ToolOutcome, ToolDispatcherError>)
    requires
        mcp_result_outcome(res, r),
    ensures
        res matches Ok(x) ==> (r matches Ok(o) && o.text == x.text && o.images == x.images && !o.mutated),
        res matches Err(McpError::Transport(d)) ==> (r matches Err(ToolDispatcherError::ToolExecuteError(m))
            && m@ == "transport error: "@ + d@),
        res matches Err(McpError::Protocol(d)) ==> (r matches Err(ToolDispatcherError::ToolExecuteError(m))
            && m@ == "protocol error: "@ + d@),
        res matches Err(McpError::ToolFailed(d)) ==> (r matches Err(ToolDispatcherError::ToolExecuteError(m))
            && m@ == "tool call failed: "@ + d@),
{
}

} // verus!
