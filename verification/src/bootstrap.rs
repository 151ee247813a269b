//! The decisions of wiring a session together: which MCP servers are
//! configured, and which of their tools are published to the model.
use vstd::prelude::*;
use crate::mcp::{McpClient, McpToolset};
use crate::ports::Environment;
use crate::text::{opt_view, contains_str, split_trimmed, split_whitespace, split_on, str_eq, strings_view, trim_seq, words};
use crate::tools::ToolRegistry;
use crate::turn::env_value;

verus! {

/// The model used when `NALA_MODEL` is not set.
pub const DEFAULT_MODEL: &'static str = "llama3.2";

/// Where the multi-server MCP config is read from when `NALA_MCP_CONFIG`
/// is not set.
pub const DEFAULT_MCP_CONFIG_PATH: &'static str = "mcp.json";

/// One MCP server entry of the config.
#[derive(Debug, Clone, PartialEq)]
pub struct McpServerConfig {
    pub name: String,
    pub command: String,
    pub args: Vec<String>,
    /// `None` publishes every tool the server reports; `Some` narrows it to
    /// this allowlist.
    pub tools: Option<Vec<String>>,
}

/// Whether `r` is the server the legacy variables describe when
/// `NALA_MCP`, `NALA_MCP_COMMAND` and `NALA_MCP_TOOLS` hold `flag`,
/// `command` and `tools`.
pub open spec fn is_legacy_config(
    flag: Option<Seq<char>>,
    command: Option<Seq<char>>,
    tools: Option<Seq<char>>,
    r: Option<McpServerConfig>,
) -> bool {
    let on = flag == Some("on"@);
    let ws = match command { Some(c) => words(c), None => Seq::empty() };
    if !on || command is None || ws.len() == 0 {
        r is None
    } else {
        r matches Some(cfg) && {
            &&& cfg.name@ == "legacy-env"@
            &&& cfg.command@ == ws[0]
            &&& strings_view(cfg.args@) == ws.drop_first()
            &&& match tools {
                Some(t) => cfg.tools matches Some(names)
                    && strings_view(names@) == split_on(t, ',').map_values(|p: Seq<char>| trim_seq(p)),
                None => cfg.tools is None,
            }
        }
    }
}

/// The server the legacy environment variables describe, given the values
/// of `NALA_MCP`, `NALA_MCP_COMMAND` and `NALA_MCP_TOOLS`: only when
/// `NALA_MCP` is `on` and the command has a first word. That word is the
/// program, the other words its arguments; the tools are the
/// comma-separated, trimmed names.
pub fn legacy_mcp_server(flag: Option<&str>, command: Option<&str>, tools: Option<&str>) -> (r: Option<McpServerConfig>)
    ensures
        is_legacy_config(opt_view(flag), opt_view(command), opt_view(tools), r),
{
    let on = match flag {
        Some(f) => str_eq(f, "on"),
        None => false,
    };
    if !on {
        return None;
    }
    let command = match command {
        Some(c) => c,
        None => return None,
    };
    let mut parts = split_whitespace(command);
    if parts.len() == 0 {
        return None;
    }
    let ghost ws = strings_view(parts@);
    let program = parts.remove(0);
    assert(strings_view(parts@) =~= ws.drop_first());
    let tools = match tools {
        Some(t) => Some(split_trimmed(t, ',')),
        None => None,
    };
    Some(McpServerConfig { name: "legacy-env".to_owned(), command: program, args: parts, tools })
}

/// The legacy single-server config from the environment, as
/// `legacy_mcp_server` reads it, for whatever the three variables held.
pub fn legacy_env_mcp_server<V: Environment>(env: &V) -> (r: Option<McpServerConfig>)
    ensures
        exists|flag: Option<Seq<char>>, command: Option<Seq<char>>, tools: Option<Seq<char>>|
            #[trigger] is_legacy_config(flag, command, tools, r),
{
    let flag = env_value(env, "NALA_MCP");
    let command = env_value(env, "NALA_MCP_COMMAND");
    let tools = env_value(env, "NALA_MCP_TOOLS");
    let flag = match &flag { Some(t) => Some(t.as_str()), None => None };
    let command = match &command { Some(t) => Some(t.as_str()), None => None };
    let tools = match &tools { Some(t) => Some(t.as_str()), None => None };
    let r = legacy_mcp_server(flag, command, tools);
    assert(is_legacy_config(opt_view(flag), opt_view(command), opt_view(tools), r));
    r
}

/// The tool names the toolsets publish, in order, toolset after toolset.
pub open spec fn published_names<M: McpClient>(toolsets: Seq<McpToolset<M>>) -> Seq<Seq<char>>
    decreases toolsets.len(),
{
    if toolsets.len() == 0 {
        Seq::empty()
    } else {
        published_names(toolsets.drop_last()) + toolsets.last().spec_names()
    }
}

/// The names of `names` that already occurred earlier in it, in order.
pub open spec fn repeated_names(names: Seq<Seq<char>>) -> Seq<Seq<char>>
    decreases names.len(),
{
    if names.len() == 0 {
        Seq::empty()
    } else if names.drop_last().contains(names.last()) {
        repeated_names(names.drop_last()).push(names.last())
    } else {
        repeated_names(names.drop_last())
    }
}

/// Registers every tool the MCP toolsets publish; a name published by more
/// than one server keeps the first one registered. Returns the names
/// skipped that way, in order.
pub fn register_published<M: McpClient>(registry: &mut ToolRegistry, toolsets: &Vec<McpToolset<M>>) -> (skipped: Vec<String>)
    requires
        old(registry).wf(),
    ensures
        final(registry).wf(),
        strings_view(skipped@) == repeated_names(published_names(toolsets@)),
        forall|n: Seq<char>| #[trigger] old(registry).names().contains(n) ==> final(registry).names().contains(n),
        forall|n: Seq<char>| #[trigger] published_names(toolsets@).contains(n) ==> final(registry).names().contains(n),
{
    let ghost start = registry.names();
    let mut seen: Vec<String> = Vec::new();
    let mut skipped: Vec<String> = Vec::new();
    let mut t: usize = 0;
    while t < toolsets.len()
        invariant
            t <= toolsets@.len(),
            registry.wf(),
            strings_view(seen@) == published_names(toolsets@.subrange(0, t as int)),
            strings_view(skipped@) == repeated_names(strings_view(seen@)),
            forall|n: Seq<char>| #[trigger] start.contains(n) ==> registry.names().contains(n),
            forall|n: Seq<char>| #[trigger] strings_view(seen@).contains(n) ==> registry.names().contains(n),
            start == old(registry).names(),
        decreases toolsets@.len() - t,
    {
        let defs = toolsets[t].definitions();
        let ghost names_t = toolsets@[t as int].spec_names();
        let ghost seen0 = strings_view(seen@);
        let mut d: usize = 0;
        while d < defs.len()
            invariant
                d <= defs@.len(),
                defs@.map_values(|x: crate::llm::ToolDefinition| x.name@) == names_t,
                registry.wf(),
                strings_view(seen@) == seen0 + names_t.subrange(0, d as int),
                strings_view(skipped@) == repeated_names(strings_view(seen@)),
                forall|n: Seq<char>| #[trigger] start.contains(n) ==> registry.names().contains(n),
                forall|n: Seq<char>| #[trigger] strings_view(seen@).contains(n) ==> registry.names().contains(n),
            decreases defs@.len() - d,
        {
            let name = defs[d].name.clone();
            let ghost before = strings_view(seen@);
            assert(names_t[d as int] == name@);
            let repeated = contains_str(seen.as_slice(), name.as_str());
            let ghost old_names = registry.names();
            if repeated {
                skipped.push(name.clone());
            } else {
                registry.register(defs[d].duplicate());
                proof {
                    if !old_names.contains(name@) {
                        assert(registry.names()[old_names.len() as int] == name@);
                    }
                    assert forall|n: Seq<char>| #[trigger] old_names.contains(n) implies registry.names().contains(n) by {
                        let k = choose|k: int| 0 <= k < old_names.len() && old_names[k] == n;
                        assert(registry.names()[k] == n);
                    }
                }
            }
            seen.push(name);
            proof {
                let after = strings_view(seen@);
                assert(after =~= before.push(name@));
                assert(after.drop_last() == before);
                assert(seen0 + names_t.subrange(0, d + 1) =~= before.push(name@));
                if repeated {
                    assert(strings_view(skipped@) =~= repeated_names(before).push(name@));
                    assert(before.contains(name@));
                }
                assert(registry.names().contains(name@));
                assert forall|n: Seq<char>| #[trigger] after.contains(n) implies registry.names().contains(n) by {
                    if n != name@ {
                        let k = choose|k: int| 0 <= k < after.len() && after[k] == n;
                        assert(before[k] == n);
                        assert(before.contains(n));
                        assert(old_names.contains(n));
                    }
                }
            }
            d = d + 1;
        }
        proof {
            let p = toolsets@.subrange(0, t + 1);
            assert(p.drop_last() == toolsets@.subrange(0, t as int));
            assert(names_t.subrange(0, names_t.len() as int) == names_t);
            assert(published_names(p) == published_names(toolsets@.subrange(0, t as int)) + names_t);
        }
        t = t + 1;
    }
    assert(toolsets@.subrange(0, toolsets@.len() as int) == toolsets@);
    skipped
}

/// A tool name published by several servers is registered once: every
/// copy after the first is reported as skipped, and only those, so a name
/// published once is never skipped.
pub proof fn only_later_copies_are_skipped(names: Seq<Seq<char>>, x: Seq<char>)
    ensures
        crate::metrics::occurrences(repeated_names(names), x) + (if names.contains(x) { 1nat } else { 0nat })
            == crate::metrics::occurrences(names, x),
    decreases names.len(),
{
    if names.len() > 0 {
        let prev = names.drop_last();
        let y = names.last();
        only_later_copies_are_skipped(prev, x);
        assert(names == prev.push(y));
        assert(names.contains(x) == (prev.contains(x) || x == y)) by {
            if names.contains(x) {
                let k = choose|k: int| 0 <= k < names.len() && names[k] == x;
                if k < prev.len() {
                    assert(prev[k] == x);
                }
            }
            if prev.contains(x) {
                let k = choose|k: int| 0 <= k < prev.len() && prev[k] == x;
                assert(names[k] == x);
            }
            if x == y {
                assert(names[names.len() - 1] == x);
            }
        }
        if prev.contains(y) {
            let r = repeated_names(prev).push(y);
            assert(r.drop_last() == repeated_names(prev));
        }
    }
}

} // verus!
