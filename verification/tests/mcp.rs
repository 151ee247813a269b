use nala::mcp::{
    default_allowlist, ComputerUseToolset, McpClient, McpError, McpToolInfo, McpToolResult, McpToolset,
};

/// A server that lists the given tools and answers every call with the
/// tool's name, recording what it was asked.
struct ScriptedServer {
    tools: Vec<&'static str>,
    calls: Vec<(String, serde_json::Value)>,
    screenshot_fails: bool,
}

impl ScriptedServer {
    fn listing(tools: Vec<&'static str>) -> Self {
        ScriptedServer { tools, calls: Vec::new(), screenshot_fails: false }
    }
}

impl McpClient for ScriptedServer {
    /// Promises nothing of the replies.
    fn spec_calls(&self, _name: &str, _arguments: serde_json::Value, _r: &Result<McpToolResult, McpError>) -> bool {
        true
    }

    fn list_tools(&mut self) -> Result<Vec<McpToolInfo>, McpError> {
        Ok(self
            .tools
            .iter()
            .map(|name| McpToolInfo {
                name: name.to_string(),
                description: format!("{name} tool"),
                parameters: serde_json::Value::Object(serde_json::Map::new()),
            })
            .collect())
    }

    fn call_tool(&mut self, name: &str, arguments: serde_json::Value) -> Result<McpToolResult, McpError> {
        self.calls.push((name.to_string(), arguments));
        if name == "screenshot" {
            if self.screenshot_fails {
                return Err(McpError::ToolFailed("no display".to_string()));
            }
            return Ok(McpToolResult { text: String::new(), images: vec!["shot".to_string()] });
        }
        Ok(McpToolResult { text: format!("ran {name}"), images: vec!["own".to_string()] })
    }
}

struct BrokenServer;

impl McpClient for BrokenServer {
    /// Promises nothing of the replies.
    fn spec_calls(&self, _name: &str, _arguments: serde_json::Value, _r: &Result<McpToolResult, McpError>) -> bool {
        true
    }

    fn list_tools(&mut self) -> Result<Vec<McpToolInfo>, McpError> {
        Err(McpError::Transport("closed".to_string()))
    }

    fn call_tool(&mut self, _name: &str, _arguments: serde_json::Value) -> Result<McpToolResult, McpError> {
        Err(McpError::Transport("closed".to_string()))
    }
}

#[test]
fn an_allowlist_narrows_the_published_tools_in_server_order() {
    let allowed = ["b", "c", "z"];
    let toolset = McpToolset::connect(ScriptedServer::listing(vec!["a", "b", "c"]), Some(&allowed[..])).unwrap();
    let names: Vec<&str> = toolset.definitions().iter().map(|d| d.name.as_str()).collect();
    assert_eq!(names, vec!["b", "c"]);
    assert!(toolset.handles("b"));
    assert!(!toolset.handles("a"));
    assert!(!toolset.handles("z"));
}

#[test]
fn without_an_allowlist_every_listed_tool_is_published() {
    let toolset = McpToolset::connect(ScriptedServer::listing(vec!["a", "b"]), None).unwrap();
    let names: Vec<&str> = toolset.definitions().iter().map(|d| d.name.as_str()).collect();
    assert_eq!(names, vec!["a", "b"]);
}

#[test]
fn a_listing_failure_is_returned_as_is() {
    let error = McpToolset::connect(BrokenServer, None).err().unwrap();
    assert_eq!(error, McpError::Transport("closed".to_string()));
    assert_eq!(error.message(), "transport error: closed");
}

#[test]
fn bad_json_arguments_never_reach_the_server() {
    let mut toolset = McpToolset::connect(ScriptedServer::listing(vec!["a"]), None).unwrap();
    match toolset.call("a", "{not json") {
        Err(McpError::Protocol(message)) => assert!(!message.is_empty()),
        other => panic!("expected a protocol error, got {other:?}"),
    }
    assert!(toolset.client().calls.is_empty());

    let result = toolset.call("a", "{\"x\": 1}").unwrap();
    assert_eq!(result.text, "ran a");
    assert_eq!(toolset.client().calls.len(), 1);
    assert_eq!(toolset.client().calls[0].1["x"], serde_json::Value::from(1));
}

#[test]
fn the_default_allowlist_is_the_screen_and_input_tools() {
    assert_eq!(
        default_allowlist(),
        vec!["screenshot", "left_click", "double_click", "type", "key", "scroll", "get_display_size", "list_windows"]
    );
}

#[test]
fn a_mutating_action_gets_a_verification_screenshot() {
    let allowed = default_allowlist();
    let server = ScriptedServer::listing(vec!["screenshot", "left_click", "list_windows"]);
    let mut toolset = ComputerUseToolset::connect(server, &allowed).unwrap();

    let result = toolset.call("left_click", "{\"x\": 3, \"y\": 4}").unwrap();
    assert_eq!(
        result.text,
        "ran left_click\n\n[Auto-verification screenshot attached — check it before answering.]"
    );
    assert_eq!(result.images, vec!["own".to_string(), "shot".to_string()]);
    assert_eq!(toolset.client().calls.len(), 2);
    assert_eq!(toolset.client().calls[1].0, "screenshot");
    assert!(toolset.client().calls[1].1.as_object().unwrap().is_empty());

    let read = toolset.call("list_windows", "{}").unwrap();
    assert_eq!(read.text, "ran list_windows");
    assert_eq!(toolset.client().calls.len(), 3);
}

#[test]
fn a_failed_verification_screenshot_leaves_the_result_alone() {
    let allowed = default_allowlist();
    let mut server = ScriptedServer::listing(vec!["screenshot", "type"]);
    server.screenshot_fails = true;
    let mut toolset = ComputerUseToolset::connect(server, &allowed).unwrap();
    let result = toolset.call("type", "{\"text\": \"hola\"}").unwrap();
    assert_eq!(result.text, "ran type");
    assert_eq!(result.images, vec!["own".to_string()]);
}

#[test]
fn only_screen_changing_actions_are_mutating() {
    for name in ["left_click", "double_click", "type", "key", "scroll"] {
        assert!(ComputerUseToolset::<ScriptedServer>::is_mutating(name));
    }
    for name in ["screenshot", "get_display_size", "list_windows", "other"] {
        assert!(!ComputerUseToolset::<ScriptedServer>::is_mutating(name));
    }
}
