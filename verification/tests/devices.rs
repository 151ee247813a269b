use nala::device::{
    turn_state_to_device_state, CapabilityDefinition, DeviceRegistry, DeviceState, DeviceToolset,
    Outcome, RemoteDevice, TurnState,
};
use nala::dispatch::{ToolDispatcher, Tools};
use nala::llm::ToolCall;
use nala::mcp::NoMcpClient;
use nala::tools::PingTool;

#[test]
fn a_snapshot_includes_every_registered_device() {
    let mut registry: DeviceRegistry<u32> = DeviceRegistry::new();
    registry.register("pc".to_string(), 1);
    registry.register("phone".to_string(), 2);

    let mut snapshot = registry.snapshot();
    snapshot.sort();

    assert_eq!(snapshot, vec![1, 2]);
}

#[test]
fn the_registry_replaces_a_device_that_reconnects_with_the_same_id() {
    let mut registry: DeviceRegistry<u32> = DeviceRegistry::new();
    registry.register("pc".to_string(), 1);
    registry.register("pc".to_string(), 2);

    assert_eq!(registry.snapshot(), vec![2]);
}

#[test]
fn a_removed_device_no_longer_appears_in_the_snapshot() {
    let mut registry: DeviceRegistry<u32> = DeviceRegistry::new();
    registry.register("pc".to_string(), 1);

    registry.remove("pc");

    assert!(registry.snapshot().is_empty());
}

#[test]
fn removing_an_unknown_device_keeps_the_others() {
    let mut registry: DeviceRegistry<u32> = DeviceRegistry::new();
    registry.register("pc".to_string(), 1);
    registry.remove("laptop");
    assert_eq!(registry.snapshot(), vec![1]);
}

#[test]
fn receiving_maps_to_listening() {
    assert_eq!(turn_state_to_device_state(TurnState::Receiving), DeviceState::Listening);
}

#[test]
fn planning_thinking_and_verifying_all_map_to_thinking() {
    assert_eq!(turn_state_to_device_state(TurnState::Planning), DeviceState::Thinking);
    assert_eq!(turn_state_to_device_state(TurnState::Thinking), DeviceState::Thinking);
    assert_eq!(turn_state_to_device_state(TurnState::Verifying), DeviceState::Thinking);
}

#[test]
fn executing_maps_to_executing() {
    assert_eq!(turn_state_to_device_state(TurnState::Executing), DeviceState::Executing);
}

#[test]
fn responding_maps_to_speaking() {
    assert_eq!(turn_state_to_device_state(TurnState::Responding), DeviceState::Speaking);
}

/// A device that always answers naming itself, so a test can tell whether
/// a call reached it rather than the native tool.
#[derive(Clone)]
struct FakeDevice {
    device_name: &'static str,
    capabilities: Vec<CapabilityDefinition>,
}

impl FakeDevice {
    fn publishing(device_name: &'static str, capability: &str) -> Self {
        FakeDevice {
            device_name,
            capabilities: vec![CapabilityDefinition {
                name: capability.to_string(),
                description: String::new(),
                parameters: serde_json::Value::Object(serde_json::Map::new()),
            }],
        }
    }
}

impl RemoteDevice for FakeDevice {
    fn spec_name(&self) -> &str {
        self.name()
    }

    fn spec_capabilities(&self) -> &[CapabilityDefinition] {
        self.capabilities()
    }

    /// Promises nothing of the replies: any outcome is possible.
    fn spec_replies(&self, _capability: &str, _arguments: &str, _r: &Outcome) -> bool {
        true
    }

    fn name(&self) -> &str {
        self.device_name
    }

    fn capabilities(&self) -> &[CapabilityDefinition] {
        &self.capabilities
    }

    fn invoke(&mut self, capability: &str, _arguments: &str) -> Outcome {
        Outcome::Success { text: format!("handled by {}::{capability}", self.device_name), mutated: false }
    }

    fn push_state(&self, _state: DeviceState) {}
}

type TestDispatcher = ToolDispatcher<PingTool, NoMcpClient, FakeDevice>;

fn dispatcher_with_native_ping() -> TestDispatcher {
    let mut dispatcher = ToolDispatcher::new();
    dispatcher.register(Tools::Native { name: "ping".to_string(), provides_context: false, tool: PingTool::new() });
    dispatcher
}

fn call(name: &str) -> ToolCall {
    ToolCall { name: name.to_string(), arguments: "{}".to_string() }
}

#[test]
fn a_bare_name_reaches_the_one_device_that_publishes_it() {
    let mut dispatcher = dispatcher_with_native_ping();
    dispatcher.register(Tools::Devices(vec![DeviceToolset::new(FakeDevice::publishing("pc", "ping"))]));

    let outcome = dispatcher.dispatch(call("ping")).unwrap();

    assert_eq!(outcome.text, "handled by pc::ping");
}

#[test]
fn a_prefixed_name_still_reaches_the_device() {
    let mut dispatcher = dispatcher_with_native_ping();
    dispatcher.register(Tools::Devices(vec![DeviceToolset::new(FakeDevice::publishing("pc", "ping"))]));

    let outcome = dispatcher.dispatch(call("pc_ping")).unwrap();

    assert_eq!(outcome.text, "handled by pc::ping");
}

#[test]
fn a_bare_name_falls_back_to_the_native_tool_when_no_device_publishes_it() {
    let mut dispatcher = dispatcher_with_native_ping();

    let outcome = dispatcher.dispatch(call("ping")).unwrap();

    assert_ne!(outcome.text, "handled by pc::ping");
    assert_eq!(outcome.text, "pong");
}

#[test]
fn an_ambiguous_bare_name_falls_back_to_the_native_tool() {
    let mut dispatcher = dispatcher_with_native_ping();
    dispatcher.register(Tools::Devices(vec![
        DeviceToolset::new(FakeDevice::publishing("pc", "ping")),
        DeviceToolset::new(FakeDevice::publishing("laptop", "ping")),
    ]));

    let outcome = dispatcher.dispatch(call("ping")).unwrap();

    assert_ne!(outcome.text, "handled by pc::ping");
    assert_ne!(outcome.text, "handled by laptop::ping");
}

#[test]
fn a_device_registered_after_the_dispatcher_was_built_is_picked_up() {
    let mut registry: DeviceRegistry<FakeDevice> = DeviceRegistry::new();
    let mut dispatcher = dispatcher_with_native_ping();

    let outcome = dispatcher.dispatch_with_devices(&registry, call("ping")).unwrap();
    assert_ne!(outcome.text, "handled by pc::ping");

    registry.register("pc".to_string(), FakeDevice::publishing("pc", "ping"));

    let outcome = dispatcher.dispatch_with_devices(&registry, call("ping")).unwrap();
    assert_eq!(outcome.text, "handled by pc::ping");
}

#[test]
fn a_device_removed_from_the_registry_is_dropped() {
    let mut registry: DeviceRegistry<FakeDevice> = DeviceRegistry::new();
    registry.register("pc".to_string(), FakeDevice::publishing("pc", "ping"));
    let mut dispatcher = dispatcher_with_native_ping();
    let outcome = dispatcher.dispatch_with_devices(&registry, call("ping")).unwrap();
    assert_eq!(outcome.text, "handled by pc::ping");

    registry.remove("pc");

    let outcome = dispatcher.dispatch_with_devices(&registry, call("ping")).unwrap();
    assert_ne!(outcome.text, "handled by pc::ping");
}

#[test]
fn device_tools_reflects_currently_registered_devices() {
    let mut dispatcher = dispatcher_with_native_ping();
    assert!(dispatcher.device_tools().is_empty());

    dispatcher.register(Tools::Devices(vec![DeviceToolset::new(FakeDevice::publishing("pc", "ping"))]));

    let names: Vec<String> = dispatcher.device_tools().into_iter().map(|definition| definition.name).collect();

    assert_eq!(names, vec!["pc_ping".to_string()]);
}

#[test]
fn an_unknown_tool_is_not_found() {
    let mut dispatcher = dispatcher_with_native_ping();
    let error = dispatcher.dispatch(call("missing")).unwrap_err();
    assert_eq!(error.message(), "tool not found");
}

#[test]
fn the_prefix_is_the_device_name_and_an_underscore() {
    let toolset = DeviceToolset::new(FakeDevice::publishing("pc", "open_app"));
    assert_eq!(toolset.prefix(), "pc_");
    assert!(toolset.handles("pc_open_app"));
    assert!(!toolset.handles("open_app"));
    assert!(toolset.handles_bare("open_app"));
}

#[test]
fn a_capability_becomes_a_tool_definition_field_by_field() {
    let capability = CapabilityDefinition {
        name: "volume".to_string(),
        description: "Sets the volume".to_string(),
        parameters: serde_json::Value::Object(serde_json::Map::new()),
    };
    let definition = nala::llm::ToolDefinition::from(capability);
    assert_eq!(definition.name, "volume");
    assert_eq!(definition.description, "Sets the volume");
    assert!(definition.parameters.is_object());
}
