//! Connected devices: the protocol values the agent loop sees, the
//! `RemoteDevice` port, the toolset that publishes one device's
//! capabilities under a `<device>_` prefix, the registry of connected
//! devices, and the turn-state mapping pushed to devices.
use vstd::prelude::*;
use crate::llm::{ToolDefinition, ToolOutcome};
use crate::text::{push_str, push_char};

verus! {

/// One capability a device publishes.
#[derive(Debug, Clone)]
pub struct CapabilityDefinition {
    pub name: String,
    pub description: String,
    pub parameters: serde_json::Value,
}

impl CapabilityDefinition {
    pub fn duplicate(&self) -> (r: CapabilityDefinition)
        ensures
            r == *self,
    {
        CapabilityDefinition {
            name: self.name.clone(),
            description: self.description.clone(),
            parameters: self.parameters.clone(),
        }
    }
}

/// A device capability is published to the model as is: a field-by-field move.
impl From<CapabilityDefinition> for ToolDefinition {
    fn from(capability: CapabilityDefinition) -> (r: ToolDefinition) {
        ToolDefinition {
            name: capability.name,
            description: capability.description,
            parameters: capability.parameters,
        }
    }
}

impl vstd::std_specs::convert::FromSpecImpl<CapabilityDefinition> for ToolDefinition {
    open spec fn obeys_from_spec() -> bool {
        true
    }

    open spec fn from_spec(capability: CapabilityDefinition) -> ToolDefinition {
        ToolDefinition {
            name: capability.name,
            description: capability.description,
            parameters: capability.parameters,
        }
    }
}

/// Why a device could not carry out an invocation.
#[derive(Debug, Clone, Copy, PartialEq, Eq)]
pub enum ErrorCode {
    NotFound,
    InvalidArguments,
    Failed,
    Timeout,
    Disconnected,
}

/// What a device reports back for one invocation.
#[derive(Debug, Clone, PartialEq)]
pub enum Outcome {
    Success { text: String, mutated: bool },
    Failure { code: ErrorCode, message: String },
}

/// What a connected device shows of the agent's own turn.
#[derive(Debug, Clone, Copy, PartialEq, Eq)]
pub enum DeviceState {
    Listening,
    Thinking,
    Executing,
    Speaking,
}

/// The agent's turn lifecycle.
#[derive(Debug, Clone, Copy, PartialEq, Eq)]
pub enum TurnState {
    Receiving,
    Planning,
    Thinking,
    Executing,
    Verifying,
    Responding,
}

/// Maps the agent's own turn state to the state pushed to devices.
pub fn turn_state_to_device_state(state: TurnState) -> (r: DeviceState)
    ensures
        r == match state {
            TurnState::Receiving => DeviceState::Listening,
            TurnState::Planning | TurnState::Thinking | TurnState::Verifying => DeviceState::Thinking,
            TurnState::Executing => DeviceState::Executing,
            TurnState::Responding => DeviceState::Speaking,
        },
{
    match state {
        TurnState::Receiving => DeviceState::Listening,
        TurnState::Planning | TurnState::Thinking | TurnState::Verifying => DeviceState::Thinking,
        TurnState::Executing => DeviceState::Executing,
        TurnState::Responding => DeviceState::Speaking,
    }
}

/// A device connected over the device protocol. `invoke` is infallible:
/// transport problems come back as `Outcome::Failure`.
pub trait RemoteDevice {
    /// The name the device registered under (it does not change).
    spec fn spec_name(&self) -> &str;

    /// The capabilities the device published (they do not change).
    spec fn spec_capabilities(&self) -> &[CapabilityDefinition];

    /// Whether `r` is a reply the device may give to an invocation of
    /// `capability` with `arguments` (a device that promises nothing holds
    /// it of every reply).
    spec fn spec_replies(&self, capability: &str, arguments: &str, r: &Outcome) -> bool;

    /// The name this device registered under, used as its tools' prefix.
    fn name(&self) -> (r: &str)
        ensures
            r@ == self.spec_name()@,
    ;

    fn capabilities(&self) -> (r: &[CapabilityDefinition])
        ensures
            r@ == self.spec_capabilities()@,
    ;

    fn invoke(&mut self, capability: &str, arguments: &str) -> (r: Outcome)
        ensures
            old(self).spec_replies(capability, arguments, &r),
    ;

    /// Best-effort notification of the agent's turn state.
    fn push_state(&self, state: DeviceState);
}

/// A device that is never connected: it publishes nothing and answers
/// every invocation with `NotFound`.
#[derive(Debug, Default, Clone)]
pub struct NoDevice;

impl RemoteDevice for NoDevice {
    open spec fn spec_name(&self) -> &str {
        "no-device"
    }

    open spec fn spec_capabilities(&self) -> &[CapabilityDefinition] {
        &[]
    }

    /// Always `NotFound`.
    open spec fn spec_replies(&self, capability: &str, arguments: &str, r: &Outcome) -> bool {
        r matches Outcome::Failure { code: ErrorCode::NotFound, message } && message@ == "NoDevice is never connected"@
    }

    fn name(&self) -> (r: &str)
        ensures
            r@ == "no-device"@,
    {
        "no-device"
    }

    fn capabilities(&self) -> (r: &[CapabilityDefinition])
        ensures
            r@.len() == 0,
    {
        &[]
    }

    fn invoke(&mut self, capability: &str, arguments: &str) -> (r: Outcome)
        ensures
            r matches Outcome::Failure { code: ErrorCode::NotFound, message } && message@ == "NoDevice is never connected"@,
    {
        Outcome::Failure { code: ErrorCode::NotFound, message: "NoDevice is never connected".to_owned() }
    }

    fn push_state(&self, state: DeviceState) {
    }
}

/// The `Debug` name of an error code.
pub open spec fn error_code_name(code: ErrorCode) -> Seq<char> {
    match code {
        ErrorCode::NotFound => "NotFound"@,
        ErrorCode::InvalidArguments => "InvalidArguments"@,
        ErrorCode::Failed => "Failed"@,
        ErrorCode::Timeout => "Timeout"@,
        ErrorCode::Disconnected => "Disconnected"@,
    }
}

pub fn error_code_text(code: ErrorCode) -> (s: &'static str)
    ensures
        s@ == error_code_name(code),
{
    match code {
        ErrorCode::NotFound => "NotFound",
        ErrorCode::InvalidArguments => "InvalidArguments",
        ErrorCode::Failed => "Failed",
        ErrorCode::Timeout => "Timeout",
        ErrorCode::Disconnected => "Disconnected",
    }
}

/// The tool outcome a device's reply becomes: a success keeps its text and
/// mutation flag; a failure becomes `ERROR (<code>): <message>` text.
pub open spec fn outcome_to_tool(outcome: Outcome, r: ToolOutcome) -> bool {
    &&& r.images@.len() == 0
    &&& match outcome {
        Outcome::Success { text, mutated } => r.text == text && r.mutated == mutated,
        Outcome::Failure { code, message } => r.text@ == "ERROR ("@ + error_code_name(code) + "): "@
            + message@ && !r.mutated,
    }
}

pub fn tool_outcome_from_device(outcome: Outcome) -> (r: ToolOutcome)
    ensures
        outcome_to_tool(outcome, r),
        r.images@.len() == 0,
        outcome matches Outcome::Success { text, mutated } ==> r.text == text && r.mutated == mutated,
        outcome is Failure ==> !r.mutated,
{
    match outcome {
        Outcome::Success { text, mutated } => ToolOutcome { text, images: Vec::new(), mutated },
        Outcome::Failure { code, message } => {
            let mut text = "ERROR (".to_owned();
            push_str(&mut text, error_code_text(code));
            push_str(&mut text, "): ");
            push_str(&mut text, message.as_str());
            ToolOutcome::from_text(text)
        },
    }
}

/// `o` is what some device reply becomes.
pub open spec fn is_device_reply(o: ToolOutcome) -> bool {
    exists|x: Outcome| outcome_to_tool(x, o)
}

/// The bare names of `caps`, in order.
pub open spec fn capability_names(caps: Seq<CapabilityDefinition>) -> Seq<Seq<char>> {
    caps.map_values(|c: CapabilityDefinition| c.name@)
}

/// `o` is what the reply of `t`'s device becomes when the call named `name`
/// invokes its capability (`name` with the device prefix stripped) with
/// `arguments`.
pub open spec fn device_answer<D: RemoteDevice>(t: DeviceToolset<D>, name: Seq<char>, arguments: Seq<char>, o: ToolOutcome) -> bool {
    exists|c: &str, a: &str, x: Outcome|
        c@ == strip_device_prefix(t.spec_device_name(), name) && a@ == arguments
            && #[trigger] t.device().spec_replies(c, a, &x) && outcome_to_tool(x, o)
}

/// The prefixed tool name `<device>_<capability>`.
pub open spec fn prefixed(device: Seq<char>, capability: Seq<char>) -> Seq<char> {
    device + "_"@ + capability
}

/// `name` with the `<device>_` prefix removed when it has one.
pub open spec fn strip_device_prefix(device: Seq<char>, name: Seq<char>) -> Seq<char> {
    let p = device + "_"@;
    if crate::text::starts_with_seq(name, p) {
        name.subrange(p.len() as int, name.len() as int)
    } else {
        name
    }
}

/// Publishes one connected device's capabilities as tools named
/// `<device>_<capability>`.
pub struct DeviceToolset<D: RemoteDevice> {
    device: D,
    device_name: String,
    capabilities: Vec<CapabilityDefinition>,
}

impl<D: RemoteDevice> DeviceToolset<D> {
    /// The name the device registered under.
    pub closed spec fn spec_device_name(&self) -> Seq<char> {
        self.device_name@
    }

    /// The bare names of the device's capabilities, in published order.
    pub closed spec fn spec_capabilities(&self) -> Seq<Seq<char>> {
        self.capabilities@.map_values(|c: CapabilityDefinition| c.name@)
    }

    /// Whether `name` is one of this device's prefixed tool names.
    pub open spec fn spec_handles(&self, name: Seq<char>) -> bool {
        exists|k: int|
            0 <= k < self.spec_capabilities().len() && #[trigger] prefixed(
                self.spec_device_name(),
                self.spec_capabilities()[k],
            ) == name
    }

    /// Whether the device publishes `name` as a bare capability.
    pub open spec fn spec_handles_bare(&self, name: Seq<char>) -> bool {
        self.spec_capabilities().contains(name)
    }

    pub fn new(device: D) -> (r: Self)
        ensures
            r.device() == device,
            r.spec_device_name() == device.spec_name()@,
            r.spec_capabilities() == capability_names(device.spec_capabilities()@),
    {
        let device_name = device.name().to_owned();
        let caps = device.capabilities();
        let mut capabilities: Vec<CapabilityDefinition> = Vec::new();
        let mut i: usize = 0;
        while i < caps.len()
            invariant
                i <= caps@.len(),
                capabilities@ == caps@.subrange(0, i as int),
            decreases caps@.len() - i,
        {
            capabilities.push(caps[i].duplicate());
            assert(capabilities@ =~= caps@.subrange(0, i + 1));
            i = i + 1;
        }
        assert(capabilities@ =~= caps@);
        DeviceToolset { device, device_name, capabilities }
    }

    pub closed spec fn device(&self) -> D {
        self.device
    }

    /// The device itself.
    pub fn device_ref(&self) -> (r: &D)
        ensures
            *r == self.device(),
    {
        &self.device
    }

    /// The `<device>_` prefix.
    pub fn prefix(&self) -> (s: String)
        ensures
            s@ == self.spec_device_name() + "_"@,
    {
        let mut s = self.device_name.clone();
        push_char(&mut s, '_');
        assert("_"@ == seq!['_']) by {
            reveal_strlit("_");
        }
        s
    }

    /// The device's capabilities as tool definitions, renamed with the prefix.
    pub fn definitions(&self) -> (defs: Vec<ToolDefinition>)
        ensures
            defs@.len() == self.spec_capabilities().len(),
            forall|k: int|
                0 <= k < defs@.len() ==> #[trigger] defs@[k].name@ == prefixed(
                    self.spec_device_name(),
                    self.spec_capabilities()[k],
                ),
    {
        let prefix = self.prefix();
        let mut defs: Vec<ToolDefinition> = Vec::new();
        let mut i: usize = 0;
        while i < self.capabilities.len()
            invariant
                i <= self.capabilities@.len(),
                prefix@ == self.spec_device_name() + "_"@,
                defs@.len() == i,
                forall|k: int|
                    0 <= k < i ==> #[trigger] defs@[k].name@ == prefixed(
                        self.spec_device_name(),
                        self.spec_capabilities()[k],
                    ),
            decreases self.capabilities@.len() - i,
        {
            let mut name = prefix.clone();
            let cap = &self.capabilities[i];
            push_str(&mut name, cap.name.as_str());
            defs.push(
                ToolDefinition {
                    name,
                    description: cap.description.clone(),
                    parameters: cap.parameters.clone(),
                },
            );
            i = i + 1;
        }
        defs
    }

    /// Whether `name` is one of this device's prefixed tool names.
    pub fn handles(&self, name: &str) -> (r: bool)
        ensures
            r == self.spec_handles(name@),
    {
        let prefix = self.prefix();
        let mut i: usize = 0;
        while i < self.capabilities.len()
            invariant
                i <= self.capabilities@.len(),
                prefix@ == self.spec_device_name() + "_"@,
                forall|k: int|
                    0 <= k < i ==> #[trigger] prefixed(
                        self.spec_device_name(),
                        self.spec_capabilities()[k],
                    ) != name@,
            decreases self.capabilities@.len() - i,
        {
            let mut full = prefix.clone();
            push_str(&mut full, self.capabilities[i].name.as_str());
            if crate::text::str_eq(full.as_str(), name) {
                assert(prefixed(self.spec_device_name(), self.spec_capabilities()[i as int])
                    == name@);
                return true;
            }
            i = i + 1;
        }
        false
    }

    /// Whether the device publishes `name` as a bare capability.
    pub fn handles_bare(&self, name: &str) -> (r: bool)
        ensures
            r == self.spec_handles_bare(name@),
    {
        let mut i: usize = 0;
        while i < self.capabilities.len()
            invariant
                i <= self.capabilities@.len(),
                forall|k: int| 0 <= k < i ==> self.spec_capabilities()[k] != name@,
            decreases self.capabilities@.len() - i,
        {
            if crate::text::str_eq(self.capabilities[i].name.as_str(), name) {
                assert(self.spec_capabilities()[i as int] == name@);
                return true;
            }
            i = i + 1;
        }
        false
    }

    /// Invokes the capability `name` names (with or without the prefix) and
    /// turns the device's reply into a tool outcome; never fails.
    pub fn call(&mut self, name: &str, arguments: &str) -> (r: ToolOutcome)
        ensures
            device_answer(*old(self), name@, arguments@, r),
            is_device_reply(r),
            final(self).spec_device_name() == old(self).spec_device_name(),
            final(self).spec_capabilities() == old(self).spec_capabilities(),
    {
        let capability = self.capability_for(name);
        let c = capability.as_str();
        let outcome = self.device.invoke(c, arguments);
        let r = tool_outcome_from_device(outcome);
        assert(old(self).device().spec_replies(c, arguments, &outcome));
        r
    }

    /// The capability a tool name reaches: the name with this device's
    /// prefix stripped, or the name itself when it carries no such prefix.
    pub fn capability_for(&self, name: &str) -> (c: String)
        ensures
            c@ == strip_device_prefix(self.spec_device_name(), name@),
    {
        let prefix = self.prefix();
        if crate::text::starts_with(name, prefix.as_str()) {
            let chars = crate::text::chars_of(name);
            let plen = crate::text::char_count(prefix.as_str());
            crate::text::string_of_range(&chars, plen, chars.len())
        } else {
            name.to_owned()
        }
    }
}

/// Every device currently connected, keyed by device id. Registering an id
/// that is already present replaces that device in place, so a device that
/// reconnects takes over its slot instead of piling up beside a stale one.
pub struct DeviceRegistry<D: Clone> {
    devices: Vec<(String, D)>,
}

impl<D: Clone> View for DeviceRegistry<D> {
    type V = Map<Seq<char>, D>;

    closed spec fn view(&self) -> Map<Seq<char>, D> {
        Map::new(
            |k: Seq<char>| exists|i: int| 0 <= i < self.devices@.len() && #[trigger] self.devices@[i].0@ == k,
            |k: Seq<char>|
                self.devices@[choose|i: int| 0 <= i < self.devices@.len() && #[trigger] self.devices@[i].0@ == k].1,
        )
    }
}

impl<D: Clone> DeviceRegistry<D> {
    /// No id appears twice.
    pub closed spec fn wf(&self) -> bool {
        forall|i: int, j: int|
            0 <= i < self.devices@.len() && 0 <= j < self.devices@.len() && i != j
                ==> #[trigger] self.devices@[i].0@ != #[trigger] self.devices@[j].0@
    }

    /// The devices in the order `snapshot` lists them.
    pub closed spec fn order(&self) -> Seq<D> {
        self.devices@.map_values(|e: (String, D)| e.1)
    }

    /// The ids of the devices in `order()`, position by position.
    pub closed spec fn key_order(&self) -> Seq<Seq<char>> {
        self.devices@.map_values(|e: (String, D)| e.0@)
    }

    proof fn lemma_view_at(&self, i: int)
        requires
            self.wf(),
            0 <= i < self.devices@.len(),
        ensures
            self@.contains_key(self.devices@[i].0@),
            self@[self.devices@[i].0@] == self.devices@[i].1,
    {
        let k = self.devices@[i].0@;
        assert(self@.dom().contains(k));
        let j = choose|j: int| 0 <= j < self.devices@.len() && #[trigger] self.devices@[j].0@ == k;
        assert(self.devices@[j].0@ == k);
    }

    pub fn new() -> (r: Self)
        ensures
            r.wf(),
            r@ == Map::<Seq<char>, D>::empty(),
    {
        let r = DeviceRegistry { devices: Vec::new() };
        assert(r@ =~= Map::<Seq<char>, D>::empty());
        r
    }

    /// Registers `device` under `device_id`, replacing whatever was there.
    pub fn register(&mut self, device_id: String, device: D)
        requires
            old(self).wf(),
        ensures
            final(self).wf(),
            final(self)@ == old(self)@.insert(device_id@, device),
    {
        let mut i: usize = 0;
        while i < self.devices.len()
            invariant
                i <= self.devices@.len(),
                forall|k: int| 0 <= k < i ==> self.devices@[k].0@ != device_id@,
                self.wf(),
                *self == *old(self),
            decreases self.devices@.len() - i,
        {
            if self.devices[i].0 == device_id {
                let ghost before = *self;
                self.devices.set(i, (device_id, device));
                proof {
                    assert forall|a: int, b: int|
                        0 <= a < self.devices@.len() && 0 <= b < self.devices@.len() && a != b
                            implies #[trigger] self.devices@[a].0@ != #[trigger] self.devices@[b].0@ by {
                        assert(self.devices@[a].0@ == before.devices@[a].0@);
                        assert(self.devices@[b].0@ == before.devices@[b].0@);
                    }
                    assert forall|k: Seq<char>| #[trigger] self@.contains_key(k) == before@.insert(device_id@, device).contains_key(k) by {
                        if before@.contains_key(k) {
                            let j = choose|j: int| 0 <= j < before.devices@.len() && #[trigger] before.devices@[j].0@ == k;
                            assert(self.devices@[j].0@ == k);
                        }
                        if self@.contains_key(k) {
                            let j = choose|j: int| 0 <= j < self.devices@.len() && #[trigger] self.devices@[j].0@ == k;
                            if j != i {
                                assert(before.devices@[j].0@ == k);
                            }
                        }
                    }
                    assert forall|k: Seq<char>| #[trigger] self@.contains_key(k) implies self@[k] == before@.insert(device_id@, device)[k] by {
                        let j = choose|j: int| 0 <= j < self.devices@.len() && #[trigger] self.devices@[j].0@ == k;
                        self.lemma_view_at(j);
                        if j != i {
                            before.lemma_view_at(j);
                        }
                    }
                    assert(self@ =~= before@.insert(device_id@, device));
                }
                return;
            }
            i = i + 1;
        }
        let ghost before = *self;
        self.devices.push((device_id, device));
        proof {
            let n = before.devices@.len() as int;
            assert forall|a: int, b: int|
                0 <= a < self.devices@.len() && 0 <= b < self.devices@.len() && a != b
                    implies #[trigger] self.devices@[a].0@ != #[trigger] self.devices@[b].0@ by {
                if a < n && b < n {
                    assert(self.devices@[a] == before.devices@[a]);
                    assert(self.devices@[b] == before.devices@[b]);
                } else if a < n {
                    assert(self.devices@[a] == before.devices@[a]);
                } else {
                    assert(self.devices@[b] == before.devices@[b]);
                }
            }
            assert forall|k: Seq<char>| #[trigger] self@.contains_key(k) == before@.insert(device_id@, device).contains_key(k) by {
                if before@.contains_key(k) {
                    let j = choose|j: int| 0 <= j < before.devices@.len() && #[trigger] before.devices@[j].0@ == k;
                    assert(self.devices@[j].0@ == k);
                }
                if k == device_id@ {
                    assert(self.devices@[n].0@ == k);
                }
                if self@.contains_key(k) {
                    let j = choose|j: int| 0 <= j < self.devices@.len() && #[trigger] self.devices@[j].0@ == k;
                    if j != n {
                        assert(before.devices@[j].0@ == k);
                    }
                }
            }
            assert forall|k: Seq<char>| #[trigger] self@.contains_key(k) implies self@[k] == before@.insert(device_id@, device)[k] by {
                let j = choose|j: int| 0 <= j < self.devices@.len() && #[trigger] self.devices@[j].0@ == k;
                self.lemma_view_at(j);
                if j != n {
                    before.lemma_view_at(j);
                }
            }
            assert(self@ =~= before@.insert(device_id@, device));
        }
    }

    /// Removes the device registered under `device_id`, if any.
    pub fn remove(&mut self, device_id: &str)
        requires
            old(self).wf(),
        ensures
            final(self).wf(),
            final(self)@ == old(self)@.remove(device_id@),
    {
        let mut i: usize = 0;
        while i < self.devices.len()
            invariant
                i <= self.devices@.len(),
                forall|k: int| 0 <= k < i ==> self.devices@[k].0@ != device_id@,
                self.wf(),
                *self == *old(self),
            decreases self.devices@.len() - i,
        {
            if crate::text::str_eq(self.devices[i].0.as_str(), device_id) {
                let ghost before = *self;
                self.devices.remove(i);
                proof {
                    assert forall|a: int, b: int|
                        0 <= a < self.devices@.len() && 0 <= b < self.devices@.len() && a != b
                            implies #[trigger] self.devices@[a].0@ != #[trigger] self.devices@[b].0@ by {
                        let a2 = if a < i { a } else { a + 1 };
                        let b2 = if b < i { b } else { b + 1 };
                        assert(self.devices@[a] == before.devices@[a2]);
                        assert(self.devices@[b] == before.devices@[b2]);
                    }
                    assert forall|k: Seq<char>| #[trigger] self@.contains_key(k) == before@.remove(device_id@).contains_key(k) by {
                        if before@.contains_key(k) && k != device_id@ {
                            let j = choose|j: int| 0 <= j < before.devices@.len() && #[trigger] before.devices@[j].0@ == k;
                            assert(j != i);
                            let j2 = if j < i { j } else { j - 1 };
                            assert(self.devices@[j2] == before.devices@[j]);
                        }
                        if self@.contains_key(k) {
                            let j = choose|j: int| 0 <= j < self.devices@.len() && #[trigger] self.devices@[j].0@ == k;
                            let j2 = if j < i { j } else { j + 1 };
                            assert(self.devices@[j] == before.devices@[j2]);
                            assert(before.devices@[j2].0@ == k);
                            assert(k != device_id@);
                        }
                    }
                    assert forall|k: Seq<char>| #[trigger] self@.contains_key(k) implies self@[k] == before@.remove(device_id@)[k] by {
                        let j = choose|j: int| 0 <= j < self.devices@.len() && #[trigger] self.devices@[j].0@ == k;
                        self.lemma_view_at(j);
                        let j2 = if j < i { j } else { j + 1 };
                        assert(self.devices@[j] == before.devices@[j2]);
                        before.lemma_view_at(j2);
                    }
                    assert(self@ =~= before@.remove(device_id@));
                }
                return;
            }
            i = i + 1;
        }
        proof {
            assert(!self@.contains_key(device_id@)) by {
                if self@.contains_key(device_id@) {
                    let j = choose|j: int| 0 <= j < self.devices@.len() && #[trigger] self.devices@[j].0@ == device_id@;
                }
            }
            assert(self@ =~= self@.remove(device_id@));
        }
    }

    /// A copy of every registered device, one per id.
    pub fn snapshot(&self) -> (v: Vec<D>)
        requires
            self.wf(),
        ensures
            v@.len() == self@.len(),
            v@.len() == self.order().len(),
            forall|i: int| 0 <= i < v@.len() ==> cloned(self.order()[i], #[trigger] v@[i]),
            self.key_order().len() == self.order().len(),
            forall|i: int|
                0 <= i < self.order().len() ==> self@.contains_key(#[trigger] self.key_order()[i])
                    && self@[self.key_order()[i]] == self.order()[i],
            forall|k: Seq<char>|
                #[trigger] self@.contains_key(k) ==> exists|i: int|
                    0 <= i < self.key_order().len() && self.key_order()[i] == k,
            forall|i: int, j: int|
                0 <= i < j < self.key_order().len() ==> self.key_order()[i] != self.key_order()[j],
    {
        let mut v: Vec<D> = Vec::new();
        let mut i: usize = 0;
        while i < self.devices.len()
            invariant
                i <= self.devices@.len(),
                v@.len() == i,
                forall|k: int| 0 <= k < i ==> cloned(self.devices@[k].1, #[trigger] v@[k]),
            decreases self.devices@.len() - i,
        {
            let d = self.devices[i].1.clone();
            v.push(d);
            i = i + 1;
        }
        proof {
            self.lemma_len();
            assert forall|k: Seq<char>| #[trigger] self@.contains_key(k) implies exists|i: int|
                0 <= i < self.key_order().len() && self.key_order()[i] == k by {
                let j = choose|j: int| 0 <= j < self.devices@.len() && #[trigger] self.devices@[j].0@ == k;
                assert(self.key_order()[j] == k);
            }
            assert forall|i: int| 0 <= i < self.order().len() implies self@.contains_key(
                #[trigger] self.key_order()[i]) && self@[self.key_order()[i]] == self.order()[i] by {
                self.lemma_view_at(i);
            }
            assert forall|i: int, j: int|
                0 <= i < j < self.key_order().len() implies self.key_order()[i] != self.key_order()[j] by {
                assert(self.devices@[i].0@ != self.devices@[j].0@);
            }
        }
        v
    }

    proof fn lemma_len(&self)
        requires
            self.wf(),
        ensures
            self@.len() == self.devices@.len(),
            self@.dom().finite(),
    {
        self.lemma_len_prefix(self.devices@.len() as int);
        assert(self@.dom() =~= self.keys_of(self.devices@.len() as int));
    }

    spec fn keys_of(&self, n: int) -> Set<Seq<char>> {
        Set::new(|k: Seq<char>| exists|i: int| 0 <= i < n && #[trigger] self.devices@[i].0@ == k)
    }

    proof fn lemma_len_prefix(&self, n: int)
        requires
            self.wf(),
            0 <= n <= self.devices@.len(),
        ensures
            self.keys_of(n).finite(),
            self.keys_of(n).len() == n,
        decreases n,
    {
        if n == 0 {
            assert(self.keys_of(0) =~= Set::empty());
        } else {
            self.lemma_len_prefix(n - 1);
            let k = self.devices@[n - 1].0@;
            assert(self.keys_of(n) =~= self.keys_of(n - 1).insert(k));
            assert(!self.keys_of(n - 1).contains(k));
        }
    }
}

/// A device's success reaches the agent with the device's own text and
/// its own report of whether it changed something, so a change it made is
/// verified like any other; a failure becomes `ERROR (<code>): <message>`
/// and never counts as a change. Neither carries images.
pub proof fn device_replies_keep_text_and_mutation(outcome: Outcome, r: ToolOutcome)
    requires
        outcome_to_tool(outcome, r),
    ensures
        r.images@.len() == 0,
        outcome matches Outcome::Success { text, mutated } ==> r.text == text && r.mutated == mutated,
        outcome matches Outcome::Failure { code, message } ==> !r.mutated && r.text@ == "ERROR ("@ + match code {
            ErrorCode::NotFound => "NotFound"@,
            ErrorCode::InvalidArguments => "InvalidArguments"@,
            ErrorCode::Failed => "Failed"@,
            ErrorCode::Timeout => "Timeout"@,
            ErrorCode::Disconnected => "Disconnected"@,
        } + "): "@ + message@,
{
}

/// A capability published as `<device>_<capability>` reaches the device as
/// that very capability: removing the device's prefix undoes adding it,
/// and a name without the prefix is passed on unchanged.
pub proof fn device_prefix_round_trips(device: Seq<char>, capability: Seq<char>, name: Seq<char>)
    ensures
        prefixed(device, capability) == device + "_"@ + capability,
        strip_device_prefix(device, prefixed(device, capability)) == capability,
        !crate::text::starts_with_seq(name, device + "_"@) ==> strip_device_prefix(device, name) == name,
{
    let p = device + "_"@;
    let full = prefixed(device, capability);
    assert(full =~= p + capability);
    assert(full.subrange(0, p.len() as int) =~= p);
    assert(crate::text::starts_with_seq(full, p));
    assert(full.subrange(p.len() as int, full.len() as int) =~= capability);
}

} // verus!
