//! The registry of tool definitions published to the model, and the native
//! tools whose logic is the library's own: `ping`, `remember`,
//! `current_time` and `execute_command`.
use vstd::prelude::*;
use crate::llm::{ToolDefinition, ToolOutcome};
use crate::ports::{Computer, ComputerError, LocalDateTime, MemoryError, MemoryStore, WallClock};
use crate::text::{push_str, push_char, push_decimal, decimal_seq, is_blank, is_blank_seq, str_eq, char_from_digit, digit_char};

verus! {

/// Tool definitions in registration order, one per name: registering a
/// name again replaces its definition in place, so the list the model sees
/// keeps the same order on every turn.
pub struct ToolRegistry {
    tools: Vec<ToolDefinition>,
}

impl ToolRegistry {
    /// The registered names, in order.
    pub closed spec fn names(&self) -> Seq<Seq<char>> {
        self.tools@.map_values(|t: ToolDefinition| t.name@)
    }

    /// The registered definitions, in order.
    pub closed spec fn definitions_view(&self) -> Seq<ToolDefinition> {
        self.tools@
    }

    /// No name is registered twice.
    pub open spec fn wf(&self) -> bool {
        forall|i: int, j: int| 0 <= i < j < self.names().len() ==> self.names()[i] != self.names()[j]
    }

    pub fn new() -> (r: Self)
        ensures
            r.wf(),
            r.names().len() == 0,
    {
        let r = ToolRegistry { tools: Vec::new() };
        assert(r.names() =~= Seq::<Seq<char>>::empty());
        r
    }

    /// Registers `definition`, replacing the one with the same name if any.
    pub fn register(&mut self, definition: ToolDefinition)
        requires
            old(self).wf(),
        ensures
            final(self).wf(),
            old(self).names().contains(definition.name@) ==> {
                &&& final(self).names() == old(self).names()
                &&& forall|i: int| 0 <= i < old(self).names().len() ==> #[trigger] final(self).definitions_view()[i] == if old(self).names()[i] == definition.name@ {
                    definition
                } else {
                    old(self).definitions_view()[i]
                }
            },
            !old(self).names().contains(definition.name@) ==> final(self).definitions_view() == old(self).definitions_view().push(definition)
                && final(self).names() == old(self).names().push(definition.name@),
    {
        let ghost old_names = self.names();
        let mut i: usize = 0;
        while i < self.tools.len()
            invariant
                i <= self.tools@.len(),
                self.wf(),
                *self == *old(self),
                old_names == old(self).names(),
                forall|k: int| 0 <= k < i ==> self.tools@[k].name@ != definition.name@,
            decreases self.tools@.len() - i,
        {
            if str_eq(self.tools[i].name.as_str(), definition.name.as_str()) {
                let ghost before = self.tools@;
                let ghost d = definition;
                self.tools.set(i, definition);
                proof {
                    assert(before[i as int].name@ == d.name@);
                    assert(old_names[i as int] == d.name@);
                    assert(old_names.contains(d.name@));
                    assert(self.tools@ == before.update(i as int, d));
                    assert forall|k: int| 0 <= k < old_names.len() implies #[trigger] self.names()[k] == old_names[k] by {
                        assert(old_names[k] == before[k].name@);
                    }
                    assert(self.names() =~= old_names);
                    assert forall|k: int| 0 <= k < old_names.len() implies #[trigger] self.definitions_view()[k] == if old_names[k] == d.name@ {
                        d
                    } else {
                        before[k]
                    } by {
                        assert(old_names[k] == before[k].name@);
                        assert(old_names[i as int] == d.name@);
                    }
                }
                return;
            }
            i = i + 1;
        }
        let ghost before = self.tools@;
        self.tools.push(definition);
        proof {
            assert(self.names() =~= old_names.push(definition.name@));
            assert(!old_names.contains(definition.name@)) by {
                if old_names.contains(definition.name@) {
                    let k = choose|k: int| 0 <= k < old_names.len() && old_names[k] == definition.name@;
                    assert(before[k].name@ == definition.name@);
                }
            }
        }
    }

    /// The definition registered under `name`.
    pub fn get(&self, name: &str) -> (r: Option<&ToolDefinition>)
        ensures
            match r {
                Some(d) => d.name@ == name@ && self.definitions_view().contains(*d),
                None => !self.names().contains(name@),
            },
    {
        let mut i: usize = 0;
        while i < self.tools.len()
            invariant
                i <= self.tools@.len(),
                forall|k: int| 0 <= k < i ==> self.tools@[k].name@ != name@,
            decreases self.tools@.len() - i,
        {
            if str_eq(self.tools[i].name.as_str(), name) {
                assert(self.definitions_view()[i as int] == self.tools@[i as int]);
                return Some(&self.tools[i]);
            }
            i = i + 1;
        }
        proof {
            if self.names().contains(name@) {
                let k = choose|k: int| 0 <= k < self.names().len() && self.names()[k] == name@;
                assert(self.tools@[k].name@ == name@);
            }
        }
        None
    }

    /// The registered definitions as a slice, in registration order.
    pub fn as_slice(&self) -> (r: &[ToolDefinition])
        ensures
            r@ == self.definitions_view(),
    {
        self.tools.as_slice()
    }

    /// Every definition, in registration order.
    pub fn definitions(&self) -> (r: Vec<&ToolDefinition>)
        ensures
            r@.len() == self.definitions_view().len(),
            forall|i: int| 0 <= i < r@.len() ==> *(#[trigger] r@[i]) == self.definitions_view()[i],
    {
        let mut r: Vec<&ToolDefinition> = Vec::new();
        let mut i: usize = 0;
        while i < self.tools.len()
            invariant
                i <= self.tools@.len(),
                r@.len() == i,
                forall|k: int| 0 <= k < i ==> *(#[trigger] r@[k]) == self.tools@[k],
            decreases self.tools@.len() - i,
        {
            r.push(&self.tools[i]);
            i = i + 1;
        }
        r
    }
}

/// Proves the dispatcher routes between tools. Takes no arguments.
#[derive(Default)]
pub struct PingTool;

impl PingTool {
    pub fn new() -> PingTool {
        PingTool
    }

    pub fn execute(&mut self) -> (s: String)
        ensures
            s@ == "pong"@,
    {
        "pong".to_owned()
    }
}

impl crate::dispatch::NativeTool for PingTool {
    /// Always `pong`, as an outcome that changes nothing.
    open spec fn spec_answers(&self, arguments: &str, r: &Result<ToolOutcome, crate::dispatch::ToolDispatcherError>) -> bool {
        r matches Ok(o) && o.text@ == "pong"@ && !o.mutated && o.images@.len() == 0
    }

    /// Takes no arguments: whatever was passed is ignored. Always answers
    /// `pong`, as an outcome that changes nothing.
    fn run(&mut self, arguments: &str) -> (r: Result<ToolOutcome, crate::dispatch::ToolDispatcherError>)
        ensures
            r matches Ok(o) && o.text@ == "pong"@ && !o.mutated && o.images@.len() == 0,
    {
        Ok(ToolOutcome::from_text(self.execute()))
    }

    /// The tool reads no computer context: always empty.
    fn context(&mut self) -> (r: Result<String, crate::dispatch::ToolDispatcherError>)
        ensures
            r matches Ok(c) && c@.len() == 0,
    {
        Ok(String::new())
    }
}

/// The arguments of `remember`.
#[derive(Debug, Clone)]
pub struct RememberArgs {
    /// A short name for the fact.
    pub key: String,
    /// The value to remember for that key.
    pub value: String,
}

/// Lets the model persist a durable fact the user shared.
pub struct RememberTool<S: MemoryStore> {
    store: S,
}

impl<S: MemoryStore> RememberTool<S> {
    /// The store facts are kept in.
    pub closed spec fn spec_store(&self) -> S {
        self.store
    }

    pub fn new(store: S) -> (r: Self)
        ensures
            r.spec_store() == store,
    {
        RememberTool { store }
    }

    /// All facts currently in the store.
    pub fn facts(&mut self) -> Vec<(String, String)> {
        self.store.facts()
    }

    /// Stores `key` = `value` and confirms it; a store failure is returned
    /// as is.
    pub fn execute(&mut self, args: RememberArgs) -> (r: Result<String, MemoryError>)
        ensures
            exists|res: Result<(), MemoryError>| #[trigger] old(self).spec_store().spec_remembers(args.key, args.value, &res)
                && match res {
                Ok(_) => r matches Ok(t) && t@ == "Recordado: "@ + args.key@ + " = "@ + args.value@,
                Err(e) => r == Err::<String, MemoryError>(e),
            },
    {
        let key = args.key.clone();
        let value = args.value.clone();
        let answer = self.store.remember(key, value);
        assert(old(self).spec_store().spec_remembers(args.key, args.value, &answer));
        match answer {
            Ok(()) => {},
            Err(e) => return Err(e),
        }
        let mut s = "Recordado: ".to_owned();
        push_str(&mut s, args.key.as_str());
        push_str(&mut s, " = ");
        push_str(&mut s, args.value.as_str());
        Ok(s)
    }
}

/// The Spanish name of month `m` (1 to 12).
pub open spec fn month_name(m: int) -> Seq<char> {
    if m == 1 { "enero"@ }
    else if m == 2 { "febrero"@ }
    else if m == 3 { "marzo"@ }
    else if m == 4 { "abril"@ }
    else if m == 5 { "mayo"@ }
    else if m == 6 { "junio"@ }
    else if m == 7 { "julio"@ }
    else if m == 8 { "agosto"@ }
    else if m == 9 { "septiembre"@ }
    else if m == 10 { "octubre"@ }
    else if m == 11 { "noviembre"@ }
    else { "diciembre"@ }
}

fn month_text(m: u32) -> (s: &'static str)
    ensures
        s@ == month_name(if m == 0 { 1 } else if m > 12 { 12 } else { m as int }),
{
    match m {
        0 | 1 => "enero",
        2 => "febrero",
        3 => "marzo",
        4 => "abril",
        5 => "mayo",
        6 => "junio",
        7 => "julio",
        8 => "agosto",
        9 => "septiembre",
        10 => "octubre",
        11 => "noviembre",
        _ => "diciembre",
    }
}

/// `n` in decimal, zero-padded to at least two digits (`{:02}`).
pub open spec fn two_digits(n: nat) -> Seq<char> {
    if n < 10 { seq!['0', digit_char(n)] } else { decimal_seq(n) }
}

/// A year as `%Y` writes it: four digits, zero-padded, for years 0 to
/// 9999; otherwise its sign and at least four digits.
pub open spec fn year_text(y: int) -> Seq<char> {
    if 0 <= y <= 9999 {
        seq![digit_char((y / 1000) as nat), digit_char((y / 100 % 10) as nat), digit_char((y / 10 % 10) as nat), digit_char((y % 10) as nat)]
    } else if y < 0 {
        "-"@ + padded4((-y) as nat)
    } else {
        "+"@ + padded4(y as nat)
    }
}

/// `n` in decimal, zero-padded to at least four digits.
pub open spec fn padded4(n: nat) -> Seq<char> {
    if n < 10 { "000"@ + decimal_seq(n) }
    else if n < 100 { "00"@ + decimal_seq(n) }
    else if n < 1000 { "0"@ + decimal_seq(n) }
    else { decimal_seq(n) }
}

/// The sentence `current_time` answers with.
pub open spec fn time_sentence(now: LocalDateTime) -> Seq<char> {
    "Son las "@ + two_digits(now.hour as nat) + ":"@ + two_digits(now.minute as nat) + " del "@
        + decimal_seq(now.day as nat) + " de "@
        + month_name(if now.month == 0 { 1 } else if now.month > 12 { 12 } else { now.month as int }) + " de "@
        + year_text(now.year as int) + "."@
}

fn push_two_digits(s: &mut String, n: u32)
    ensures
        final(s)@ == old(s)@ + two_digits(n as nat),
{
    let ghost start = s@;
    if n < 10 {
        push_char(s, '0');
    }
    push_decimal(s, n as u64);
    assert(s@ =~= start + two_digits(n as nat));
}

fn push_padded4(s: &mut String, n: u64)
    ensures
        final(s)@ == old(s)@ + padded4(n as nat),
{
    let ghost start = s@;
    if n < 10 {
        push_str(s, "000");
    } else if n < 100 {
        push_str(s, "00");
    } else if n < 1000 {
        push_str(s, "0");
    }
    push_decimal(s, n);
    assert(s@ =~= start + padded4(n as nat));
}

/// The current local date and time as a Spanish sentence.
pub fn format_time(now: LocalDateTime) -> (s: String)
    ensures
        s@ == time_sentence(now),
{
    let mut s = "Son las ".to_owned();
    push_two_digits(&mut s, now.hour);
    push_str(&mut s, ":");
    push_two_digits(&mut s, now.minute);
    push_str(&mut s, " del ");
    push_decimal(&mut s, now.day as u64);
    push_str(&mut s, " de ");
    push_str(&mut s, month_text(now.month));
    push_str(&mut s, " de ");
    let y = now.year;
    if 0 <= y && y <= 9999 {
        let u = y as u32;
        push_char(&mut s, char_from_digit(u / 1000));
        push_char(&mut s, char_from_digit(u / 100 % 10));
        push_char(&mut s, char_from_digit(u / 10 % 10));
        push_char(&mut s, char_from_digit(u % 10));
    } else if y < 0 {
        push_str(&mut s, "-");
        let m: u64 = (-(y as i64)) as u64;
        push_padded4(&mut s, m);
    } else {
        push_str(&mut s, "+");
        push_padded4(&mut s, y as u64);
    }
    push_str(&mut s, ".");
    s
}

/// The arguments of `current_time`: none.
#[derive(Debug, Clone, Copy, Default)]
pub struct CurrentTimeArgs {}

/// Tells the model the current local date and time.
pub struct CurrentTimeTool<C: WallClock> {
    clock: C,
}

impl<C: WallClock> CurrentTimeTool<C> {
    /// The clock the tool reads.
    pub closed spec fn spec_clock(&self) -> C {
        self.clock
    }

    pub fn new(clock: C) -> (r: Self)
        ensures
            r.spec_clock() == clock,
    {
        CurrentTimeTool { clock }
    }

    /// The current time as a sentence, for whatever time the clock reads;
    /// it always succeeds.
    pub fn execute(&mut self) -> (r: Option<String>)
        ensures
            r matches Some(t) && exists|now: LocalDateTime| t@ == #[trigger] time_sentence(now),
    {
        let now = self.clock.now_local();
        Some(format_time(now))
    }
}

impl<C: WallClock> crate::dispatch::NativeTool for CurrentTimeTool<C> {
    /// Always the time sentence of some clock reading, as an outcome that
    /// changes nothing.
    open spec fn spec_answers(&self, arguments: &str, r: &Result<ToolOutcome, crate::dispatch::ToolDispatcherError>) -> bool {
        r matches Ok(o) && !o.mutated && o.images@.len() == 0
            && exists|now: LocalDateTime| o.text@ == #[trigger] time_sentence(now)
    }

    /// Takes no arguments: whatever was passed is ignored. Always answers
    /// with the time, as an outcome that changes nothing.
    fn run(&mut self, arguments: &str) -> (r: Result<ToolOutcome, crate::dispatch::ToolDispatcherError>)
        ensures
            r matches Ok(o) && !o.mutated && o.images@.len() == 0
                && exists|now: LocalDateTime| o.text@ == #[trigger] time_sentence(now),
    {
        match self.execute() {
            Some(text) => Ok(ToolOutcome::from_text(text)),
            None => Err(crate::dispatch::ToolDispatcherError::ToolExecuteError("the clock reported no time".to_owned())),
        }
    }

    /// The tool reads no computer context: always empty.
    fn context(&mut self) -> (r: Result<String, crate::dispatch::ToolDispatcherError>)
        ensures
            r matches Ok(c) && c@.len() == 0,
    {
        Ok(String::new())
    }
}

/// What `Duration::from_secs` makes of `n`.
pub uninterp spec fn duration_from_secs(n: u64) -> std::time::Duration;

/// A duration of `n` whole seconds (`Duration::from_secs`).
#[verifier::external_body]
pub(crate) fn seconds(n: u64) -> (d: std::time::Duration)
    ensures
        d == duration_from_secs(n),
{
    std::time::Duration::from_secs(n)
}

/// The text a command's output becomes.
pub open spec fn command_report(output: Seq<char>) -> Seq<char> {
    if is_blank_seq(output) {
        "Command executed, no output. This confirms the command ran; it does not confirm the requested outcome happened on screen. Verify with a screenshot before answering."@
    } else {
        "Command executed. Output: "@ + output + "\n\nThis confirms the command ran; it does not confirm the requested outcome happened on screen. Verify with a screenshot before answering."@
    }
}

/// The text of a context reading, when it succeeded.
pub open spec fn context_text(r: Result<String, ComputerError>) -> Option<Seq<char>> {
    match r {
        Ok(c) => Some(c@),
        Err(_) => None,
    }
}

/// The command's report with the computer's state before and after it
/// attached as evidence, when both could be read.
pub open spec fn with_evidence(report: Seq<char>, before: Option<Seq<char>>, after: Option<Seq<char>>) -> Seq<char> {
    match (before, after) {
        (Some(b), Some(a)) => if b != a {
            report + "\n\nState before:\n"@ + b + "\n\nState after:\n"@ + a
        } else {
            report + "\n\nState unchanged:\n"@ + a
        },
        _ => report,
    }
}

pub fn attach_evidence(report: String, before: Option<String>, after: Option<String>) -> (s: String)
    ensures
        s@ == with_evidence(
            report@,
            match before { Some(b) => Some(b@), None => None },
            match after { Some(a) => Some(a@), None => None },
        ),
{
    match (before, after) {
        (Some(b), Some(a)) => {
            let mut s = report;
            if b != a {
                push_str(&mut s, "\n\nState before:\n");
                push_str(&mut s, b.as_str());
                push_str(&mut s, "\n\nState after:\n");
                push_str(&mut s, a.as_str());
            } else {
                push_str(&mut s, "\n\nState unchanged:\n");
                push_str(&mut s, a.as_str());
            }
            s
        },
        _ => report,
    }
}

/// The arguments of `execute_command`.
#[derive(Debug, Clone)]
pub struct ExecuteCommandArgs {
    /// The command to run in the operating system shell.
    pub command: String,
}

/// Runs shell commands on the user's computer.
pub struct ExecuteCommandTool<C: Computer> {
    pub computer: C,
    pub timeout: std::time::Duration,
}

impl<C: Computer> ExecuteCommandTool<C> {
    /// A tool with the default 30-second timeout.
    pub fn new(computer: C) -> (r: Self)
        ensures
            r.computer == computer,
            r.timeout == duration_from_secs(30),
    {
        ExecuteCommandTool { computer, timeout: seconds(30) }
    }

    pub fn with_timeout(computer: C, timeout: std::time::Duration) -> (r: Self)
        ensures
            r.computer == computer,
            r.timeout == timeout,
    {
        ExecuteCommandTool { computer, timeout }
    }

    /// Runs `args.command` and reports its output; a failure is returned as is.
    pub fn execute(&mut self, args: ExecuteCommandArgs) -> (r: Result<String, ComputerError>)
        ensures
            r matches Ok(t) ==> exists|out: Seq<char>| t@ == #[trigger] command_report(out),
            exists|command: &str, res: Result<String, ComputerError>|
                command@ == args.command@ && #[trigger] old(self).computer.spec_executes(command, old(self).timeout, &res)
                    && match res {
                    Ok(out) => r matches Ok(t) && t@ == command_report(out@),
                    Err(e) => r == Err::<String, ComputerError>(e),
                },
    {
        let command = args.command.as_str();
        let result = self.computer.execute_command(command, self.timeout);
        assert(old(self).computer.spec_executes(command, old(self).timeout, &result));
        let output = match result {
            Ok(o) => o,
            Err(e) => return Err(e),
        };
        Ok(report_command_output(output.as_str()))
    }

    /// The computer's context as text, as the computer reads it.
    pub fn context(&mut self) -> (r: Result<String, ComputerError>)
        ensures
            old(self).computer.spec_context(&r),
            final(self).timeout == old(self).timeout,
    {
        self.computer.get_context()
    }

    /// Runs the command with the computer's context read before and after
    /// it, attaching both as evidence of the effect (when both could be
    /// read); the outcome is marked as mutating.
    pub fn run_with_evidence(&mut self, args: ExecuteCommandArgs) -> (r: Result<ToolOutcome, ComputerError>)
        ensures
            r matches Ok(o) ==> o.mutated && o.images@.len() == 0,
            exists|before: Result<String, ComputerError>, at: C, command: &str, res: Result<String, ComputerError>|
                #![trigger old(self).computer.spec_context(&before), at.spec_executes(command, old(self).timeout, &res)]
                old(self).computer.spec_context(&before) && command@ == args.command@
                    && at.spec_executes(command, old(self).timeout, &res) && match res {
                    Ok(out) => r matches Ok(o) && exists|later: C, after: Result<String, ComputerError>|
                        #[trigger] later.spec_context(&after)
                            && o.text@ == with_evidence(command_report(out@), context_text(before), context_text(after)),
                    Err(e) => r == Err::<ToolOutcome, ComputerError>(e),
                },
    {
        let ghost first = self.computer;
        let read_before = self.computer.get_context();
        let ghost before_reading = read_before;
        let before = match read_before {
            Ok(c) => Some(c),
            Err(_) => None,
        };
        let ghost running = self.computer;
        let command = args.command.as_str();
        let result = self.computer.execute_command(command, self.timeout);
        let ghost result_reading = result;
        assert(running.spec_executes(command, old(self).timeout, &result_reading));
        let output = match result {
            Ok(o) => o,
            Err(e) => return Err(e),
        };
        let report = report_command_output(output.as_str());
        let ghost last = self.computer;
        let read_after = self.computer.get_context();
        let ghost after_reading = read_after;
        assert(last.spec_context(&after_reading));
        let after = match read_after {
            Ok(c) => Some(c),
            Err(_) => None,
        };
        let text = attach_evidence(report, before, after);
        Ok(ToolOutcome { text, images: Vec::new(), mutated: true })
    }

    /// The tool's definition: its name, the computer's and shell's
    /// descriptions, and the argument schema.
    pub fn definition(&self, parameters: serde_json::Value) -> (d: ToolDefinition)
        ensures
            d.name@ == "execute_command"@,
            d.parameters == parameters,
            exists|system: Seq<char>, shell: Seq<char>| d.description@ == #[trigger] (system + " "@ + shell),
    {
        let system = self.computer.system_description();
        let shell = self.computer.process_description();
        let mut description = system.to_owned();
        push_str(&mut description, " ");
        push_str(&mut description, shell);
        assert(description@ == system@ + " "@ + shell@);
        ToolDefinition { name: "execute_command".to_owned(), description, parameters }
    }
}

/// Opens an application by running its name as a command; its output is
/// not needed, a failure is returned as is.
pub fn open_application<C: Computer>(computer: &mut C, name: &str) -> (r: Result<(), ComputerError>)
    ensures
        exists|res: Result<String, ComputerError>| #[trigger] old(computer).spec_executes(name, duration_from_secs(30), &res)
            && match res {
            Ok(_) => r is Ok,
            Err(e) => r == Err::<(), ComputerError>(e),
        },
{
    let result = computer.execute_command(name, seconds(30));
    assert(old(computer).spec_executes(name, duration_from_secs(30), &result));
    match result {
        Ok(_) => Ok(()),
        Err(e) => Err(e),
    }
}

/// What a command's output is reported as.
pub fn report_command_output(output: &str) -> (s: String)
    ensures
        s@ == command_report(output@),
{
    if is_blank(output) {
        "Command executed, no output. This confirms the command ran; it does not confirm the requested outcome happened on screen. Verify with a screenshot before answering.".to_owned()
    } else {
        let mut s = "Command executed. Output: ".to_owned();
        push_str(&mut s, output);
        push_str(&mut s, "\n\nThis confirms the command ran; it does not confirm the requested outcome happened on screen. Verify with a screenshot before answering.");
        s
    }
}

/// Hours and minutes are always written with two digits: a number below
/// ten gets a leading zero, and the two digits read back as the number.
pub proof fn two_digit_fields_read_back(n: nat)
    requires
        n < 100,
    ensures
        two_digits(n).len() == 2,
        two_digits(n)[0] == digit_char(n / 10),
        two_digits(n)[1] == digit_char(n % 10),
{
    if n >= 10 {
        assert(decimal_seq(n / 10) == seq![digit_char(n / 10)]);
    }
}

/// Each month from 1 to 12 has its own Spanish name, in calendar order.
pub proof fn months_have_their_own_names(m: int)
    requires
        1 <= m <= 12,
    ensures
        (month_name(m) == "enero"@) == (m == 1),
        (month_name(m) == "febrero"@) == (m == 2),
        (month_name(m) == "marzo"@) == (m == 3),
        (month_name(m) == "abril"@) == (m == 4),
        (month_name(m) == "mayo"@) == (m == 5),
        (month_name(m) == "junio"@) == (m == 6),
        (month_name(m) == "julio"@) == (m == 7),
        (month_name(m) == "agosto"@) == (m == 8),
        (month_name(m) == "septiembre"@) == (m == 9),
        (month_name(m) == "octubre"@) == (m == 10),
        (month_name(m) == "noviembre"@) == (m == 11),
        (month_name(m) == "diciembre"@) == (m == 12),
{
    reveal_strlit("enero");
    reveal_strlit("febrero");
    reveal_strlit("marzo");
    reveal_strlit("abril");
    reveal_strlit("mayo");
    reveal_strlit("junio");
    reveal_strlit("julio");
    reveal_strlit("agosto");
    reveal_strlit("septiembre");
    reveal_strlit("octubre");
    reveal_strlit("noviembre");
    reveal_strlit("diciembre");
    assert("enero"@[0] != "febrero"@[0]);
    assert("junio"@[2] != "julio"@[2]);
    assert("enero"@.len() == 5 && "marzo"@.len() == 5 && "abril"@.len() == 5 && "junio"@.len() == 5 && "julio"@.len() == 5);
    assert("mayo"@.len() == 4 && "febrero"@.len() == 7 && "octubre"@.len() == 7);
    assert("agosto"@.len() == 6 && "septiembre"@.len() == 10 && "noviembre"@.len() == 9 && "diciembre"@.len() == 9);
    assert("enero"@[0] != "marzo"@[0] && "enero"@[0] != "abril"@[0] && "enero"@[0] != "junio"@[0]);
    assert("marzo"@[0] != "abril"@[0] && "marzo"@[0] != "junio"@[0] && "abril"@[0] != "junio"@[0]);
    assert("febrero"@[0] != "octubre"@[0]);
    assert("noviembre"@[0] != "diciembre"@[0]);
}

/// A command's report carries its whole output, right after
/// `Command executed. Output: `, whenever there is any; an output of only
/// whitespace is reported the same way as no output at all.
pub proof fn a_report_carries_the_output(out: Seq<char>, other: Seq<char>)
    ensures
        !is_blank_seq(out) ==> command_report(out).subrange(0, 26) == "Command executed. Output: "@
            && command_report(out).subrange(26, 26 + out.len() as int) == out,
        (is_blank_seq(out) && is_blank_seq(other)) ==> command_report(out) == command_report(other),
{
    if !is_blank_seq(out) {
        reveal_strlit("Command executed. Output: ");
        let h = "Command executed. Output: "@;
        assert(h.len() == 26);
        let r = command_report(out);
        assert(r.subrange(0, 26) =~= h);
        assert(r.subrange(26, 26 + out.len() as int) =~= out);
    }
}

/// The evidence attached to a command's report: both readings when the
/// state changed, one reading marked unchanged when it did not, and none
/// when either reading failed.
pub proof fn evidence_shows_what_changed(report: Seq<char>, before: Seq<char>, after: Seq<char>, x: Option<Seq<char>>)
    ensures
        with_evidence(report, None, x) == report,
        with_evidence(report, x, None) == report,
        before != after ==> with_evidence(report, Some(before), Some(after))
            == report + "\n\nState before:\n"@ + before + "\n\nState after:\n"@ + after,
        with_evidence(report, Some(after), Some(after)) == report + "\n\nState unchanged:\n"@ + after,
{
}

} // verus!
