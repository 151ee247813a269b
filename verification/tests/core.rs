use nala::dispatch::NativeTool;
use nala::tools::{CurrentTimeTool, PingTool};
use nala::ports::WallClock;
use nala::bootstrap::legacy_mcp_server;
use nala::context_budget::{drop_oldest_until_fits, evict_images, truncate_long_tool_results, ContextBudget, TokenCounter};
use nala::llm::{system_message, tool_result_message, user_message, Message, ToolDefinition, ToolOutcome};
use nala::memory::Facts;
use nala::metrics::{report_counts, tally, LlmCallLine, TaskLine, ToolCallLine};
use nala::narration::{tool_phrase_bank, Narrator, PhraseBank, TemplateNarrator};
use nala::device::TurnState;
use nala::events::Event;
use nala::ports::LocalDateTime;
use nala::prompts::compact_split;
use nala::text::parse_decimal;
use nala::tools::{attach_evidence, format_time, report_command_output, ToolRegistry};
use nala::transcript::{Transcript, MAX_HISTORY_MESSAGES};
use nala::turn::{retry_delay_ms, LoopLimits};
use nala::llm::LlmError;
use nala::weather::{describe_weather_code, geocoding_url};

fn definition(name: &str, description: &str) -> ToolDefinition {
    ToolDefinition {
        name: name.to_string(),
        description: description.to_string(),
        parameters: serde_json::Value::Null,
    }
}

#[test]
fn the_transcript_keeps_the_system_prompt_and_the_most_recent_messages() {
    let mut transcript = Transcript::new(system_message("sys".to_string()));
    for i in 0..25 {
        transcript.push(user_message(&format!("m{i}")));
    }
    assert_eq!(transcript.len(), MAX_HISTORY_MESSAGES + 1);
    assert_eq!(transcript.system_prompt(), Some("sys"));
    let snapshot = transcript.snapshot();
    assert_eq!(snapshot[1].content, "m5");
    assert_eq!(snapshot[20].content, "m24");
    assert!(!transcript.is_empty());
}

#[test]
fn a_transcript_not_starting_with_a_system_message_has_no_system_prompt() {
    let transcript = Transcript::new(user_message("hi"));
    assert_eq!(transcript.system_prompt(), None);
}

#[test]
fn remembering_replaces_and_keeps_keys_sorted() {
    let mut facts = Facts::new();
    assert!(facts.is_empty());
    facts.remember("nombre".to_string(), "Juan".to_string());
    facts.remember("ciudad".to_string(), "Lima".to_string());
    facts.remember("nombre".to_string(), "Ana".to_string());
    let pairs: Vec<(String, String)> = facts.iter().to_vec();
    assert_eq!(
        pairs,
        vec![("ciudad".to_string(), "Lima".to_string()), ("nombre".to_string(), "Ana".to_string())]
    );
}

#[test]
fn the_json_form_does_not_depend_on_the_order_facts_were_remembered_in() {
    let mut a = Facts::new();
    a.remember("b".to_string(), "2".to_string());
    a.remember("a".to_string(), "1".to_string());
    let mut b = Facts::new();
    b.remember("a".to_string(), "1".to_string());
    b.remember("b".to_string(), "2".to_string());
    assert_eq!(a.to_json(), b.to_json());
    assert_eq!(a.to_json(), "{\n  \"a\": \"1\",\n  \"b\": \"2\"\n}");
}

#[test]
fn parsing_facts_tolerates_anything_that_is_not_an_object_of_strings() {
    assert!(Facts::parse("").is_empty());
    assert!(Facts::parse("   ").is_empty());
    assert!(Facts::parse("not json").is_empty());
    assert!(Facts::parse("{\"a\": 1}").is_empty());
    let facts = Facts::parse("{\"nombre\": \"Juan\"}");
    assert_eq!(facts.iter().to_vec(), vec![("nombre".to_string(), "Juan".to_string())]);
    assert_eq!(Facts::parse(&facts.to_json()).to_json(), facts.to_json());
}

#[test]
fn narration_rotates_phrases_and_never_repeats_a_category_in_a_row() {
    let mut narrator = TemplateNarrator::new();
    let thinking = Event::StateChanged { state: TurnState::Thinking };
    let first = narrator.narrate(&thinking);
    assert_eq!(first, Some("Déjame pensar un momento.".to_string()));
    assert_eq!(narrator.narrate(&thinking), None);
    let tool = Event::ToolStarted { name: "execute_command".to_string(), arguments: "{}".to_string() };
    assert_eq!(narrator.narrate(&tool), Some("Voy a ejecutar un comando.".to_string()));
    assert_eq!(
        narrator.narrate(&thinking),
        Some("Estoy revisando la mejor forma de hacerlo.".to_string())
    );
    assert_eq!(narrator.narrate(&Event::StateChanged { state: TurnState::Executing }), None);
    assert_eq!(narrator.narrate(&Event::RequestStarted), None);
}

#[test]
fn a_failed_tool_is_narrated_but_a_successful_one_is_not() {
    let mut narrator = TemplateNarrator::new();
    let failed = Event::ToolCompleted {
        name: "x".to_string(),
        duration: std::time::Duration::from_millis(5),
        output: "ERROR: tool not found".to_string(),
        images: 0,
    };
    assert_eq!(narrator.narrate(&failed), Some("Eso falló, voy a intentar otra cosa.".to_string()));
    let ok = Event::ToolCompleted {
        name: "x".to_string(),
        duration: std::time::Duration::from_millis(5),
        output: "fine".to_string(),
        images: 0,
    };
    assert_eq!(narrator.narrate(&ok), None);
}

#[test]
fn unknown_tools_use_the_generic_phrases() {
    assert_eq!(tool_phrase_bank("click"), PhraseBank::Click);
    assert_eq!(tool_phrase_bank("frobnicate"), PhraseBank::ToolGeneric);
}

#[test]
fn the_legacy_server_comes_from_the_environment_values() {
    let server = legacy_mcp_server(Some("on"), Some("  npx -y  server-one "), Some(" a, b ,c")).unwrap();
    assert_eq!(server.name, "legacy-env");
    assert_eq!(server.command, "npx");
    assert_eq!(server.args, vec!["-y".to_string(), "server-one".to_string()]);
    assert_eq!(server.tools, Some(vec!["a".to_string(), "b".to_string(), "c".to_string()]));
    assert_eq!(legacy_mcp_server(Some("off"), Some("npx"), None), None);
    assert_eq!(legacy_mcp_server(Some("on"), Some("   "), None), None);
    assert_eq!(legacy_mcp_server(Some("on"), None, None), None);
    assert_eq!(legacy_mcp_server(Some("on"), Some("python"), None).unwrap().tools, None);
}

#[test]
fn numbers_parse_as_str_parse_reads_them() {
    assert_eq!(parse_decimal("42", 100), Some(42));
    assert_eq!(parse_decimal("+7", 100), Some(7));
    assert_eq!(parse_decimal("101", 100), None);
    assert_eq!(parse_decimal("", 100), None);
    assert_eq!(parse_decimal("+", 100), None);
    assert_eq!(parse_decimal("-1", 100), None);
    assert_eq!(parse_decimal(" 1", 100), None);
    assert_eq!(parse_decimal("18446744073709551615", u64::MAX), Some(u64::MAX));
    assert_eq!(parse_decimal("18446744073709551616", u64::MAX), None);
}

#[test]
fn limits_overrides_keep_the_default_when_a_value_does_not_parse() {
    let limits = LoopLimits::with_overrides(Some("10"), Some("x"), None, Some("0"));
    assert_eq!(limits.max_tool_calls, 10);
    assert_eq!(limits.max_identical_repeats, 3);
    assert_eq!(limits.max_consecutive_tool_failures, 5);
    assert_eq!(limits.max_llm_retries, 0);
    assert_eq!(limits.retry_base_delay_ms, 250);
    assert!(limits.fits_machine());
    assert_eq!(ContextBudget::with_max_tokens(Some("4096")).max_tokens, 4096);
    assert_eq!(ContextBudget::with_max_tokens(Some("lots")).max_tokens, 8192);
}

#[test]
fn the_backoff_doubles_each_retry() {
    let limits = LoopLimits::default();
    let failed = LlmError::RequestFailed("x".to_string());
    assert_eq!(retry_delay_ms(&failed, 0, &limits), Some(250));
    assert_eq!(retry_delay_ms(&failed, 2, &limits), Some(1000));
    assert_eq!(retry_delay_ms(&failed, 3, &limits), None);
    assert_eq!(retry_delay_ms(&LlmError::InvalidResponse("x".to_string()), 0, &limits), None);
}

#[test]
fn the_available_budget_never_goes_below_zero() {
    assert_eq!(ContextBudget::default().available_tokens(), 7168);
    let mut tight = ContextBudget::default();
    tight.output_reserve = 10_000;
    assert_eq!(tight.available_tokens(), 0);
}

fn with_images(n: usize) -> Message {
    let mut m = tool_result_message("screenshot".to_string(), ToolOutcome::from_text("shot".to_string()));
    m.images = (0..n).map(|i| format!("img{i}")).collect();
    m
}

#[test]
fn old_images_are_stripped_but_the_most_recent_are_kept() {
    let mut messages = vec![with_images(1), with_images(2), with_images(1), with_images(1)];
    let dropped = evict_images(&mut messages, 1, 2);
    assert_eq!(dropped, 2);
    assert_eq!(messages[0].images.len(), 1);
    assert_eq!(messages[1].images.len(), 0);
    assert_eq!(messages[2].images.len(), 1);
    assert_eq!(messages[3].images.len(), 1);
}

#[test]
fn long_tool_results_are_cut_to_a_head_and_tail() {
    let mut messages = vec![
        tool_result_message("t".to_string(), ToolOutcome::from_text("abcdefghij".to_string())),
        tool_result_message("t".to_string(), ToolOutcome::from_text("abcdefghij".to_string())),
        user_message("abcdefghij"),
    ];
    let cut = truncate_long_tool_results(&mut messages, 1, 2, 3);
    assert_eq!(cut, 1);
    assert_eq!(messages[0].content, "abcdefghij");
    assert_eq!(messages[1].content, "ab\n... [truncated] ...\nhij");
    assert_eq!(messages[2].content, "abcdefghij");
}

struct OnePerMessage;

impl TokenCounter for OnePerMessage {
    fn spec_estimate(&self, message: Message) -> usize {
        self.estimate_message(&message)
    }

    fn estimate_message(&self, _message: &Message) -> usize {
        1
    }
}

#[test]
fn the_oldest_evictable_messages_are_dropped_until_the_prompt_fits() {
    let mut messages: Vec<Message> = (0..6).map(|i| user_message(&format!("m{i}"))).collect();
    let dropped = drop_oldest_until_fits(&mut messages, 2, 4, &OnePerMessage);
    assert_eq!(dropped, 2);
    let contents: Vec<String> = messages.iter().map(|m| m.content.clone()).collect();
    assert_eq!(contents, vec!["m0", "m1", "m4", "m5"]);
}

#[test]
fn compaction_splits_before_the_most_recent_messages() {
    assert_eq!(compact_split(10, 6, 2), Some(4));
    assert_eq!(compact_split(7, 6, 2), None);
    assert_eq!(compact_split(3, 6, 0), None);
}

#[test]
fn registering_a_name_again_replaces_it_in_place() {
    let mut registry = ToolRegistry::new();
    registry.register(definition("a", "first"));
    registry.register(definition("b", "second"));
    registry.register(definition("a", "replaced"));
    let names: Vec<String> = registry.definitions().iter().map(|d| d.name.clone()).collect();
    assert_eq!(names, vec!["a", "b"]);
    assert_eq!(registry.get("a").unwrap().description, "replaced");
    assert!(registry.get("c").is_none());
}

#[test]
fn the_time_reads_as_a_spanish_sentence() {
    let now = LocalDateTime { year: 2024, month: 3, day: 5, hour: 9, minute: 7 };
    assert_eq!(format_time(now), "Son las 09:07 del 5 de marzo de 2024.");
    let early = LocalDateTime { year: 33, month: 12, day: 31, hour: 23, minute: 59 };
    assert_eq!(format_time(early), "Son las 23:59 del 31 de diciembre de 0033.");
}

#[test]
fn command_reports_say_what_ran_and_attach_evidence() {
    assert!(report_command_output("  \n").starts_with("Command executed, no output."));
    assert!(report_command_output("ok").starts_with("Command executed. Output: ok\n\n"));
    let report = attach_evidence("R".to_string(), Some("before".to_string()), Some("after".to_string()));
    assert_eq!(report, "R\n\nState before:\nbefore\n\nState after:\nafter");
    let same = attach_evidence("R".to_string(), Some("s".to_string()), Some("s".to_string()));
    assert_eq!(same, "R\n\nState unchanged:\ns");
    assert_eq!(attach_evidence("R".to_string(), None, Some("s".to_string())), "R");
}

#[test]
fn weather_codes_and_geocoding() {
    assert_eq!(describe_weather_code(0), "cielo despejado");
    assert_eq!(describe_weather_code(81), "chubascos");
    assert_eq!(describe_weather_code(42), "condiciones variables");
    assert!(geocoding_url("San José").contains("San%20Jos%C3%A9"));
}

#[test]
fn report_counts_total_and_tally_by_source_and_tool() {
    let tasks = vec![
        TaskLine {
            source: "user".to_string(),
            duration_ms: 100,
            llm_calls: vec![LlmCallLine { input_tokens: Some(10), output_tokens: Some(2) }],
            tool_calls: vec![
                ToolCallLine { name: "ping".to_string(), status: "ok".to_string() },
                ToolCallLine { name: "web_search".to_string(), status: "error".to_string() },
            ],
        },
        TaskLine {
            source: "autonomous".to_string(),
            duration_ms: 300,
            llm_calls: vec![LlmCallLine { input_tokens: None, output_tokens: Some(3) }],
            tool_calls: vec![ToolCallLine { name: "ping".to_string(), status: "ok".to_string() }],
        },
        TaskLine { source: "user".to_string(), duration_ms: 200, llm_calls: vec![], tool_calls: vec![] },
    ];
    let counts = report_counts(&tasks).unwrap();
    assert_eq!(counts.total_tasks, 3);
    assert_eq!(counts.total_input_tokens, 10);
    assert_eq!(counts.total_output_tokens, 5);
    assert_eq!(counts.durations, vec![100, 300, 200]);
    assert_eq!(counts.by_source, vec![("user".to_string(), 2), ("autonomous".to_string(), 1)]);
    assert_eq!(counts.tool_usage, vec![("ping".to_string(), 2), ("web_search".to_string(), 1)]);
    assert_eq!(counts.tool_errors, vec![("web_search".to_string(), 1)]);
    assert_eq!(tally(&vec![]), vec![]);
}

#[test]
fn a_rendered_number_parses_back_to_itself() {
    for n in [0u64, 7, 10, 99, 1234567, u64::MAX] {
        assert_eq!(parse_decimal(&n.to_string(), u64::MAX), Some(n));
    }
}

#[test]
fn an_hour_past_two_digits_is_written_whole() {
    let now = LocalDateTime { year: 2024, month: 3, day: 5, hour: 123, minute: 4 };
    assert_eq!(format_time(now), "Son las 123:04 del 5 de marzo de 2024.");
}

#[test]
fn the_built_in_tools_always_answer() {
    let ping = PingTool::new().run("{}").unwrap();
    assert_eq!(ping.text, "pong");
    assert!(!ping.mutated);
    let mut clock_tool = CurrentTimeTool::new(FixedWallClock);
    let time = clock_tool.run("").unwrap();
    assert_eq!(time.text, "Son las 09:05 del 14 de febrero de 2025.");
    assert!(!time.mutated);
    assert_eq!(clock_tool.context().unwrap(), "");
}

#[test]
fn the_heuristic_counter_charges_length_overhead_and_images() {
    use_heuristic();
}

fn use_heuristic() {
    let counter = nala::context_budget::HeuristicTokenCounter;
    assert_eq!(counter.estimate_message(&user_message("abcdefgh")), 2 + 4);
    let mut shot = tool_result_message("screenshot".to_string(), ToolOutcome::from_text("ok".to_string()));
    shot.images = vec!["a".to_string(), "b".to_string()];
    assert_eq!(counter.estimate_message(&shot), 0 + 4 + 1600);
}

struct FixedWallClock;

impl WallClock for FixedWallClock {
    fn now_local(&self) -> LocalDateTime {
        LocalDateTime { year: 2025, month: 2, day: 14, hour: 9, minute: 5 }
    }
}

#[test]
fn the_backoff_may_be_as_long_as_a_duration_holds() {
    let mut limits = LoopLimits::default();
    limits.retry_base_delay_ms = u64::MAX;
    limits.max_llm_retries = 1;
    assert!(limits.fits_machine());
    limits.max_llm_retries = 2;
    assert!(limits.fits_machine());
    limits.max_llm_retries = 12;
    assert!(!limits.fits_machine());
    limits.retry_base_delay_ms = 1000;
    limits.max_llm_retries = 32;
    assert!(limits.fits_machine());
    limits.max_llm_retries = 33;
    assert!(!limits.fits_machine());
    let failed = LlmError::RequestFailed("x".to_string());
    assert_eq!(retry_delay_ms(&failed, 31, &limits), Some(1000u128 << 31));
}
