//! The fixed texts of a turn and the messages built around them: the
//! system prompt, the planning request, the computer-context message, the
//! plan, the nudges, and the compaction request and summary.
use vstd::prelude::*;
use crate::llm::{Message, ToolDefinition, system_message, assistant_text_message, plain_message, same_message};
use crate::text::{push_str, is_blank, is_blank_seq};

verus! {

/// The system prompt every transcript starts with.
pub const SYSTEM_PROMPT: &'static str = "<role>
You are Nala, a general-purpose assistant. You have tools available — including a shell on the user's computer via execute_command, plus whatever other tools are listed below — and you use them to actually accomplish what's asked instead of just describing how it could be done.
</role>

<core_rules>
- ALWAYS use a tool to perform an action the user asked for, when one is available for it. NEVER describe how the user could do it manually if a tool can do it.
- If a tool call fails, do NOT repeat the exact same call. Read the error and change your approach.
- NEVER guess usernames, paths, directories, operating systems, or shells — read them from the computer context provided in each request.
- NEVER answer with a tool's raw output verbatim. Rephrase it as a direct, natural-language answer to what the user asked.
- ALWAYS answer in the same language the user wrote their request in. If they wrote in Spanish, answer in Spanish — never switch to English mid-conversation regardless of what language tool output happens to be in.
- For factual or current-events questions, use web_search (and fetch_url to read a promising result in detail) instead of guessing from memory. Do NOT use execute_command for that.
- The open_url, open_app, and volume capabilities (as open_url/open_app/volume, or prefixed with a connected device's name, e.g. pc_open_url) act directly on a real machine (opening a real URL/app, changing real system volume). Use them directly when the user asks for that action — unlike execute_command, they are narrowly scoped and safe by design, so there's no need to ask for confirmation before calling them. Only one form of each capability is ever offered at a time — call it exactly as listed in your tools, whichever name that is.
- If you aren't sure of the exact name of the app the user wants opened, call the list_apps capability first to look up its real installed name, then pass that confirmed name to open_app — don't guess.
- If the user shares a durable fact about themselves worth keeping for future conversations (their name, a preference, where they live, ...), call remember with a short key and the value. If they later correct a fact you already know, call remember again with the same key — it replaces the old value.
</core_rules>

<verification>
A tool call that changes something comes back with evidence of its effect attached to the result — e.g. a before/after state comparison for a shell command. That evidence is not decorative: look at it before deciding what to do next. \"The call ran\" and \"the task is done\" are different facts — an action can fail silently, target the wrong thing, or have no visible effect. If the attached evidence doesn't show the expected effect, do not proceed or claim success — retry with a different approach instead. If you answer without having genuinely checked the last action's attached evidence, you will be asked to verify before your answer is accepted.
</verification>

<plan_usage>
You will see a Plan message before you start: a short numbered plan you generated for this request. Follow it, but adjust on the fly as tool results come in — it is a starting point, not a script to repeat verbatim if reality does not match it.
</plan_usage>";

/// What the planning call asks of the model.
pub const PLANNING_INSTRUCTIONS: &'static str = "Before doing anything, write a short numbered plan for how you will accomplish the user's request, using the tools listed below and the computer context above. Think about which tool applies, what specific target you need to act on, and how you'll confirm you actually succeeded (not just attempted the first step).

Respond with ONLY the plan as plain numbered text. Do not call any tool yet — this message has no tools available on purpose, so calling one is impossible; just describe the steps.";

/// Sent when the model answers after an unchecked mutating action.
pub const VERIFY_NUDGE: &'static str = "You performed an action that changes state without confirming the result afterwards. Verify using the evidence already attached to that tool's result — a screenshot for a click/type/key/scroll, or the before/after system state for a command. That evidence is already enough in most cases; do NOT take a new screenshot unless the last action was a screen interaction and the attached evidence genuinely does not show the outcome.";

/// Sent when a reply has neither text nor a tool call.
pub const EMPTY_NUDGE: &'static str = "Your last response had no text and no tool call. Either call a tool or answer the user's request in natural language.";

/// Appended to the messages being summarized by compaction.
pub const SUMMARIZE_INSTRUCTIONS: &'static str = "Summarize the conversation above in a few sentences, preserving important facts, decisions, and outcomes the assistant will still need. Respond with ONLY the summary as plain text.";

/// One line of the tool summary shown to the planning call.
pub open spec fn tool_line(t: ToolDefinition) -> Seq<char> {
    "- "@ + t.name@ + ": "@ + t.description@
}

/// The tools' lines joined by newlines.
pub open spec fn tool_summary_seq(ts: Seq<ToolDefinition>) -> Seq<char>
    decreases ts.len(),
{
    if ts.len() == 0 {
        Seq::empty()
    } else if ts.len() == 1 {
        tool_line(ts[0])
    } else {
        tool_summary_seq(ts.drop_last()) + "\n"@ + tool_line(ts.last())
    }
}

/// `- <name>: <description>` for each tool, one per line.
pub fn tool_summary(tools: &[ToolDefinition]) -> (s: String)
    ensures
        s@ == tool_summary_seq(tools@),
{
    let mut s = String::new();
    let mut i: usize = 0;
    while i < tools.len()
        invariant
            i <= tools@.len(),
            s@ == tool_summary_seq(tools@.subrange(0, i as int)),
        decreases tools@.len() - i,
    {
        let ghost before = s@;
        proof {
            let p = tools@.subrange(0, i + 1);
            assert(p.drop_last() == tools@.subrange(0, i as int));
            assert(p.last() == tools@[i as int]);
            if i == 0 {
                assert(p[0] == tools@[0]);
            }
        }
        if i > 0 {
            push_str(&mut s, "\n");
        }
        push_str(&mut s, "- ");
        push_str(&mut s, tools[i].name.as_str());
        push_str(&mut s, ": ");
        push_str(&mut s, tools[i].description.as_str());
        proof {
            if i == 0 {
                assert(before.len() == 0);
                assert(s@ =~= tool_line(tools@[0]));
            } else {
                assert(s@ =~= before + "\n"@ + tool_line(tools@[i as int]));
            }
        }
        i = i + 1;
    }
    assert(tools@.subrange(0, tools@.len() as int) == tools@);
    s
}

/// The system message asking the model for a plan, listing the tools.
pub fn planning_message(tools: &[ToolDefinition]) -> (m: Message)
    ensures
        plain_message("system"@, "Available tools:\n"@ + tool_summary_seq(tools@) + "\n\n"@ + PLANNING_INSTRUCTIONS@, m),
{
    let mut content = "Available tools:\n".to_owned();
    let summary = tool_summary(tools);
    push_str(&mut content, summary.as_str());
    push_str(&mut content, "\n\n");
    push_str(&mut content, PLANNING_INSTRUCTIONS);
    system_message(content)
}

/// The assistant message carrying the plan into the turn.
pub fn plan_message(plan: &str) -> (m: Message)
    ensures
        plain_message("assistant"@, "Plan:\n"@ + plan@, m),
{
    let mut content = "Plan:\n".to_owned();
    push_str(&mut content, plan);
    assistant_text_message(content)
}

/// The text of the computer-context message for `context`.
pub open spec fn context_text(context: Seq<char>) -> Seq<char> {
    "Computer context:\n"@ + context + "\n\nUse this context when generating commands."@
}

/// Whether `m` is a computer-context message (for some context).
pub open spec fn is_context_message(m: Message) -> bool {
    exists|context: Seq<char>| plain_message("system"@, #[trigger] context_text(context), m)
}

/// The system message carrying the computer context into the turn.
pub fn context_message(context: &str) -> (m: Message)
    ensures
        plain_message("system"@, context_text(context@), m),
        is_context_message(m),
{
    let mut content = "Computer context:\n".to_owned();
    push_str(&mut content, context);
    push_str(&mut content, "\n\nUse this context when generating commands.");
    let m = system_message(content);
    assert(plain_message("system"@, context_text(context@), m));
    m
}

pub fn verify_nudge() -> (m: Message)
    ensures
        plain_message("system"@, VERIFY_NUDGE@, m),
{
    system_message(VERIFY_NUDGE.to_owned())
}

pub fn empty_nudge() -> (m: Message)
    ensures
        plain_message("system"@, EMPTY_NUDGE@, m),
{
    system_message(EMPTY_NUDGE.to_owned())
}

/// A reply's text when it is usable as a plan or a summary: present and
/// not blank.
pub fn usable_text(text: Option<String>) -> (r: Option<String>)
    ensures
        r == match text {
            Some(t) => if is_blank_seq(t@) { None } else { Some(t) },
            None => None,
        },
{
    match text {
        Some(t) => if is_blank(t.as_str()) {
            None
        } else {
            Some(t)
        },
        None => None,
    }
}

/// Where compaction splits the evictable messages: everything before the
/// `keep_recent` most recent messages (but not before the protected
/// prefix) is summarized; `None` when that leaves nothing to summarize.
pub fn compact_split(len: usize, keep_recent: usize, protected_prefix: usize) -> (r: Option<usize>)
    ensures
        ({
            let base = if len >= keep_recent { len - keep_recent } else { 0 };
            let split = if base >= protected_prefix { base } else { protected_prefix as int };
            if split <= protected_prefix {
                r is None
            } else {
                r == Some(split as usize)
            }
        }),
{
    let base = if len >= keep_recent { len - keep_recent } else { 0 };
    let split = if base >= protected_prefix { base } else { protected_prefix };
    if split <= protected_prefix {
        None
    } else {
        Some(split)
    }
}

/// The messages sent to summarize `messages[protected_prefix..split]`:
/// copies of them followed by the summarizing instruction.
pub fn summarize_request(messages: &Vec<Message>, protected_prefix: usize, split: usize) -> (r: Vec<Message>)
    requires
        protected_prefix <= split <= messages@.len(),
    ensures
        r@.len() == split - protected_prefix + 1,
        forall|k: int| 0 <= k < split - protected_prefix ==> same_message(#[trigger] r@[k], messages@[protected_prefix + k]),
        plain_message("system"@, SUMMARIZE_INSTRUCTIONS@, r@.last()),
{
    let mut r: Vec<Message> = Vec::new();
    let mut i: usize = protected_prefix;
    while i < split
        invariant
            protected_prefix <= i <= split <= messages@.len(),
            r@.len() == i - protected_prefix,
            forall|k: int| 0 <= k < i - protected_prefix ==> same_message(#[trigger] r@[k], messages@[protected_prefix + k]),
        decreases split - i,
    {
        r.push(messages[i].duplicate());
        i = i + 1;
    }
    r.push(system_message(SUMMARIZE_INSTRUCTIONS.to_owned()));
    r
}

/// Replaces `messages[protected_prefix..split]` with one system message
/// holding the summary. Returns how many messages were folded into it.
pub fn splice_summary(messages: &mut Vec<Message>, protected_prefix: usize, split: usize, summary: &str) -> (n: usize)
    requires
        protected_prefix <= split <= old(messages)@.len(),
    ensures
        n == split - protected_prefix,
        final(messages)@.len() == old(messages)@.len() - n + 1,
        final(messages)@.subrange(0, protected_prefix as int) == old(messages)@.subrange(0, protected_prefix as int),
        plain_message("system"@, "Summary of earlier conversation:\n"@ + summary@, final(messages)@[protected_prefix as int]),
        final(messages)@.subrange(protected_prefix + 1, final(messages)@.len() as int)
            == old(messages)@.subrange(split as int, old(messages)@.len() as int),
{
    let ghost ms = messages@;
    let mut k: usize = protected_prefix;
    while k < split
        invariant
            protected_prefix <= k <= split <= ms.len(),
            messages@ == ms.subrange(0, protected_prefix as int) + ms.subrange(k as int, ms.len() as int),
        decreases split - k,
    {
        messages.remove(protected_prefix);
        assert(messages@ =~= ms.subrange(0, protected_prefix as int) + ms.subrange(k + 1, ms.len() as int));
        k = k + 1;
    }
    let mut content = "Summary of earlier conversation:\n".to_owned();
    push_str(&mut content, summary);
    messages.insert(protected_prefix, system_message(content));
    assert(messages@.subrange(0, protected_prefix as int) =~= ms.subrange(0, protected_prefix as int));
    assert(messages@.subrange(protected_prefix + 1, messages@.len() as int) =~= ms.subrange(split as int, ms.len() as int));
    split - protected_prefix
}

/// The tool summary lists every tool once, in order, one line each:
/// adding a tool adds its `- <name>: <description>` line at the end, on a
/// new line after the earlier ones.
pub proof fn tool_summary_lists_each_tool_in_order(ts: Seq<ToolDefinition>, t: ToolDefinition)
    ensures
        tool_summary_seq(ts.push(t)) == (if ts.len() == 0 { Seq::<char>::empty() } else { tool_summary_seq(ts) + "\n"@ })
            + "- "@ + t.name@ + ": "@ + t.description@,
{
    let all = ts.push(t);
    assert(all.drop_last() == ts);
    if ts.len() == 0 {
        assert(all[0] == t);
        assert(tool_summary_seq(all) =~= Seq::<char>::empty() + "- "@ + t.name@ + ": "@ + t.description@);
    } else {
        assert(tool_summary_seq(all) =~= tool_summary_seq(ts) + "\n"@ + "- "@ + t.name@ + ": "@ + t.description@);
    }
}

/// The context message carries the computer context whole, right after
/// its `Computer context:` heading, so different contexts give different
/// messages.
pub proof fn the_context_message_carries_the_context(c: Seq<char>, d: Seq<char>)
    ensures
        context_text(c).subrange(0, 18) == "Computer context:\n"@,
        context_text(c).subrange(18, 18 + c.len() as int) == c,
        c != d ==> context_text(c) != context_text(d),
{
    reveal_strlit("Computer context:\n");
    reveal_strlit("\n\nUse this context when generating commands.");
    let h = "Computer context:\n"@;
    let tail = "\n\nUse this context when generating commands."@;
    assert(h.len() == 18);
    assert(context_text(c) == h + c + tail);
    assert(context_text(c).subrange(0, 18) =~= h);
    assert(context_text(c).subrange(18, 18 + c.len() as int) =~= c);
    if c != d && context_text(c) == context_text(d) {
        assert(context_text(c).len() == context_text(d).len());
        assert(c.len() == d.len());
        assert(context_text(d).subrange(18, 18 + d.len() as int) =~= d);
    }
}

} // verus!
