//! The integer part of the metrics report over recorded turns: totals,
//! durations, and counts by request source and by tool.
use vstd::prelude::*;
use crate::text::{str_eq, strings_view};

verus! {

/// Tokens of one recorded model call; `None` when the backend did not
/// report the count.
#[derive(Debug, Clone, Copy, PartialEq, Eq)]
pub struct LlmCallLine {
    pub input_tokens: Option<u64>,
    pub output_tokens: Option<u64>,
}

/// One recorded tool call: its name and how it ended (`"ok"`, `"error"`).
#[derive(Debug, Clone, PartialEq, Eq)]
pub struct ToolCallLine {
    pub name: String,
    pub status: String,
}

/// One recorded turn.
#[derive(Debug, Clone, PartialEq, Eq)]
pub struct TaskLine {
    pub source: String,
    pub duration_ms: u64,
    pub llm_calls: Vec<LlmCallLine>,
    pub tool_calls: Vec<ToolCallLine>,
}

/// How many times `x` occurs in `s`.
pub open spec fn occurrences(s: Seq<Seq<char>>, x: Seq<char>) -> nat
    decreases s.len(),
{
    if s.len() == 0 {
        0
    } else {
        occurrences(s.drop_last(), x) + if s.last() == x { 1nat } else { 0nat }
    }
}

/// `counts` holds each distinct name of `names` once, with how often it
/// occurs.
pub open spec fn is_tally(counts: Seq<(Seq<char>, usize)>, names: Seq<Seq<char>>) -> bool {
    &&& forall|i: int, j: int| 0 <= i < j < counts.len() ==> (#[trigger] counts[i]).0 != (#[trigger] counts[j]).0
    &&& forall|i: int| 0 <= i < counts.len() ==> occurrences(names, (#[trigger] counts[i]).0) == counts[i].1
    &&& forall|x: Seq<char>| #[trigger] names.contains(x) ==> exists|i: int| 0 <= i < counts.len() && counts[i].0 == x
}

pub open spec fn tally_view(v: Seq<(String, usize)>) -> Seq<(Seq<char>, usize)> {
    v.map_values(|e: (String, usize)| (e.0@, e.1))
}

proof fn lemma_occurrences_push(s: Seq<Seq<char>>, y: Seq<char>, x: Seq<char>)
    ensures
        occurrences(s.push(y), x) == occurrences(s, x) + if y == x { 1nat } else { 0nat },
{
    assert(s.push(y).drop_last() == s);
}

proof fn lemma_occurrences_absent(s: Seq<Seq<char>>, x: Seq<char>)
    requires
        !s.contains(x),
    ensures
        occurrences(s, x) == 0,
    decreases s.len(),
{
    if s.len() > 0 {
        assert(!s.drop_last().contains(x)) by {
            if s.drop_last().contains(x) {
                let k = choose|k: int| 0 <= k < s.drop_last().len() && s.drop_last()[k] == x;
                assert(s[k] == x);
            }
        }
        lemma_occurrences_absent(s.drop_last(), x);
    }
}

proof fn lemma_occurrences_bound(s: Seq<Seq<char>>, x: Seq<char>)
    ensures
        occurrences(s, x) <= s.len(),
    decreases s.len(),
{
    if s.len() > 0 {
        lemma_occurrences_bound(s.drop_last(), x);
    }
}

/// Adds one occurrence of `name` to the tally of `names`.
fn count_one(counts: &mut Vec<(String, usize)>, name: &String, Ghost(names): Ghost<Seq<Seq<char>>>)
    requires
        is_tally(tally_view(old(counts)@), names),
        names.len() < usize::MAX,
    ensures
        is_tally(tally_view(final(counts)@), names.push(name@)),
{
    let ghost cs = tally_view(counts@);
    let ghost all = names.push(name@);
    let mut i: usize = 0;
    while i < counts.len()
        invariant
            i <= counts@.len(),
            tally_view(counts@) == cs,
            is_tally(cs, names),
            names.len() < usize::MAX,
            all == names.push(name@),
            forall|k: int| 0 <= k < i ==> cs[k].0 != name@,
        decreases counts@.len() - i,
    {
        if str_eq(counts[i].0.as_str(), name.as_str()) {
            let ghost c = cs[i as int];
            assert(c.0 == name@);
            proof {
                lemma_occurrences_bound(names, name@);
                assert(occurrences(names, cs[i as int].0) == cs[i as int].1);
            }
            let n = counts[i].1 + 1;
            let key = counts[i].0.clone();
            counts.set(i, (key, n));
            proof {
                let ns = tally_view(counts@);
                assert(ns =~= cs.update(i as int, (name@, n)));
                assert forall|j: int| 0 <= j < ns.len() implies occurrences(all, (#[trigger] ns[j]).0) == ns[j].1 by {
                    lemma_occurrences_push(names, name@, ns[j].0);
                }
                assert forall|x: Seq<char>| #[trigger] all.contains(x) implies exists|j: int| 0 <= j < ns.len() && ns[j].0 == x by {
                    if x != name@ {
                        let k = choose|k: int| 0 <= k < all.len() && all[k] == x;
                        assert(k < names.len());
                        assert(names[k] == x);
                        assert(names.contains(x));
                        let j = choose|j: int| 0 <= j < cs.len() && cs[j].0 == x;
                        assert(ns[j].0 == x);
                    } else {
                        assert(ns[i as int].0 == x);
                    }
                }
            }
            return;
        }
        i = i + 1;
    }
    counts.push((name.clone(), 1));
    proof {
        let ns = tally_view(counts@);
        assert(ns =~= cs.push((name@, 1usize)));
        assert(!names.contains(name@)) by {
            if names.contains(name@) {
                let j = choose|j: int| 0 <= j < cs.len() && cs[j].0 == name@;
            }
        }
        lemma_occurrences_absent(names, name@);
        assert forall|j: int| 0 <= j < ns.len() implies occurrences(all, (#[trigger] ns[j]).0) == ns[j].1 by {
            lemma_occurrences_push(names, name@, ns[j].0);
        }
        assert forall|x: Seq<char>| #[trigger] all.contains(x) implies exists|j: int| 0 <= j < ns.len() && ns[j].0 == x by {
            if x != name@ {
                let k = choose|k: int| 0 <= k < all.len() && all[k] == x;
                assert(names[k] == x);
                assert(names.contains(x));
                let j = choose|j: int| 0 <= j < cs.len() && cs[j].0 == x;
                assert(ns[j].0 == x);
            } else {
                assert(ns[cs.len() as int].0 == x);
            }
        }
    }
}

/// How often each name occurs in `names`, each distinct name once, in
/// order of first occurrence.
pub fn tally(names: &Vec<String>) -> (counts: Vec<(String, usize)>)
    ensures
        is_tally(tally_view(counts@), strings_view(names@)),
{
    let mut counts: Vec<(String, usize)> = Vec::new();
    let mut i: usize = 0;
    while i < names.len()
        invariant
            i <= names@.len(),
            is_tally(tally_view(counts@), strings_view(names@).subrange(0, i as int)),
        decreases names@.len() - i,
    {
        let ghost prefix = strings_view(names@).subrange(0, i as int);
        count_one(&mut counts, &names[i], Ghost(prefix));
        assert(strings_view(names@).subrange(0, i + 1) =~= prefix.push(names@[i as int]@));
        i = i + 1;
    }
    assert(strings_view(names@).subrange(0, names@.len() as int) =~= strings_view(names@));
    counts
}

/// The request source of each turn, in order.
pub open spec fn sources(tasks: Seq<TaskLine>) -> Seq<Seq<char>> {
    tasks.map_values(|t: TaskLine| t.source@)
}

/// The name of every tool call, turn after turn; with `errors_only`, only
/// those that ended in `"error"`.
pub open spec fn tool_names(tasks: Seq<TaskLine>, errors_only: bool) -> Seq<Seq<char>>
    decreases tasks.len(),
{
    if tasks.len() == 0 {
        Seq::empty()
    } else {
        tool_names(tasks.drop_last(), errors_only) + call_names(tasks.last().tool_calls@, errors_only)
    }
}

pub open spec fn call_names(calls: Seq<ToolCallLine>, errors_only: bool) -> Seq<Seq<char>>
    decreases calls.len(),
{
    if calls.len() == 0 {
        Seq::empty()
    } else if !errors_only || calls.last().status@ == "error"@ {
        call_names(calls.drop_last(), errors_only).push(calls.last().name@)
    } else {
        call_names(calls.drop_last(), errors_only)
    }
}

/// The tokens of every recorded model call, summed (an unreported count
/// counts as zero); `input` picks the prompt side, otherwise the reply
/// side.
pub open spec fn token_total(tasks: Seq<TaskLine>, input: bool) -> nat
    decreases tasks.len(),
{
    if tasks.len() == 0 {
        0
    } else {
        token_total(tasks.drop_last(), input) + call_tokens(tasks.last().llm_calls@, input)
    }
}

pub open spec fn call_tokens(calls: Seq<LlmCallLine>, input: bool) -> nat
    decreases calls.len(),
{
    if calls.len() == 0 {
        0
    } else {
        let c = calls.last();
        let n = if input { c.input_tokens } else { c.output_tokens };
        call_tokens(calls.drop_last(), input) + match n {
            Some(k) => k as nat,
            None => 0nat,
        }
    }
}

/// The integer figures of the report.
#[derive(Debug, Clone)]
pub struct ReportCounts {
    pub total_tasks: usize,
    pub total_input_tokens: u64,
    pub total_output_tokens: u64,
    /// Each turn's duration, in turn order.
    pub durations: Vec<u64>,
    pub by_source: Vec<(String, usize)>,
    pub tool_usage: Vec<(String, usize)>,
    pub tool_errors: Vec<(String, usize)>,
}

/// The names of `calls`, or only those that ended in `"error"`.
fn collect_call_names(calls: &Vec<ToolCallLine>, errors_only: bool, out: &mut Vec<String>)
    ensures
        strings_view(final(out)@) == strings_view(old(out)@) + call_names(calls@, errors_only),
{
    let ghost start = strings_view(out@);
    let mut i: usize = 0;
    while i < calls.len()
        invariant
            i <= calls@.len(),
            strings_view(out@) == start + call_names(calls@.subrange(0, i as int), errors_only),
        decreases calls@.len() - i,
    {
        let ghost p = calls@.subrange(0, i + 1);
        assert(p.drop_last() == calls@.subrange(0, i as int));
        assert(p.last() == calls@[i as int]);
        if !errors_only || str_eq(calls[i].status.as_str(), "error") {
            let ghost before = strings_view(out@);
            out.push(calls[i].name.clone());
            assert(strings_view(out@) =~= before.push(calls@[i as int].name@));
        }
        i = i + 1;
    }
    assert(calls@.subrange(0, calls@.len() as int) == calls@);
}

/// The sums of `calls`' tokens on both sides, or `None` when one does not
/// fit a `u64`.
fn sum_call_tokens(calls: &Vec<LlmCallLine>) -> (r: Option<(u64, u64)>)
    ensures
        match r {
            Some((a, b)) => a == call_tokens(calls@, true) && b == call_tokens(calls@, false),
            None => call_tokens(calls@, true) > u64::MAX || call_tokens(calls@, false) > u64::MAX,
        },
{
    let mut a: u64 = 0;
    let mut b: u64 = 0;
    let mut i: usize = 0;
    while i < calls.len()
        invariant
            i <= calls@.len(),
            a == call_tokens(calls@.subrange(0, i as int), true),
            b == call_tokens(calls@.subrange(0, i as int), false),
        decreases calls@.len() - i,
    {
        let ghost p = calls@.subrange(0, i + 1);
        assert(p.drop_last() == calls@.subrange(0, i as int));
        assert(p.last() == calls@[i as int]);
        let x = match calls[i].input_tokens {
            Some(k) => k,
            None => 0,
        };
        let y = match calls[i].output_tokens {
            Some(k) => k,
            None => 0,
        };
        if x > u64::MAX - a || y > u64::MAX - b {
            proof {
                lemma_call_tokens_prefix(calls@, i + 1);
            }
            return None;
        }
        a = a + x;
        b = b + y;
        i = i + 1;
    }
    assert(calls@.subrange(0, calls@.len() as int) == calls@);
    Some((a, b))
}

proof fn lemma_call_tokens_prefix(calls: Seq<LlmCallLine>, n: int)
    requires
        0 <= n <= calls.len(),
    ensures
        call_tokens(calls.subrange(0, n), true) <= call_tokens(calls, true),
        call_tokens(calls.subrange(0, n), false) <= call_tokens(calls, false),
    decreases calls.len() - n,
{
    if n < calls.len() {
        lemma_call_tokens_prefix(calls, n + 1);
        assert(calls.subrange(0, n + 1).drop_last() == calls.subrange(0, n));
    } else {
        assert(calls.subrange(0, n) == calls);
    }
}

proof fn lemma_token_total_prefix(tasks: Seq<TaskLine>, n: int)
    requires
        0 <= n <= tasks.len(),
    ensures
        token_total(tasks.subrange(0, n), true) <= token_total(tasks, true),
        token_total(tasks.subrange(0, n), false) <= token_total(tasks, false),
    decreases tasks.len() - n,
{
    if n < tasks.len() {
        lemma_token_total_prefix(tasks, n + 1);
        assert(tasks.subrange(0, n + 1).drop_last() == tasks.subrange(0, n));
    } else {
        assert(tasks.subrange(0, n) == tasks);
    }
}

/// The report's integer figures over `tasks`, or `None` when a token total
/// does not fit a `u64`.
pub fn report_counts(tasks: &Vec<TaskLine>) -> (r: Option<ReportCounts>)
    ensures
        match r {
            Some(c) => {
                &&& c.total_tasks == tasks@.len()
                &&& c.total_input_tokens == token_total(tasks@, true)
                &&& c.total_output_tokens == token_total(tasks@, false)
                &&& c.durations@ == tasks@.map_values(|t: TaskLine| t.duration_ms)
                &&& is_tally(tally_view(c.by_source@), sources(tasks@))
                &&& is_tally(tally_view(c.tool_usage@), tool_names(tasks@, false))
                &&& is_tally(tally_view(c.tool_errors@), tool_names(tasks@, true))
            },
            None => token_total(tasks@, true) > u64::MAX || token_total(tasks@, false) > u64::MAX,
        },
{
    let mut durations: Vec<u64> = Vec::new();
    let mut source_names: Vec<String> = Vec::new();
    let mut used: Vec<String> = Vec::new();
    let mut failed: Vec<String> = Vec::new();
    let mut total_in: u64 = 0;
    let mut total_out: u64 = 0;
    let mut i: usize = 0;
    while i < tasks.len()
        invariant
            i <= tasks@.len(),
            durations@ == tasks@.subrange(0, i as int).map_values(|t: TaskLine| t.duration_ms),
            strings_view(source_names@) == sources(tasks@.subrange(0, i as int)),
            strings_view(used@) == tool_names(tasks@.subrange(0, i as int), false),
            strings_view(failed@) == tool_names(tasks@.subrange(0, i as int), true),
            total_in == token_total(tasks@.subrange(0, i as int), true),
            total_out == token_total(tasks@.subrange(0, i as int), false),
        decreases tasks@.len() - i,
    {
        let ghost p = tasks@.subrange(0, i + 1);
        let ghost q = tasks@.subrange(0, i as int);
        assert(p.drop_last() == q);
        assert(p.last() == tasks@[i as int]);
        let task = &tasks[i];
        match sum_call_tokens(&task.llm_calls) {
            Some((a, b)) => {
                if a > u64::MAX - total_in || b > u64::MAX - total_out {
                    proof {
                        lemma_token_total_prefix(tasks@, i + 1);
                    }
                    return None;
                }
                total_in = total_in + a;
                total_out = total_out + b;
            },
            None => {
                proof {
                    lemma_token_total_prefix(tasks@, i + 1);
                }
                return None;
            },
        }
        durations.push(task.duration_ms);
        assert(durations@ =~= p.map_values(|t: TaskLine| t.duration_ms));
        let ghost before = strings_view(source_names@);
        source_names.push(task.source.clone());
        assert(strings_view(source_names@) =~= before.push(task.source@));
        assert(sources(p) =~= sources(q).push(task.source@));
        collect_call_names(&task.tool_calls, false, &mut used);
        collect_call_names(&task.tool_calls, true, &mut failed);
        i = i + 1;
    }
    assert(tasks@.subrange(0, tasks@.len() as int) == tasks@);
    Some(ReportCounts {
        total_tasks: tasks.len(),
        total_input_tokens: total_in,
        total_output_tokens: total_out,
        durations,
        by_source: tally(&source_names),
        tool_usage: tally(&used),
        tool_errors: tally(&failed),
    })
}

/// Tool usage counts every call of every turn, by its name and in order,
/// and tool errors count only calls that ended in `error`: no tool has
/// more errors than uses, and a call that did not end in `error` adds no
/// error.
pub proof fn errors_are_counted_among_uses(calls: Seq<ToolCallLine>, x: Seq<char>)
    ensures
        call_names(calls, false) == calls.map_values(|c: ToolCallLine| c.name@),
        occurrences(call_names(calls, true), x) <= occurrences(call_names(calls, false), x),
        calls.len() > 0 && calls.last().status@ != "error"@ ==> call_names(calls, true) == call_names(calls.drop_last(), true),
    decreases calls.len(),
{
    if calls.len() > 0 {
        errors_are_counted_among_uses(calls.drop_last(), x);
        assert(call_names(calls, false) =~= calls.map_values(|c: ToolCallLine| c.name@));
        lemma_occurrences_push(call_names(calls.drop_last(), false), calls.last().name@, x);
        if calls.last().status@ == "error"@ {
            lemma_occurrences_push(call_names(calls.drop_last(), true), calls.last().name@, x);
        }
    } else {
        assert(call_names(calls, false) =~= calls.map_values(|c: ToolCallLine| c.name@));
    }
}

} // verus!
