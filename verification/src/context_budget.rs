//! Keeping a turn's prompt within the model's context window: the budget
//! itself, the token-counting port, and the eviction steps (strip old
//! images, truncate long tool results, drop the oldest messages).
use vstd::prelude::*;
use crate::llm::Message;

verus! {

/// Estimates how many tokens a message will cost before a request is
/// sent. An estimate depends on the message alone.
pub trait TokenCounter {
    /// The counter's estimate of `message`.
    spec fn spec_estimate(&self, message: Message) -> usize;

    fn estimate_message(&self, message: &Message) -> (n: usize)
        ensures
            n == self.spec_estimate(*message),
    ;
}

/// The counter's estimate of each message, in order.
pub open spec fn estimates<C: TokenCounter + ?Sized>(counter: &C, messages: Seq<Message>) -> Seq<usize> {
    messages.map_values(|m: Message| counter.spec_estimate(m))
}

/// The tokens a message costs by the rule of about four characters per
/// token, four tokens of per-message overhead and 800 per attached image,
/// capped at `usize::MAX`.
pub open spec fn heuristic_estimate(message: Message) -> usize {
    let n = message.content@.len() / 4 + 4 + message.images@.len() * 800;
    if n <= usize::MAX { n as usize } else { usize::MAX }
}

/// Estimates tokens from a message's length and images alone.
#[derive(Debug, Default, Clone, Copy)]
pub struct HeuristicTokenCounter;

impl TokenCounter for HeuristicTokenCounter {
    open spec fn spec_estimate(&self, message: Message) -> usize {
        heuristic_estimate(message)
    }

    fn estimate_message(&self, message: &Message) -> (n: usize) {
        let chars = crate::text::char_count(message.content.as_str());
        let images = message.images.len();
        let base = chars / 4 + 4;
        if images > (usize::MAX - base) / 800 {
            usize::MAX
        } else {
            assert(images * 800 <= usize::MAX - base) by (nonlinear_arith)
                requires images <= (usize::MAX - base) / 800;
            base + images * 800
        }
    }
}

/// The sum of `costs`.
pub open spec fn cost_sum(costs: Seq<usize>) -> nat
    decreases costs.len(),
{
    if costs.len() == 0 {
        0
    } else {
        cost_sum(costs.drop_last()) + costs.last() as nat
    }
}

/// The counter's estimate of each message, in order.
pub fn message_costs<C: TokenCounter + ?Sized>(counter: &C, messages: &[Message]) -> (costs: Vec<usize>)
    ensures
        costs@ == estimates(counter, messages@),
{
    let mut costs: Vec<usize> = Vec::new();
    let mut i: usize = 0;
    while i < messages.len()
        invariant
            i <= messages@.len(),
            costs@ == estimates(counter, messages@.subrange(0, i as int)),
        decreases messages@.len() - i,
    {
        costs.push(counter.estimate_message(&messages[i]));
        assert(costs@ =~= estimates(counter, messages@.subrange(0, i + 1)));
        i = i + 1;
    }
    assert(messages@.subrange(0, messages@.len() as int) =~= messages@);
    costs
}

/// The sum of `costs`, or `None` when it does not fit in a `usize`.
pub fn sum_costs(costs: &[usize]) -> (r: Option<usize>)
    ensures
        match r {
            Some(n) => n == cost_sum(costs@),
            None => cost_sum(costs@) > usize::MAX,
        },
{
    let mut total: usize = 0;
    let mut i: usize = 0;
    while i < costs.len()
        invariant
            i <= costs@.len(),
            total == cost_sum(costs@.subrange(0, i as int)),
        decreases costs@.len() - i,
    {
        assert(costs@.subrange(0, i + 1).drop_last() == costs@.subrange(0, i as int));
        if costs[i] > usize::MAX - total {
            proof {
                lemma_cost_sum_prefix(costs@, i + 1);
            }
            return None;
        }
        total = total + costs[i];
        i = i + 1;
    }
    assert(costs@.subrange(0, costs@.len() as int) == costs@);
    Some(total)
}

pub proof fn lemma_cost_sum_prefix(costs: Seq<usize>, n: int)
    requires
        0 <= n <= costs.len(),
    ensures
        cost_sum(costs.subrange(0, n)) <= cost_sum(costs),
    decreases costs.len() - n,
{
    if n < costs.len() {
        lemma_cost_sum_prefix(costs, n + 1);
        assert(costs.subrange(0, n + 1).drop_last() == costs.subrange(0, n));
    } else {
        assert(costs.subrange(0, n) == costs);
    }
}

/// The estimate of `messages` (the sum of the counter's estimates of each),
/// saturating at `usize::MAX`.
pub fn estimate<C: TokenCounter + ?Sized>(counter: &C, messages: &[Message]) -> (n: usize)
    ensures
        n == (if cost_sum(estimates(counter, messages@)) <= usize::MAX {
            cost_sum(estimates(counter, messages@))
        } else {
            usize::MAX as nat
        }),
{
    let costs = message_costs(counter, messages);
    match sum_costs(costs.as_slice()) {
        Some(n) => n,
        None => usize::MAX,
    }
}

/// The images carried by the evictable messages (those at or after
/// `protected_prefix`), or `None` when that count does not fit in a `usize`.
pub fn evictable_image_total(messages: &Vec<Message>, protected_prefix: usize) -> (r: Option<usize>)
    ensures
        ({
            let n = image_count(messages@, image_positions(messages@, protected_prefix as int, messages@.len() as int));
            match r {
                Some(t) => t == n,
                None => n > usize::MAX,
            }
        }),
{
    let ghost ms = messages@;
    let mut total: usize = 0;
    let mut j: usize = 0;
    while j < messages.len()
        invariant
            j <= ms.len(),
            messages@ == ms,
            total == image_count(ms, image_positions(ms, protected_prefix as int, j as int)),
        decreases ms.len() - j,
    {
        let ghost before = image_positions(ms, protected_prefix as int, j as int);
        if j >= protected_prefix && messages[j].images.len() > 0 {
            let n = messages[j].images.len();
            assert(image_positions(ms, protected_prefix as int, j + 1) == before.push(j as int));
            assert(before.push(j as int).drop_last() == before);
            if n > usize::MAX - total {
                proof {
                    lemma_image_count_grows(ms, protected_prefix as int, j + 1, ms.len() as int);
                }
                return None;
            }
            total = total + n;
        }
        j = j + 1;
    }
    Some(total)
}

proof fn lemma_image_count_grows(ms: Seq<Message>, prefix: int, a: int, b: int)
    requires
        0 <= a <= b,
    ensures
        image_count(ms, image_positions(ms, prefix, a)) <= image_count(ms, image_positions(ms, prefix, b)),
    decreases b - a,
{
    if a < b {
        lemma_image_count_grows(ms, prefix, a, b - 1);
        let p = image_positions(ms, prefix, b - 1);
        if b - 1 >= prefix && ms[b - 1].images@.len() > 0 {
            assert(p.push(b - 1).drop_last() == p);
        }
    }
}

/// How the per-turn prompt is kept within the context window.
#[derive(Debug, Clone, Copy)]
pub struct ContextBudget {
    /// The backend's context window, in tokens.
    pub max_tokens: usize,
    /// Tokens set aside for the model's reply.
    pub output_reserve: usize,
    /// How many of the most recent images are kept.
    pub keep_recent_images: usize,
    /// A tool result longer than head + tail characters is cut to a
    /// head/tail excerpt.
    pub truncate_head_chars: usize,
    pub truncate_tail_chars: usize,
    /// How many of the most recent messages compaction leaves untouched.
    pub keep_recent_uncompacted: usize,
}

/// The budget a session starts with.
pub open spec fn default_context_budget() -> ContextBudget {
    ContextBudget {
        max_tokens: 8192,
        output_reserve: 1024,
        keep_recent_images: 2,
        truncate_head_chars: 400,
        truncate_tail_chars: 400,
        keep_recent_uncompacted: 6,
    }
}

impl Default for ContextBudget {
    fn default() -> (r: ContextBudget)
        ensures
            r == default_context_budget(),
    {
        ContextBudget {
            max_tokens: 8192,
            output_reserve: 1024,
            keep_recent_images: 2,
            truncate_head_chars: 400,
            truncate_tail_chars: 400,
            keep_recent_uncompacted: 6,
        }
    }
}

/// The default budget with the context window given as text applied on
/// top, when it parses.
pub open spec fn budget_with_max_tokens(max_tokens: Option<Seq<char>>) -> ContextBudget {
    ContextBudget {
        max_tokens: crate::turn::usize_or(max_tokens, default_context_budget().max_tokens),
        ..default_context_budget()
    }
}

impl ContextBudget {
    /// The default budget with the context window given as text (the
    /// backend's `num_ctx`) applied on top, when it parses.
    pub fn with_max_tokens(max_tokens: Option<&str>) -> (r: ContextBudget)
        ensures
            r == budget_with_max_tokens(crate::text::opt_view(max_tokens)),
    {
        let d = ContextBudget::default();
        ContextBudget { max_tokens: crate::turn::parse_usize_or(max_tokens, d.max_tokens), ..d }
    }

    /// The default budget with `NALA_OLLAMA_NUM_CTX` applied on top, the
    /// same variable the model backend reads for its context window, for
    /// whatever it held.
    pub fn from_env<V: crate::ports::Environment>(env: &V) -> (r: ContextBudget)
        ensures
            exists|value: Option<Seq<char>>| r == #[trigger] budget_with_max_tokens(value),
    {
        let value = crate::turn::env_value(env, "NALA_OLLAMA_NUM_CTX");
        let value = match &value { Some(t) => Some(t.as_str()), None => None };
        let r = ContextBudget::with_max_tokens(value);
        assert(r == budget_with_max_tokens(crate::text::opt_view(value)));
        r
    }

    /// The tokens available to the prompt: the window minus the reply
    /// reserve, never below zero.
    pub fn available_tokens(&self) -> (r: usize)
        ensures
            r == if self.max_tokens >= self.output_reserve {
                self.max_tokens - self.output_reserve
            } else {
                0
            },
    {
        if self.max_tokens >= self.output_reserve {
            self.max_tokens - self.output_reserve
        } else {
            0
        }
    }
}

/// The positions at or after `prefix`, among the first `n` messages, of
/// those carrying images.
pub open spec fn image_positions(ms: Seq<Message>, prefix: int, n: int) -> Seq<int>
    decreases n,
{
    if n <= 0 {
        Seq::empty()
    } else if n - 1 >= prefix && ms[n - 1].images@.len() > 0 {
        image_positions(ms, prefix, n - 1).push(n - 1)
    } else {
        image_positions(ms, prefix, n - 1)
    }
}

/// The images carried by the messages at `positions`, summed.
pub open spec fn image_count(ms: Seq<Message>, positions: Seq<int>) -> nat
    decreases positions.len(),
{
    if positions.len() == 0 {
        0
    } else {
        image_count(ms, positions.drop_last()) + ms[positions.last()].images@.len()
    }
}

/// Whether message `i` loses its images when all but the `keep` most
/// recent image-carrying evictable messages are stripped.
pub open spec fn image_evicted(ms: Seq<Message>, prefix: int, keep: int, i: int) -> bool {
    let pos = image_positions(ms, prefix, ms.len() as int);
    pos.len() > keep && exists|k: int| 0 <= k < pos.len() - keep && pos[k] == i
}

/// `new` is `old` with the images of the messages that `image_evicted`
/// picks stripped, and everything else left as it was.
pub open spec fn images_stripped(old: Seq<Message>, new: Seq<Message>, prefix: int, keep: int) -> bool {
    &&& new.len() == old.len()
    &&& forall|i: int| 0 <= i < old.len() ==> {
        let m = #[trigger] new[i];
        let o = old[i];
        &&& m.role == o.role
        &&& m.content == o.content
        &&& m.tool_calls == o.tool_calls
        &&& m.tool_name == o.tool_name
        &&& if image_evicted(old, prefix, keep, i) {
            m.images@.len() == 0
        } else {
            m.images == o.images
        }
    }
}

/// Strips images from the evictable messages (those at or after
/// `protected_prefix`) that carry them, all but the `keep_recent_images`
/// most recent ones. Returns how many images were dropped.
pub fn evict_images(messages: &mut Vec<Message>, protected_prefix: usize, keep_recent_images: usize) -> (dropped: usize)
    requires
        image_count(old(messages)@, image_positions(old(messages)@, protected_prefix as int, old(messages)@.len() as int)) <= usize::MAX,
    ensures
        final(messages)@.len() == old(messages)@.len(),
        forall|i: int| 0 <= i < old(messages)@.len() ==> {
            let m = #[trigger] final(messages)@[i];
            let o = old(messages)@[i];
            &&& m.role == o.role
            &&& m.content == o.content
            &&& m.tool_calls == o.tool_calls
            &&& m.tool_name == o.tool_name
            &&& if image_evicted(old(messages)@, protected_prefix as int, keep_recent_images as int, i) {
                m.images@.len() == 0
            } else {
                m.images == o.images
            }
        },
        forall|i: int| 0 <= i < protected_prefix && i < old(messages)@.len() ==> #[trigger] final(messages)@[i] == old(messages)@[i],
        ({
            let pos = image_positions(old(messages)@, protected_prefix as int, old(messages)@.len() as int);
            dropped == if pos.len() > keep_recent_images {
                image_count(old(messages)@, pos.subrange(0, pos.len() - keep_recent_images))
            } else {
                0
            }
        }),
{
    let ghost ms = messages@;
    let mut positions: Vec<usize> = Vec::new();
    let mut j: usize = 0;
    while j < messages.len()
        invariant
            messages@ == ms,
            j <= ms.len(),
            positions@.map_values(|x: usize| x as int) == image_positions(ms, protected_prefix as int, j as int),
            forall|k: int| 0 <= k < positions@.len() ==> #[trigger] positions@[k] < j,
        decreases ms.len() - j,
    {
        let ghost before = positions@;
        if j >= protected_prefix && messages[j].images.len() > 0 {
            positions.push(j);
            assert(positions@.map_values(|x: usize| x as int) == before.map_values(|x: usize| x as int).push(j as int));
        }
        j = j + 1;
    }
    let ghost pos = image_positions(ms, protected_prefix as int, ms.len() as int);
    if positions.len() <= keep_recent_images {
        return 0;
    }
    let drop_count = positions.len() - keep_recent_images;
    let mut dropped: usize = 0;
    let mut k: usize = 0;
    proof {
        lemma_positions_sorted(ms, protected_prefix as int, ms.len() as int);
        lemma_image_count_prefix(ms, pos, drop_count as int);
    }
    while k < drop_count
        invariant
            k <= drop_count <= positions@.len(),
            drop_count == positions@.len() - keep_recent_images,
            positions@.map_values(|x: usize| x as int) == pos,
            pos == image_positions(ms, protected_prefix as int, ms.len() as int),
            forall|a: int| 0 <= a < positions@.len() ==> #[trigger] positions@[a] < ms.len(),
            forall|a: int, b: int| 0 <= a < b < pos.len() ==> pos[a] < pos[b],
            messages@.len() == ms.len(),
            dropped == image_count(ms, pos.subrange(0, k as int)),
            image_count(ms, pos.subrange(0, drop_count as int)) <= usize::MAX,
            forall|i: int| 0 <= i < ms.len() ==> {
                let m = #[trigger] messages@[i];
                let o = ms[i];
                &&& m.role == o.role
                &&& m.content == o.content
                &&& m.tool_calls == o.tool_calls
                &&& m.tool_name == o.tool_name
                &&& if exists|q: int| 0 <= q < k && pos[q] == i {
                    m.images@.len() == 0
                } else {
                    m.images == o.images
                }
            },
        decreases drop_count - k,
    {
        let index = positions[k];
        proof {
            assert(pos[k as int] == index as int);
            assert(pos.subrange(0, k + 1).drop_last() == pos.subrange(0, k as int));
            lemma_image_count_prefix(ms, pos.subrange(0, drop_count as int), k + 1);
            assert(pos.subrange(0, drop_count as int).subrange(0, k + 1) == pos.subrange(0, k + 1));
            assert(!(exists|q: int| 0 <= q < k && pos[q] == index as int));
        }
        let n = messages[index].images.len();
        dropped = dropped + n;
        messages[index].images = Vec::new();
        k = k + 1;
    }
    proof {
        assert forall|i: int| 0 <= i < ms.len() implies (exists|q: int| 0 <= q < drop_count && pos[q] == i) == image_evicted(ms, protected_prefix as int, keep_recent_images as int, i) by {
        }
        lemma_positions_from_prefix(ms, protected_prefix as int, ms.len() as int);
        assert forall|i: int| 0 <= i < protected_prefix && i < ms.len() implies #[trigger] messages@[i] == ms[i] by {
            assert(!image_evicted(ms, protected_prefix as int, keep_recent_images as int, i));
        }
    }
    dropped
}

proof fn lemma_positions_from_prefix(ms: Seq<Message>, prefix: int, n: int)
    ensures
        forall|a: int| 0 <= a < image_positions(ms, prefix, n).len() ==> image_positions(ms, prefix, n)[a] >= prefix,
    decreases n,
{
    if n > 0 {
        lemma_positions_from_prefix(ms, prefix, n - 1);
        let prev = image_positions(ms, prefix, n - 1);
        let cur = image_positions(ms, prefix, n);
        if n - 1 >= prefix && ms[n - 1].images@.len() > 0 {
            assert forall|a: int| 0 <= a < cur.len() implies cur[a] >= prefix by {
                if a < prev.len() {
                    assert(cur[a] == prev[a]);
                }
            }
        }
    }
}

proof fn lemma_positions_sorted(ms: Seq<Message>, prefix: int, n: int)
    ensures
        forall|a: int, b: int| 0 <= a < b < image_positions(ms, prefix, n).len() ==> image_positions(ms, prefix, n)[a] < image_positions(ms, prefix, n)[b],
        forall|a: int| 0 <= a < image_positions(ms, prefix, n).len() ==> image_positions(ms, prefix, n)[a] < n,
    decreases n,
{
    if n > 0 {
        lemma_positions_sorted(ms, prefix, n - 1);
        let prev = image_positions(ms, prefix, n - 1);
        let cur = image_positions(ms, prefix, n);
        if n - 1 >= prefix && ms[n - 1].images@.len() > 0 {
            assert(cur == prev.push(n - 1));
            assert forall|a: int, b: int| 0 <= a < b < cur.len() implies cur[a] < cur[b] by {
                assert(cur[a] == prev[a]);
                if b < prev.len() {
                    assert(cur[b] == prev[b]);
                }
            }
            assert forall|a: int| 0 <= a < cur.len() implies cur[a] < n by {
                if a < prev.len() {
                    assert(cur[a] == prev[a]);
                }
            }
        } else {
            assert(cur == prev);
        }
    }
}

proof fn lemma_image_count_prefix(ms: Seq<Message>, pos: Seq<int>, n: int)
    requires
        0 <= n <= pos.len(),
    ensures
        image_count(ms, pos.subrange(0, n)) <= image_count(ms, pos),
    decreases pos.len() - n,
{
    if n < pos.len() {
        lemma_image_count_prefix(ms, pos, n + 1);
        assert(pos.subrange(0, n + 1).drop_last() == pos.subrange(0, n));
    } else {
        assert(pos.subrange(0, n) == pos);
    }
}

/// The marker placed between the head and tail of a truncated tool result.
pub open spec fn truncation_marker() -> Seq<char> {
    "\n... [truncated] ...\n"@
}

/// Whether message `m` is a tool result too long for `head + tail` characters.
pub open spec fn too_long(m: Message, head: nat, tail: nat) -> bool {
    m.role@ == "tool"@ && m.content@.len() > head + tail
}

/// The head/tail excerpt of `c`.
pub open spec fn excerpt(c: Seq<char>, head: nat, tail: nat) -> Seq<char> {
    c.subrange(0, head as int) + truncation_marker() + c.subrange(c.len() - tail, c.len() as int)
}

/// How many of the messages from `prefix` on, among the first `n`, are too long.
pub open spec fn too_long_count(ms: Seq<Message>, prefix: int, n: int, head: nat, tail: nat) -> nat
    decreases n,
{
    if n <= 0 {
        0
    } else {
        too_long_count(ms, prefix, n - 1, head, tail) + if n - 1 >= prefix && too_long(ms[n - 1], head, tail) {
            1nat
        } else {
            0nat
        }
    }
}

proof fn lemma_too_long_count_bound(ms: Seq<Message>, prefix: int, n: int, head: nat, tail: nat)
    requires
        n >= 0,
    ensures
        too_long_count(ms, prefix, n, head, tail) <= n,
    decreases n,
{
    if n > 0 {
        lemma_too_long_count_bound(ms, prefix, n - 1, head, tail);
    }
}

/// `new` is `old` with each tool result after `prefix` that is too long
/// cut to its head/tail excerpt, and everything else left as it was.
pub open spec fn results_truncated(old: Seq<Message>, new: Seq<Message>, prefix: int, head: nat, tail: nat) -> bool {
    &&& new.len() == old.len()
    &&& forall|i: int| 0 <= i < old.len() ==> {
        let m = #[trigger] new[i];
        let o = old[i];
        &&& m.role == o.role
        &&& m.tool_calls == o.tool_calls
        &&& m.tool_name == o.tool_name
        &&& m.images == o.images
        &&& if i >= prefix && too_long(o, head, tail) {
            m.content@ == excerpt(o.content@, head, tail)
        } else {
            m.content == o.content
        }
    }
}

/// Cuts every evictable tool result longer than `head_chars + tail_chars`
/// characters down to its first `head_chars` and last `tail_chars`
/// characters around a marker. Returns how many messages were cut.
pub fn truncate_long_tool_results(
    messages: &mut Vec<Message>,
    protected_prefix: usize,
    head_chars: usize,
    tail_chars: usize,
) -> (truncated: usize)
    requires
        head_chars + tail_chars <= usize::MAX,
    ensures
        final(messages)@.len() == old(messages)@.len(),
        truncated == too_long_count(old(messages)@, protected_prefix as int, old(messages)@.len() as int, head_chars as nat, tail_chars as nat),
        forall|i: int| 0 <= i < old(messages)@.len() ==> {
            let m = #[trigger] final(messages)@[i];
            let o = old(messages)@[i];
            &&& m.role == o.role
            &&& m.tool_calls == o.tool_calls
            &&& m.tool_name == o.tool_name
            &&& m.images == o.images
            &&& if i >= protected_prefix && too_long(o, head_chars as nat, tail_chars as nat) {
                m.content@ == excerpt(o.content@, head_chars as nat, tail_chars as nat)
            } else {
                m.content == o.content
            }
        },
{
    let ghost ms = messages@;
    let limit = head_chars + tail_chars;
    let mut truncated: usize = 0;
    let mut i: usize = 0;
    while i < messages.len()
        invariant
            i <= ms.len(),
            messages@.len() == ms.len(),
            limit == head_chars + tail_chars,
            truncated == too_long_count(ms, protected_prefix as int, i as int, head_chars as nat, tail_chars as nat),
            forall|k: int| i <= k < ms.len() ==> #[trigger] messages@[k] == ms[k],
            forall|k: int| 0 <= k < i ==> {
                let m = #[trigger] messages@[k];
                let o = ms[k];
                &&& m.role == o.role
                &&& m.tool_calls == o.tool_calls
                &&& m.tool_name == o.tool_name
                &&& m.images == o.images
                &&& if k >= protected_prefix && too_long(o, head_chars as nat, tail_chars as nat) {
                    m.content@ == excerpt(o.content@, head_chars as nat, tail_chars as nat)
                } else {
                    m.content == o.content
                }
            },
        decreases ms.len() - i,
    {
        proof {
            lemma_too_long_count_bound(ms, protected_prefix as int, i as int, head_chars as nat, tail_chars as nat);
        }
        if i >= protected_prefix && crate::text::str_eq(messages[i].role.as_str(), "tool") {
            let chars = crate::text::chars_of(messages[i].content.as_str());
            if chars.len() > limit {
                let mut content = crate::text::string_of_range(&chars, 0, head_chars);
                crate::text::push_str(&mut content, "\n... [truncated] ...\n");
                let tail = crate::text::string_of_range(&chars, chars.len() - tail_chars, chars.len());
                crate::text::push_str(&mut content, tail.as_str());
                messages[i].content = content;
                truncated = truncated + 1;
            }
        }
        i = i + 1;
    }
    truncated
}

/// The protected prefix of `ms` followed by what is left after dropping the
/// `d` oldest evictable messages.
pub open spec fn kept_after_drop<T>(ms: Seq<T>, prefix: int, d: int) -> Seq<T> {
    ms.subrange(0, prefix) + ms.subrange(prefix + d, ms.len() as int)
}

/// Whether dropping the `d` oldest evictable messages of `costs` leaves a
/// prompt within `available` (or nothing evictable).
pub open spec fn fits_after_drop(costs: Seq<usize>, prefix: int, available: nat, d: int) -> bool {
    prefix + d >= costs.len() || cost_sum(kept_after_drop(costs, prefix, d)) <= available
}

/// How many of the oldest evictable messages must go: the fewest that
/// leave a prompt within `available`, or all of them.
pub open spec fn drops_needed(costs: Seq<usize>, prefix: int, available: nat, d: int) -> int
    decreases costs.len() - prefix - d,
{
    if prefix + d >= costs.len() || fits_after_drop(costs, prefix, available, d) {
        d
    } else {
        drops_needed(costs, prefix, available, d + 1)
    }
}

/// How many of the oldest evictable messages, of estimated `costs`, must
/// be dropped to bring the prompt within `available_tokens`.
pub fn evictions_needed(costs: &Vec<usize>, protected_prefix: usize, available_tokens: usize) -> (d: usize)
    requires
        protected_prefix <= costs@.len(),
    ensures
        d == drops_needed(costs@, protected_prefix as int, available_tokens as nat, 0),
        d <= costs@.len() - protected_prefix,
{
    let mut d: usize = 0;
    while d < costs.len() - protected_prefix
        invariant
            protected_prefix <= costs@.len(),
            d <= costs@.len() - protected_prefix,
            drops_needed(costs@, protected_prefix as int, available_tokens as nat, 0)
                == drops_needed(costs@, protected_prefix as int, available_tokens as nat, d as int),
        decreases costs@.len() - protected_prefix - d,
    {
        let kept = kept_costs(costs, protected_prefix, d);
        let fits = match sum_costs(kept.as_slice()) {
            Some(n) => n <= available_tokens,
            None => false,
        };
        if fits {
            return d;
        }
        d = d + 1;
    }
    d
}

/// `kept_after_drop` of a cost list.
fn kept_costs(costs: &Vec<usize>, protected_prefix: usize, d: usize) -> (r: Vec<usize>)
    requires
        protected_prefix + d <= costs@.len(),
    ensures
        r@ == kept_after_drop(costs@, protected_prefix as int, d as int),
{
    let mut r: Vec<usize> = Vec::new();
    let mut i: usize = 0;
    while i < protected_prefix
        invariant
            protected_prefix + d <= costs@.len(),
            i <= protected_prefix,
            r@ == costs@.subrange(0, i as int),
        decreases protected_prefix - i,
    {
        r.push(costs[i]);
        assert(r@ =~= costs@.subrange(0, i + 1));
        i = i + 1;
    }
    let n = costs.len();
    assert(protected_prefix + d <= n);
    let mut k: usize = protected_prefix + d;
    while k < costs.len()
        invariant
            protected_prefix + d <= k <= costs@.len(),
            r@ == costs@.subrange(0, protected_prefix as int) + costs@.subrange(protected_prefix + d, k as int),
        decreases costs@.len() - k,
    {
        r.push(costs[k]);
        assert(r@ =~= costs@.subrange(0, protected_prefix as int) + costs@.subrange(protected_prefix + d, k + 1));
        k = k + 1;
    }
    r
}

/// Drops the oldest evictable messages (those after `protected_prefix`),
/// as few as needed for the counter's estimates of what is left to fit
/// `available_tokens`, or all of them. Returns how many were dropped.
pub fn drop_oldest_until_fits<C: TokenCounter + ?Sized>(
    messages: &mut Vec<Message>,
    protected_prefix: usize,
    available_tokens: usize,
    counter: &C,
) -> (dropped: usize)
    ensures
        protected_prefix <= old(messages)@.len() ==> {
            &&& dropped == drops_needed(estimates(counter, old(messages)@), protected_prefix as int, available_tokens as nat, 0)
            &&& dropped <= old(messages)@.len() - protected_prefix
            &&& final(messages)@ == kept_after_drop(old(messages)@, protected_prefix as int, dropped as int)
            &&& (final(messages)@.len() <= protected_prefix
                || cost_sum(estimates(counter, final(messages)@)) <= available_tokens)
        },
        protected_prefix > old(messages)@.len() ==> dropped == 0 && final(messages)@ == old(messages)@,
{
    if protected_prefix > messages.len() {
        return 0;
    }
    let ghost ms = messages@;
    let costs = message_costs(counter, messages.as_slice());
    let d = evictions_needed(&costs, protected_prefix, available_tokens);
    proof {
        lemma_drops_needed_fits(costs@, protected_prefix as int, available_tokens as nat, 0);
        assert(kept_after_drop(ms, protected_prefix as int, 0) =~= ms);
    }
    let mut k: usize = 0;
    while k < d
        invariant
            k <= d <= ms.len() - protected_prefix,
            protected_prefix <= ms.len(),
            messages@ == kept_after_drop(ms, protected_prefix as int, k as int),
        decreases d - k,
    {
        messages.remove(protected_prefix);
        assert(messages@ =~= kept_after_drop(ms, protected_prefix as int, k + 1));
        k = k + 1;
    }
    proof {
        let c = costs@;
        assert(fits_after_drop(c, protected_prefix as int, available_tokens as nat, d as int));
        assert(estimates(counter, messages@) =~= kept_after_drop(c, protected_prefix as int, d as int));
    }
    d
}

proof fn lemma_drops_needed_fits(costs: Seq<usize>, prefix: int, available: nat, d: int)
    requires
        0 <= prefix <= costs.len(),
        0 <= d <= costs.len() - prefix,
    ensures
        d <= drops_needed(costs, prefix, available, d) <= costs.len() - prefix,
        fits_after_drop(costs, prefix, available, drops_needed(costs, prefix, available, d)),
    decreases costs.len() - prefix - d,
{
    if !(prefix + d >= costs.len() || fits_after_drop(costs, prefix, available, d)) {
        lemma_drops_needed_fits(costs, prefix, available, d + 1);
    }
}

proof fn lemma_drops_needed_minimal(costs: Seq<usize>, prefix: int, available: nat, d: int)
    requires
        0 <= prefix <= costs.len(),
        0 <= d <= costs.len() - prefix,
    ensures
        forall|e: int| d <= e < drops_needed(costs, prefix, available, d) ==> cost_sum(#[trigger] kept_after_drop(costs, prefix, e)) > available,
    decreases costs.len() - prefix - d,
{
    if !(prefix + d >= costs.len() || fits_after_drop(costs, prefix, available, d)) {
        lemma_drops_needed_minimal(costs, prefix, available, d + 1);
        assert(drops_needed(costs, prefix, available, d) == drops_needed(costs, prefix, available, d + 1));
        assert forall|e: int| d <= e < drops_needed(costs, prefix, available, d) implies cost_sum(#[trigger] kept_after_drop(costs, prefix, e)) > available by {
            if e == d {
                assert(!fits_after_drop(costs, prefix, available, d));
            }
        }
    } else {
        assert(drops_needed(costs, prefix, available, d) == d);
    }
}

/// Dropping is as small as it can be: the oldest evictable messages are
/// dropped until what is left (the protected prefix, then the newest
/// messages) fits within `available`, or until none is left to drop;
/// dropping any fewer would not fit.
pub proof fn drops_are_the_fewest_that_fit(costs: Seq<usize>, prefix: int, available: nat)
    requires
        0 <= prefix <= costs.len(),
    ensures
        ({
            let d = drops_needed(costs, prefix, available, 0);
            &&& 0 <= d <= costs.len() - prefix
            &&& d == costs.len() - prefix
                || cost_sum(costs.subrange(0, prefix) + costs.subrange(prefix + d, costs.len() as int)) <= available
            &&& forall|e: int| 0 <= e < d ==> cost_sum(
                #[trigger] (costs.subrange(0, prefix) + costs.subrange(prefix + e, costs.len() as int)),
            ) > available
        }),
{
    lemma_drops_needed_fits(costs, prefix, available, 0);
    lemma_drops_needed_minimal(costs, prefix, available, 0);
    let d = drops_needed(costs, prefix, available, 0);
    assert forall|e: int| 0 <= e < d implies cost_sum(
        #[trigger] (costs.subrange(0, prefix) + costs.subrange(prefix + e, costs.len() as int)),
    ) > available by {
        assert(cost_sum(kept_after_drop(costs, prefix, e)) > available);
    }
}

/// A tool result longer than `head + tail` characters is cut to its first
/// `head` and last `tail` characters around the truncation marker, so it
/// ends up exactly `head + tail` characters plus the marker long.
pub proof fn an_excerpt_keeps_head_and_tail(c: Seq<char>, head: nat, tail: nat)
    requires
        c.len() > head + tail,
    ensures
        excerpt(c, head, tail).len() == head + tail + "\n... [truncated] ...\n"@.len(),
        excerpt(c, head, tail).subrange(0, head as int) == c.subrange(0, head as int),
        excerpt(c, head, tail).subrange(head as int, head + "\n... [truncated] ...\n"@.len() as int) == "\n... [truncated] ...\n"@,
        excerpt(c, head, tail).subrange(excerpt(c, head, tail).len() - tail, excerpt(c, head, tail).len() as int)
            == c.subrange(c.len() - tail, c.len() as int),
{
    let m = "\n... [truncated] ...\n"@;
    let x = excerpt(c, head, tail);
    assert(x.subrange(0, head as int) =~= c.subrange(0, head as int));
    assert(x.subrange(head as int, head + m.len() as int) =~= m);
    assert(x.subrange(x.len() - tail, x.len() as int) =~= c.subrange(c.len() - tail, c.len() as int));
}

/// The default budget: an 8192-token window with 1024 kept for the reply,
/// the two most recent images kept, tool results cut to 400 characters at
/// each end, and the six most recent messages kept out of compaction.
pub proof fn default_budget_values()
    ensures
        default_context_budget().max_tokens == 8192,
        default_context_budget().output_reserve == 1024,
        default_context_budget().keep_recent_images == 2,
        default_context_budget().truncate_head_chars == 400,
        default_context_budget().truncate_tail_chars == 400,
        default_context_budget().keep_recent_uncompacted == 6,
{
}

/// How many of the messages at positions `from` to `n - 1`, none before
/// `prefix`, carry images.
pub open spec fn image_messages_between(ms: Seq<Message>, prefix: int, from: int, n: int) -> nat
    decreases n - from,
{
    if n <= from {
        0
    } else {
        image_messages_between(ms, prefix, from, n - 1) + if n - 1 >= prefix && ms[n - 1].images@.len() > 0 {
            1nat
        } else {
            0nat
        }
    }
}

proof fn lemma_between_split(ms: Seq<Message>, prefix: int, a: int, b: int, c: int)
    requires
        a <= b <= c,
    ensures
        image_messages_between(ms, prefix, a, c) == image_messages_between(ms, prefix, a, b) + image_messages_between(ms, prefix, b, c),
    decreases c - b,
{
    if c > b {
        lemma_between_split(ms, prefix, a, b, c - 1);
    }
}

proof fn lemma_positions_count(ms: Seq<Message>, prefix: int, n: int)
    requires
        0 <= n,
    ensures
        image_positions(ms, prefix, n).len() == image_messages_between(ms, prefix, 0, n),
        forall|a: int| 0 <= a < image_positions(ms, prefix, n).len() ==> ms[#[trigger] image_positions(ms, prefix, n)[a]].images@.len() > 0,
    decreases n,
{
    if n > 0 {
        lemma_positions_count(ms, prefix, n - 1);
        let prev = image_positions(ms, prefix, n - 1);
        let cur = image_positions(ms, prefix, n);
        assert forall|a: int| 0 <= a < cur.len() implies ms[#[trigger] cur[a]].images@.len() > 0 by {
            if a < prev.len() {
                assert(cur[a] == prev[a]);
            }
        }
    }
}

proof fn lemma_positions_extend(ms: Seq<Message>, prefix: int, m: int, n: int)
    requires
        0 <= m <= n,
    ensures
        image_positions(ms, prefix, m).len() <= image_positions(ms, prefix, n).len(),
        image_positions(ms, prefix, n).subrange(0, image_positions(ms, prefix, m).len() as int) == image_positions(ms, prefix, m),
    decreases n - m,
{
    if m < n {
        lemma_positions_extend(ms, prefix, m, n - 1);
        let short = image_positions(ms, prefix, m);
        let prev = image_positions(ms, prefix, n - 1);
        let cur = image_positions(ms, prefix, n);
        if n - 1 >= prefix && ms[n - 1].images@.len() > 0 {
            assert(cur.subrange(0, short.len() as int) =~= prev.subrange(0, short.len() as int));
        }
    } else {
        assert(image_positions(ms, prefix, n).subrange(0, image_positions(ms, prefix, n).len() as int) =~= image_positions(ms, prefix, n));
    }
}

/// Images are stripped from the oldest image-carrying messages after the
/// protected prefix, and the `keep` most recent keep theirs: a message
/// loses its images exactly when it is past the prefix, carries images,
/// and at least `keep` later messages past the prefix carry images too.
pub proof fn the_most_recent_images_are_kept(ms: Seq<Message>, prefix: int, keep: int, i: int)
    requires
        0 <= prefix,
        0 <= keep,
        0 <= i < ms.len(),
    ensures
        image_evicted(ms, prefix, keep, i) == (i >= prefix && ms[i].images@.len() > 0
            && image_messages_between(ms, prefix, i + 1, ms.len() as int) >= keep),
{
    let n = ms.len() as int;
    let pos = image_positions(ms, prefix, n);
    lemma_positions_count(ms, prefix, n);
    lemma_positions_from_prefix(ms, prefix, n);
    lemma_positions_sorted(ms, prefix, n);
    if i >= prefix && ms[i].images@.len() > 0 {
        let upto = image_positions(ms, prefix, i + 1);
        assert(upto == image_positions(ms, prefix, i).push(i));
        lemma_positions_extend(ms, prefix, i + 1, n);
        lemma_positions_count(ms, prefix, i + 1);
        lemma_between_split(ms, prefix, 0, i + 1, n);
        let k = upto.len() - 1;
        assert(pos[k] == upto[k]);
        assert(pos[k] == i);
        if image_evicted(ms, prefix, keep, i) {
            let q = choose|q: int| 0 <= q < pos.len() - keep && pos[q] == i;
            if q != k {
                if q < k {
                    assert(pos[q] < pos[k]);
                } else {
                    assert(pos[k] < pos[q]);
                }
            }
        }
        if image_messages_between(ms, prefix, i + 1, n) >= keep {
            assert(0 <= k < pos.len() - keep && pos[k] == i);
        }
    } else {
        if image_evicted(ms, prefix, keep, i) {
            let q = choose|q: int| 0 <= q < pos.len() - keep && pos[q] == i;
            assert(ms[pos[q]].images@.len() > 0);
        }
    }
}

} // verus!
