//! The conversation history kept across turns: the system prompt, then the
//! most recent complete text turns, bounded in number.
use vstd::prelude::*;
use crate::llm::{Message, copy_messages, same_message};
use crate::text::str_eq;

verus! {

/// How many messages the transcript keeps besides the system prompt: the
/// system prompt at index 0 is never counted against this bound nor pruned.
pub const MAX_HISTORY_MESSAGES: usize = 20;

/// `ms` with `m` appended, then cut back to the first message and the most
/// recent `MAX_HISTORY_MESSAGES` others when it grew past the bound.
pub open spec fn pushed(ms: Seq<Message>, m: Message) -> Seq<Message> {
    let all = ms.push(m);
    if all.len() <= MAX_HISTORY_MESSAGES + 1 {
        all
    } else {
        seq![all[0]] + all.subrange(all.len() - MAX_HISTORY_MESSAGES, all.len() as int)
    }
}

/// The persisted conversation history. Only complete text turns are kept:
/// the tool chatter of a turn lives in that turn's prompt only.
pub struct Transcript {
    messages: Vec<Message>,
}

impl View for Transcript {
    type V = Seq<Message>;

    closed spec fn view(&self) -> Seq<Message> {
        self.messages@
    }
}

impl Transcript {
    /// The system prompt is present and the history within its bound.
    pub open spec fn wf(&self) -> bool {
        1 <= self@.len() <= MAX_HISTORY_MESSAGES + 1
    }

    /// Seeds the transcript with the system prompt at index 0.
    pub fn new(system_prompt: Message) -> (t: Self)
        ensures
            t.wf(),
            t@ == seq![system_prompt],
    {
        let mut messages = Vec::new();
        messages.push(system_prompt);
        Transcript { messages }
    }

    /// Appends a message, then drops the oldest non-system messages until
    /// at most `MAX_HISTORY_MESSAGES` others are left beside the system
    /// prompt.
    pub fn push(&mut self, message: Message)
        requires
            old(self).wf(),
        ensures
            final(self).wf(),
            final(self)@ == pushed(old(self)@, message),
    {
        let ghost all = self.messages@.push(message);
        self.messages.push(message);
        proof {
            assert(all.subrange(all.len() - (all.len() - 1), all.len() as int) =~= all.subrange(1, all.len() as int));
            assert(self.messages@ =~= seq![all[0]] + all.subrange(all.len() - (self.messages@.len() - 1), all.len() as int));
        }
        while self.messages.len() > MAX_HISTORY_MESSAGES + 1
            invariant
                2 <= all.len() <= MAX_HISTORY_MESSAGES + 2,
                1 <= self.messages@.len() <= all.len(),
                self.messages@.len() == all.len() || self.messages@.len() >= MAX_HISTORY_MESSAGES + 1,
                self.messages@ == seq![all[0]] + all.subrange(all.len() - (self.messages@.len() - 1), all.len() as int),
            decreases self.messages@.len(),
        {
            let ghost before = self.messages@;
            self.messages.remove(1);
            proof {
                let n = self.messages@.len();
                assert(self.messages@ =~= seq![all[0]] + all.subrange(all.len() - (n - 1), all.len() as int));
            }
        }
        proof {
            if all.len() <= MAX_HISTORY_MESSAGES + 1 {
                assert(self.messages@.len() == all.len());
                assert(self.messages@ =~= all);
            }
        }
    }

    /// A copy of the persisted messages, for building a turn's prompt
    /// without touching the transcript.
    pub fn snapshot(&self) -> (r: Vec<Message>)
        ensures
            r@.len() == self@.len(),
            forall|i: int| 0 <= i < r@.len() ==> same_message(#[trigger] r@[i], self@[i]),
    {
        copy_messages(self.messages.as_slice())
    }

    /// Number of persisted messages, including the system prompt.
    pub fn len(&self) -> (n: usize)
        ensures
            n == self@.len(),
    {
        self.messages.len()
    }

    pub fn is_empty(&self) -> (b: bool)
        ensures
            b == (self@.len() == 0),
    {
        self.messages.len() == 0
    }

    /// The system prompt's content, if the first message is a system
    /// message.
    pub fn system_prompt(&self) -> (r: Option<&str>)
        ensures
            r is Some <==> (self@.len() > 0 && self@[0].role@ == "system"@),
            r matches Some(c) ==> c@ == self@[0].content@,
    {
        if self.messages.len() == 0 {
            return None;
        }
        if str_eq(self.messages[0].role.as_str(), "system") {
            Some(self.messages[0].content.as_str())
        } else {
            None
        }
    }
}

/// The system prompt is never pruned nor counted: at most
/// `MAX_HISTORY_MESSAGES` other messages are kept, the oldest dropped
/// first, and the message just pushed is always the newest one kept.
pub proof fn transcript_push_keeps_system_prompt(ms: Seq<Message>, m: Message)
    requires
        1 <= ms.len() <= MAX_HISTORY_MESSAGES + 1,
    ensures
        pushed(ms, m)[0] == ms[0],
        pushed(ms, m).len() == if ms.len() <= MAX_HISTORY_MESSAGES { ms.len() + 1 } else { ms.len() },
        pushed(ms, m).last() == m,
        pushed(ms, m).subrange(1, pushed(ms, m).len() as int)
            == ms.push(m).subrange(ms.len() + 1 - (pushed(ms, m).len() - 1), ms.len() as int + 1),
{
    let all = ms.push(m);
    if all.len() > MAX_HISTORY_MESSAGES + 1 {
        assert(pushed(ms, m).subrange(1, pushed(ms, m).len() as int)
            =~= all.subrange(all.len() - MAX_HISTORY_MESSAGES, all.len() as int));
    } else {
        assert(pushed(ms, m).subrange(1, pushed(ms, m).len() as int) =~= all.subrange(1, all.len() as int));
    }
}

/// The history after pushing each message of `ms` in turn onto `start`.
pub open spec fn pushed_all(start: Seq<Message>, ms: Seq<Message>) -> Seq<Message>
    decreases ms.len(),
{
    if ms.len() == 0 {
        start
    } else {
        pushed(pushed_all(start, ms.drop_last()), ms.last())
    }
}

/// However many messages are pushed onto a transcript that starts with its
/// system prompt, that prompt stays first and the history stays within its
/// bound, so `system_prompt` keeps returning it.
pub proof fn system_prompt_survives_every_push(system: Message, ms: Seq<Message>)
    ensures
        pushed_all(seq![system], ms)[0] == system,
        1 <= pushed_all(seq![system], ms).len() <= MAX_HISTORY_MESSAGES + 1,
    decreases ms.len(),
{
    if ms.len() > 0 {
        system_prompt_survives_every_push(system, ms.drop_last());
        transcript_push_keeps_system_prompt(pushed_all(seq![system], ms.drop_last()), ms.last());
    }
}

} // verus!
