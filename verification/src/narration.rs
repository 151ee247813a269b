//! Canned spoken phrases in reaction to turn events, so the user hears
//! something during the silences between tool calls. Phrases rotate per
//! category, and a category firing twice in a row is narrated once.
use vstd::prelude::*;
use crate::device::TurnState;
use crate::events::Event;
use crate::text::{push_str, starts_with, starts_with_seq, str_eq};

verus! {

/// A set of interchangeable phrases for one kind of moment.
#[derive(Debug, Clone, Copy, PartialEq, Eq)]
pub enum PhraseBank {
    Thinking,
    Verifying,
    Retrying,
    ToolError,
    ToolGeneric,
    Screenshot,
    ExecuteCommand,
    Type,
    Key,
    Click,
    Scroll,
}

/// The phrases of each bank, in rotation order.
pub open spec fn bank_phrases(bank: PhraseBank) -> Seq<Seq<char>> {
    match bank {
        PhraseBank::Thinking => seq![
            "Déjame pensar un momento."@,
            "Estoy revisando la mejor forma de hacerlo."@,
            "Un segundo, estoy evaluando los pasos."@,
            "Dame un momento para decidir el siguiente paso."@,
        ],
        PhraseBank::Verifying => seq![
            "Déjame confirmar que salió bien."@,
            "Voy a revisar que el resultado sea el esperado."@,
        ],
        PhraseBank::Retrying => seq![
            "Eso no funcionó, déjame intentar de otra forma."@,
            "No salió como esperaba, voy a probar otra cosa."@,
        ],
        PhraseBank::ToolError => seq![
            "Eso falló, voy a intentar otra cosa."@,
            "Algo salió mal ahí, dejame ajustar el enfoque."@,
        ],
        PhraseBank::ToolGeneric => seq!["Voy a usar una herramienta."@, "Voy a hacer algo en la pantalla."@],
        PhraseBank::Screenshot => seq!["Déjame ver la pantalla."@, "Voy a mirar cómo va todo."@],
        PhraseBank::ExecuteCommand => seq!["Voy a ejecutar un comando."@, "Voy a correr algo en la terminal."@],
        PhraseBank::Type => seq!["Voy a escribir eso."@, "Ahora escribo el texto."@],
        PhraseBank::Key => seq!["Presiono una tecla."@, "Ahora una tecla."@],
        PhraseBank::Click => seq!["Voy a hacer clic ahí."@, "Hago clic en ese punto."@],
        PhraseBank::Scroll => seq!["Voy a desplazar la pantalla."@, "Bajo un poco la pantalla."@],
    }
}

impl PhraseBank {
    pub fn len(&self) -> (n: usize)
        ensures
            n == bank_phrases(*self).len(),
            n > 0,
    {
        match self {
            PhraseBank::Thinking => 4,
            _ => 2,
        }
    }

    /// The phrase at position `i` of the rotation.
    pub fn phrase(&self, i: usize) -> (s: &'static str)
        requires
            i < bank_phrases(*self).len(),
        ensures
            s@ == bank_phrases(*self)[i as int],
    {
        match (self, i) {
            (PhraseBank::Thinking, 0) => "Déjame pensar un momento.",
            (PhraseBank::Thinking, 1) => "Estoy revisando la mejor forma de hacerlo.",
            (PhraseBank::Thinking, 2) => "Un segundo, estoy evaluando los pasos.",
            (PhraseBank::Thinking, _) => "Dame un momento para decidir el siguiente paso.",
            (PhraseBank::Verifying, 0) => "Déjame confirmar que salió bien.",
            (PhraseBank::Verifying, _) => "Voy a revisar que el resultado sea el esperado.",
            (PhraseBank::Retrying, 0) => "Eso no funcionó, déjame intentar de otra forma.",
            (PhraseBank::Retrying, _) => "No salió como esperaba, voy a probar otra cosa.",
            (PhraseBank::ToolError, 0) => "Eso falló, voy a intentar otra cosa.",
            (PhraseBank::ToolError, _) => "Algo salió mal ahí, dejame ajustar el enfoque.",
            (PhraseBank::ToolGeneric, 0) => "Voy a usar una herramienta.",
            (PhraseBank::ToolGeneric, _) => "Voy a hacer algo en la pantalla.",
            (PhraseBank::Screenshot, 0) => "Déjame ver la pantalla.",
            (PhraseBank::Screenshot, _) => "Voy a mirar cómo va todo.",
            (PhraseBank::ExecuteCommand, 0) => "Voy a ejecutar un comando.",
            (PhraseBank::ExecuteCommand, _) => "Voy a correr algo en la terminal.",
            (PhraseBank::Type, 0) => "Voy a escribir eso.",
            (PhraseBank::Type, _) => "Ahora escribo el texto.",
            (PhraseBank::Key, 0) => "Presiono una tecla.",
            (PhraseBank::Key, _) => "Ahora una tecla.",
            (PhraseBank::Click, 0) => "Voy a hacer clic ahí.",
            (PhraseBank::Click, _) => "Hago clic en ese punto.",
            (PhraseBank::Scroll, 0) => "Voy a desplazar la pantalla.",
            (PhraseBank::Scroll, _) => "Bajo un poco la pantalla.",
        }
    }
}

/// The bank a tool call's name is narrated from; a name without one of
/// its own falls back to generic phrases.
pub open spec fn spec_tool_phrase_bank(name: Seq<char>) -> PhraseBank {
    if name == "screenshot"@ {
        PhraseBank::Screenshot
    } else if name == "execute_command"@ {
        PhraseBank::ExecuteCommand
    } else if name == "type"@ {
        PhraseBank::Type
    } else if name == "key"@ {
        PhraseBank::Key
    } else if name == "click"@ {
        PhraseBank::Click
    } else if name == "scroll"@ {
        PhraseBank::Scroll
    } else {
        PhraseBank::ToolGeneric
    }
}

pub fn tool_phrase_bank(name: &str) -> (b: PhraseBank)
    ensures
        b == spec_tool_phrase_bank(name@),
{
    if str_eq(name, "screenshot") {
        PhraseBank::Screenshot
    } else if str_eq(name, "execute_command") {
        PhraseBank::ExecuteCommand
    } else if str_eq(name, "type") {
        PhraseBank::Type
    } else if str_eq(name, "key") {
        PhraseBank::Key
    } else if str_eq(name, "click") {
        PhraseBank::Click
    } else if str_eq(name, "scroll") {
        PhraseBank::Scroll
    } else {
        PhraseBank::ToolGeneric
    }
}

/// Turns an event into something to say, or nothing.
pub trait Narrator {
    fn narrate(&mut self, event: &Event) -> Option<String>;
}

/// The position of the first entry for `key` at or after `i`.
pub open spec fn find_key(entries: Seq<(Seq<char>, usize)>, key: Seq<char>, i: int) -> Option<int>
    decreases entries.len() - i,
{
    if i < 0 || i >= entries.len() {
        None
    } else if entries[i].0 == key {
        Some(i)
    } else {
        find_key(entries, key, i + 1)
    }
}

/// Narrates with rotating canned phrases per category, never twice in a
/// row for the same category.
#[derive(Debug, Default)]
pub struct TemplateNarrator {
    /// Per category, the position of its next phrase in its bank.
    counters: Vec<(String, usize)>,
    last_key: Option<String>,
}

impl TemplateNarrator {
    pub closed spec fn entries(&self) -> Seq<(Seq<char>, usize)> {
        self.counters@.map_values(|e: (String, usize)| (e.0@, e.1))
    }

    /// The position of the next phrase for `key` (0 before its first one).
    pub open spec fn next_index(&self, key: Seq<char>) -> nat {
        match find_key(self.entries(), key, 0) {
            Some(i) => self.entries()[i].1 as nat,
            None => 0,
        }
    }

    /// The category narrated last.
    pub closed spec fn last_key(&self) -> Option<Seq<char>> {
        match self.last_key {
            Some(k) => Some(k@),
            None => None,
        }
    }

    /// What picking from `bank` for `key` says: nothing right after the
    /// same category, otherwise the bank's next phrase.
    pub open spec fn picked(&self, key: Seq<char>, bank: PhraseBank) -> Option<Seq<char>> {
        if self.last_key() == Some(key) {
            None
        } else {
            Some(bank_phrases(bank)[(self.next_index(key) % bank_phrases(bank).len()) as int])
        }
    }

    pub fn new() -> (n: Self)
        ensures
            n.last_key() is None,
            forall|k: Seq<char>| #[trigger] n.next_index(k) == 0,
    {
        let n = TemplateNarrator { counters: Vec::new(), last_key: None };
        assert(n.entries() =~= Seq::<(Seq<char>, usize)>::empty());
        n
    }

    /// The phrase for `key` from `bank`, advancing `key`'s rotation; nothing
    /// (and no change) when `key` was also the last category narrated.
    pub fn pick(&mut self, key: &str, bank: PhraseBank) -> (r: Option<String>)
        ensures
            match r {
                Some(s) => old(self).picked(key@, bank) == Some(s@),
                None => old(self).picked(key@, bank) is None,
            },
            r is None ==> *final(self) == *old(self),
            r is Some ==> {
                &&& final(self).last_key() == Some(key@)
                &&& final(self).next_index(key@) == (old(self).next_index(key@) % bank_phrases(bank).len() + 1) % bank_phrases(bank).len()
                &&& forall|k: Seq<char>| k != key@ ==> #[trigger] final(self).next_index(k) == old(self).next_index(k)
            },
    {
        match &self.last_key {
            Some(last) => if str_eq(last.as_str(), key) {
                return None;
            },
            None => {},
        }
        let n = bank.len();
        let ghost es = self.entries();
        let mut i: usize = 0;
        while i < self.counters.len() && !str_eq(self.counters[i].0.as_str(), key)
            invariant
                i <= self.counters@.len(),
                es == self.entries(),
                find_key(es, key@, 0) == find_key(es, key@, i as int),
            decreases self.counters@.len() - i,
        {
            assert(es[i as int].0 == self.counters@[i as int].0@);
            i = i + 1;
        }
        let current: usize = if i < self.counters.len() {
            assert(es[i as int].0 == self.counters@[i as int].0@);
            self.counters[i].1 % n
        } else {
            0
        };
        proof {
            if i < es.len() {
                assert(es[i as int] == (self.counters@[i as int].0@, self.counters@[i as int].1));
                assert(find_key(es, key@, i as int) == Some(i as int));
            } else {
                assert(find_key(es, key@, i as int) is None);
            }
            assert(es == old(self).entries());
            if i < es.len() {
                assert(old(self).next_index(key@) == es[i as int].1 as nat);
                assert(current == self.counters@[i as int].1 % n);
                assert(current as nat == (es[i as int].1 as nat) % (n as nat));
            } else {
                assert(old(self).next_index(key@) == 0);
                assert(current == 0);
                assert(0nat % (n as nat) == 0) by (nonlinear_arith) requires n > 0;
            }
            assert(current == old(self).next_index(key@) % (n as nat));
        }
        let phrase = bank.phrase(current);
        let next = (current + 1) % n;
        if i < self.counters.len() {
            let k = self.counters[i].0.clone();
            self.counters.set(i, (k, next));
            proof {
                let ns = self.entries();
                assert(ns =~= es.update(i as int, (key@, next)));
                assert forall|k: Seq<char>| k != key@ implies #[trigger] self.next_index(k) == old(self).next_index(k) by {
                    lemma_find_key_update(es, i as int, next, k, 0);
                    lemma_find_key_found(es, k, 0);
                }
                lemma_find_key_update(es, i as int, next, key@, 0);
                assert(ns[i as int].1 == next);
            }
        } else {
            self.counters.push((key.to_owned(), next));
            proof {
                let ns = self.entries();
                assert(ns =~= es.push((key@, next)));
                assert forall|k: Seq<char>| k != key@ implies #[trigger] self.next_index(k) == old(self).next_index(k) by {
                    lemma_find_key_push(es, (key@, next), k, 0);
                    lemma_find_key_found(es, k, 0);
                }
                lemma_find_key_push(es, (key@, next), key@, 0);
                assert(ns[es.len() as int].1 == next);
            }
        }
        let ghost before_last = self.entries();
        let ghost mid = *self;
        assert(forall|k: Seq<char>| k != key@ ==> #[trigger] mid.next_index(k) == old(self).next_index(k));
        self.last_key = Some(key.to_owned());
        assert(self.entries() == before_last);
        assert(self.last_key() == Some(key@));
        assert(self.next_index(key@) == next);
        assert(next == (old(self).next_index(key@) % bank_phrases(bank).len() + 1) % bank_phrases(bank).len());
        assert forall|k: Seq<char>| k != key@ implies #[trigger] self.next_index(k) == old(self).next_index(k) by {
            assert(mid.next_index(k) == old(self).next_index(k));
        }
        Some(phrase.to_owned())
    }
}

proof fn lemma_find_key_update(es: Seq<(Seq<char>, usize)>, at: int, v: usize, k: Seq<char>, i: int)
    requires
        0 <= at < es.len(),
        0 <= i,
    ensures
        find_key(es.update(at, (es[at].0, v)), k, i) == find_key(es, k, i),
    decreases es.len() - i,
{
    if i < es.len() {
        lemma_find_key_update(es, at, v, k, i + 1);
    }
}

proof fn lemma_find_key_push(es: Seq<(Seq<char>, usize)>, e: (Seq<char>, usize), k: Seq<char>, i: int)
    requires
        0 <= i <= es.len(),
        find_key(es, e.0, i) is None,
    ensures
        k != e.0 ==> find_key(es.push(e), k, i) == find_key(es, k, i),
        k == e.0 ==> find_key(es.push(e), k, i) == Some(es.len() as int),
    decreases es.len() + 1 - i,
{
    assert(es.push(e)[es.len() as int] == e);
    if i < es.len() {
        assert(es.push(e)[i] == es[i]);
        lemma_find_key_push(es, e, k, i + 1);
    } else {
        assert(find_key(es.push(e), k, i + 1) is None);
    }
}

proof fn lemma_find_key_found(es: Seq<(Seq<char>, usize)>, k: Seq<char>, i: int)
    ensures
        find_key(es, k, i) matches Some(j) ==> 0 <= j < es.len() && es[j].0 == k,
    decreases es.len() - i,
{
    if 0 <= i < es.len() && es[i].0 != k {
        lemma_find_key_found(es, k, i + 1);
    }
}

/// The category an event is narrated under, with its phrase bank:
/// `Thinking` and `Verifying`, each tool, retries and failed tool calls;
/// `None` for an event that is never narrated.
pub open spec fn narration_category(event: Event) -> Option<(Seq<char>, PhraseBank)> {
    match event {
        Event::StateChanged { state: TurnState::Thinking } => Some(("state:thinking"@, PhraseBank::Thinking)),
        Event::StateChanged { state: TurnState::Verifying } => Some(("state:verifying"@, PhraseBank::Verifying)),
        Event::ToolStarted { name, .. } => Some(("tool:"@ + name@, spec_tool_phrase_bank(name@))),
        Event::Retrying { .. } => Some(("retry"@, PhraseBank::Retrying)),
        Event::ToolCompleted { output, .. } => if starts_with_seq(output@, "ERROR:"@) {
            Some(("tool_error"@, PhraseBank::ToolError))
        } else {
            None
        },
        _ => None,
    }
}

/// What an event is narrated as, given the narrator's state.
pub open spec fn narration_of(n: TemplateNarrator, event: Event) -> Option<Seq<char>> {
    match narration_category(event) {
        Some((key, bank)) => n.picked(key, bank),
        None => None,
    }
}

/// The narrator's state after narrating `event` from state `n`: unchanged
/// when the event says nothing; otherwise its category becomes the last
/// one and that category's rotation moves one phrase on.
pub open spec fn narrated(n: TemplateNarrator, event: Event, after: TemplateNarrator) -> bool {
    match narration_category(event) {
        Some((key, bank)) => if n.last_key() == Some(key) {
            after == n
        } else {
            &&& after.last_key() == Some(key)
            &&& after.next_index(key) == (n.next_index(key) % bank_phrases(bank).len() + 1) % bank_phrases(bank).len()
            &&& forall|k: Seq<char>| k != key ==> #[trigger] after.next_index(k) == n.next_index(k)
        },
        None => after == n,
    }
}

impl Narrator for TemplateNarrator {
    /// `Thinking` and `Verifying` (the states with real silent gaps behind
    /// them), each tool call, each retry and each failed tool call are
    /// narrated; every other event is silent.
    fn narrate(&mut self, event: &Event) -> (r: Option<String>)
        ensures
            match r {
                Some(s) => narration_of(*old(self), *event) == Some(s@),
                None => narration_of(*old(self), *event) is None,
            },
            narrated(*old(self), *event, *final(self)),
    {
        match event {
            Event::StateChanged { state: TurnState::Thinking } => self.pick("state:thinking", PhraseBank::Thinking),
            Event::StateChanged { state: TurnState::Verifying } => self.pick("state:verifying", PhraseBank::Verifying),
            Event::ToolStarted { name, .. } => {
                let mut key = "tool:".to_owned();
                push_str(&mut key, name.as_str());
                let bank = tool_phrase_bank(name.as_str());
                self.pick(key.as_str(), bank)
            },
            Event::Retrying { .. } => self.pick("retry", PhraseBank::Retrying),
            Event::ToolCompleted { output, .. } => if starts_with(output.as_str(), "ERROR:") {
                self.pick("tool_error", PhraseBank::ToolError)
            } else {
                None
            },
            _ => None,
        }
    }
}

/// A category is never narrated twice in a row: right after it was
/// narrated, the same category says nothing.
pub proof fn never_twice_in_a_row(n: TemplateNarrator, key: Seq<char>, bank: PhraseBank)
    requires
        n.last_key() == Some(key),
    ensures
        n.picked(key, bank) is None,
{
}

/// Each tool with phrases of its own is narrated from its own bank, and
/// only that tool is: a screenshot, a command, typing, a key press, a
/// click and a scroll each have their bank; any other tool gets the
/// generic phrases.
pub proof fn each_named_tool_has_its_own_bank(name: Seq<char>)
    ensures
        (spec_tool_phrase_bank(name) == PhraseBank::Screenshot) == (name == "screenshot"@),
        (spec_tool_phrase_bank(name) == PhraseBank::ExecuteCommand) == (name == "execute_command"@),
        (spec_tool_phrase_bank(name) == PhraseBank::Type) == (name == "type"@),
        (spec_tool_phrase_bank(name) == PhraseBank::Key) == (name == "key"@),
        (spec_tool_phrase_bank(name) == PhraseBank::Click) == (name == "click"@),
        (spec_tool_phrase_bank(name) == PhraseBank::Scroll) == (name == "scroll"@),
        (spec_tool_phrase_bank(name) == PhraseBank::ToolGeneric) == !(name == "screenshot"@ || name == "execute_command"@
            || name == "type"@ || name == "key"@ || name == "click"@ || name == "scroll"@),
{
    reveal_strlit("screenshot");
    reveal_strlit("execute_command");
    reveal_strlit("type");
    reveal_strlit("key");
    reveal_strlit("click");
    reveal_strlit("scroll");
    assert("screenshot"@.len() == 10);
    assert("execute_command"@.len() == 15);
    assert("type"@.len() == 4);
    assert("key"@.len() == 3);
    assert("click"@.len() == 5);
    assert("scroll"@.len() == 6);
}

/// The first time a tool is narrated (its rotation at the start, and not
/// the category narrated last), it is announced with the first phrase of
/// its own kind of action, whatever its arguments.
pub proof fn a_tool_is_first_announced_by_what_it_does(n: TemplateNarrator, name: String, arguments: String)
    requires
        n.last_key() != Some("tool:"@ + name@),
        n.next_index("tool:"@ + name@) == 0,
    ensures
        ({
            let said = narration_of(n, Event::ToolStarted { name, arguments });
            &&& name@ == "screenshot"@ ==> said == Some("Déjame ver la pantalla."@)
            &&& name@ == "execute_command"@ ==> said == Some("Voy a ejecutar un comando."@)
            &&& name@ == "type"@ ==> said == Some("Voy a escribir eso."@)
            &&& name@ == "key"@ ==> said == Some("Presiono una tecla."@)
            &&& name@ == "click"@ ==> said == Some("Voy a hacer clic ahí."@)
            &&& name@ == "scroll"@ ==> said == Some("Voy a desplazar la pantalla."@)
            &&& !(name@ == "screenshot"@ || name@ == "execute_command"@ || name@ == "type"@ || name@ == "key"@
                || name@ == "click"@ || name@ == "scroll"@) ==> said == Some("Voy a usar una herramienta."@)
        }),
{
    each_named_tool_has_its_own_bank(name@);
    let bank = spec_tool_phrase_bank(name@);
    assert(bank_phrases(bank).len() >= 2);
    assert(0nat % (bank_phrases(bank).len() as nat) == 0) by (nonlinear_arith)
        requires
            bank_phrases(bank).len() >= 2,
    ;
}

} // verus!
