//! A small set of durable, user-taught facts (`nombre` -> `Juan`), kept
//! apart from the conversation transcript. Held sorted by key, so its JSON
//! form depends only on what is remembered, never on the order it was
//! remembered in.
use vstd::prelude::*;
use crate::text::{chars_of, is_blank};

verus! {

/// Code-point lexicographic order on strings, the order `String`'s `Ord`
/// gives (UTF-8 preserves it).
pub open spec fn key_lt(a: Seq<char>, b: Seq<char>) -> bool
    decreases a.len(),
{
    if a.len() == 0 {
        b.len() > 0
    } else if b.len() == 0 {
        false
    } else if a[0] != b[0] {
        (a[0] as int) < (b[0] as int)
    } else {
        key_lt(a.drop_first(), b.drop_first())
    }
}

pub proof fn lemma_key_lt_irreflexive(a: Seq<char>)
    ensures
        !key_lt(a, a),
    decreases a.len(),
{
    if a.len() > 0 {
        lemma_key_lt_irreflexive(a.drop_first());
    }
}

pub proof fn lemma_key_lt_transitive(a: Seq<char>, b: Seq<char>, c: Seq<char>)
    requires
        key_lt(a, b),
        key_lt(b, c),
    ensures
        key_lt(a, c),
    decreases a.len(),
{
    if a.len() > 0 && b.len() > 0 && c.len() > 0 && a[0] == b[0] && b[0] == c[0] {
        lemma_key_lt_transitive(a.drop_first(), b.drop_first(), c.drop_first());
    }
}

pub proof fn lemma_key_lt_total(a: Seq<char>, b: Seq<char>)
    ensures
        a == b || key_lt(a, b) || key_lt(b, a),
    decreases a.len(),
{
    if a.len() > 0 && b.len() > 0 {
        if a[0] == b[0] {
            lemma_key_lt_total(a.drop_first(), b.drop_first());
            if a.drop_first() == b.drop_first() {
                assert(a == seq![a[0]] + a.drop_first());
                assert(b == seq![b[0]] + b.drop_first());
            }
        }
    } else if a.len() == 0 && b.len() == 0 {
        assert(a =~= b);
    }
}

pub proof fn lemma_key_lt_asymmetric(a: Seq<char>, b: Seq<char>)
    requires
        key_lt(a, b),
    ensures
        !key_lt(b, a),
{
    if key_lt(b, a) {
        lemma_key_lt_transitive(a, b, a);
        lemma_key_lt_irreflexive(a);
    }
}

/// Whether `a` sorts before `b` by code point.
fn str_lt(a: &str, b: &str) -> (r: bool)
    ensures
        r == key_lt(a@, b@),
{
    let x = chars_of(a);
    let y = chars_of(b);
    let mut i: usize = 0;
    assert(x@.subrange(0, x@.len() as int) == x@);
    assert(y@.subrange(0, y@.len() as int) == y@);
    while i < x.len() && i < y.len()
        invariant
            x@ == a@,
            y@ == b@,
            i <= x@.len(),
            i <= y@.len(),
            x@.subrange(0, i as int) == y@.subrange(0, i as int),
            key_lt(a@, b@) == key_lt(x@.subrange(i as int, x@.len() as int), y@.subrange(i as int, y@.len() as int)),
        decreases x@.len() - i,
    {
        let ghost xs = x@.subrange(i as int, x@.len() as int);
        let ghost ys = y@.subrange(i as int, y@.len() as int);
        if x[i] != y[i] {
            assert(xs[0] == x@[i as int] && ys[0] == y@[i as int]);
            return x[i] < y[i];
        }
        assert(xs.drop_first() == x@.subrange(i + 1, x@.len() as int));
        assert(ys.drop_first() == y@.subrange(i + 1, y@.len() as int));
        assert(x@.subrange(0, i + 1) == x@.subrange(0, i as int).push(x@[i as int]));
        assert(y@.subrange(0, i + 1) == y@.subrange(0, i as int).push(y@[i as int]));
        i = i + 1;
    }
    i < y.len()
}

/// The keys of `entries` are strictly increasing.
pub open spec fn sorted_keys(entries: Seq<(Seq<char>, Seq<char>)>) -> bool {
    forall|i: int, j: int| 0 <= i < j < entries.len() ==> key_lt(#[trigger] entries[i].0, #[trigger] entries[j].0)
}

/// The entries as a map from key to value.
pub open spec fn entries_map(entries: Seq<(Seq<char>, Seq<char>)>) -> Map<Seq<char>, Seq<char>>
    decreases entries.len(),
{
    if entries.len() == 0 {
        Map::empty()
    } else {
        entries_map(entries.drop_last()).insert(entries.last().0, entries.last().1)
    }
}

/// `entries` with `key` set to `value`: replaced in place, or inserted
/// where its order puts it.
pub open spec fn upsert(entries: Seq<(Seq<char>, Seq<char>)>, key: Seq<char>, value: Seq<char>) -> Seq<(Seq<char>, Seq<char>)> {
    let at = insertion_point(entries, key, 0);
    if at < entries.len() && entries[at].0 == key {
        entries.update(at, (key, value))
    } else {
        entries.insert(at, (key, value))
    }
}

/// The first position at or after `i` whose key does not sort before `key`.
pub open spec fn insertion_point(entries: Seq<(Seq<char>, Seq<char>)>, key: Seq<char>, i: int) -> int
    decreases entries.len() - i,
{
    if i >= entries.len() || !key_lt(entries[i].0, key) {
        i
    } else {
        insertion_point(entries, key, i + 1)
    }
}

/// The durable facts, sorted by key with no key twice.
#[derive(Debug, Clone, Default)]
pub struct Facts {
    entries: Vec<(String, String)>,
}

impl Facts {
    /// The `(key, value)` pairs, in key order.
    pub closed spec fn entries(&self) -> Seq<(Seq<char>, Seq<char>)> {
        self.entries@.map_values(|e: (String, String)| (e.0@, e.1@))
    }

    pub open spec fn wf(&self) -> bool {
        sorted_keys(self.entries())
    }

    /// What is remembered, as a map.
    pub open spec fn view_map(&self) -> Map<Seq<char>, Seq<char>> {
        entries_map(self.entries())
    }

    pub fn new() -> (f: Self)
        ensures
            f.wf(),
            f.entries().len() == 0,
    {
        let f = Facts { entries: Vec::new() };
        assert(f.entries() =~= Seq::<(Seq<char>, Seq<char>)>::empty());
        f
    }

    pub fn is_empty(&self) -> (b: bool)
        ensures
            b == (self.entries().len() == 0),
    {
        self.entries.len() == 0
    }

    /// The facts in key order.
    pub fn iter(&self) -> (r: &[(String, String)])
        ensures
            r@.map_values(|e: (String, String)| (e.0@, e.1@)) == self.entries(),
    {
        self.entries.as_slice()
    }

    /// Records `key` = `value`, replacing any existing value for `key`.
    pub fn remember(&mut self, key: String, value: String)
        requires
            old(self).wf(),
        ensures
            final(self).wf(),
            final(self).entries() == upsert(old(self).entries(), key@, value@),
    {
        let ghost es = self.entries();
        let mut i: usize = 0;
        while i < self.entries.len() && str_lt(self.entries[i].0.as_str(), key.as_str())
            invariant
                i <= self.entries@.len(),
                self.entries() == es,
                sorted_keys(es),
                insertion_point(es, key@, 0) == insertion_point(es, key@, i as int),
                forall|k: int| 0 <= k < i ==> key_lt(#[trigger] es[k].0, key@),
            decreases self.entries@.len() - i,
        {
            assert(es[i as int].0 == self.entries@[i as int].0@);
            i = i + 1;
        }
        proof {
            if i < es.len() {
                assert(es[i as int].0 == self.entries@[i as int].0@);
            }
        }
        if i < self.entries.len() && crate::text::str_eq(self.entries[i].0.as_str(), key.as_str()) {
            let ghost k = key@;
            let ghost v = value@;
            self.entries.set(i, (key, value));
            proof {
                assert(self.entries() =~= es.update(i as int, (k, v)));
                assert forall|a: int, b: int| 0 <= a < b < self.entries().len() implies key_lt(#[trigger] self.entries()[a].0, #[trigger] self.entries()[b].0) by {
                    assert(es[a].0 == self.entries()[a].0 || a == i);
                    assert(es[b].0 == self.entries()[b].0 || b == i);
                }
            }
        } else {
            let ghost k = key@;
            let ghost v = value@;
            proof {
                if i < es.len() {
                    lemma_key_lt_total(es[i as int].0, k);
                }
            }
            self.entries.insert(i, (key, value));
            proof {
                assert(self.entries() =~= es.insert(i as int, (k, v)));
                let n = self.entries();
                assert forall|a: int, b: int| 0 <= a < b < n.len() implies key_lt(#[trigger] n[a].0, #[trigger] n[b].0) by {
                    if b < i {
                        assert(n[a] == es[a] && n[b] == es[b]);
                    } else if b == i {
                        assert(n[a] == es[a]);
                    } else if a < i {
                        assert(n[a] == es[a] && n[b] == es[b - 1]);
                    } else if a == i {
                        assert(n[b] == es[b - 1]);
                        if b - 1 > i {
                            assert(key_lt(es[i as int].0, es[b - 1].0));
                            lemma_key_lt_transitive(k, es[i as int].0, es[b - 1].0);
                        }
                    } else {
                        assert(n[a] == es[a - 1]);
                        assert(n[b] == es[b - 1]);
                    }
                }
            }
        }
    }

    /// The facts in a JSON object of `{key: value}`. Anything that is not
    /// such an object (or blank text) gives no facts: a corrupt memory file
    /// never stops the assistant from starting.
    pub fn parse(json: &str) -> (f: Self)
        ensures
            f.wf(),
            is_blank_json(json@) ==> f.entries().len() == 0,
            !is_blank_json(json@) ==> f.entries() == match json_string_object(json@) {
                Some(pairs) => upsert_all(Seq::empty(), pairs),
                None => Seq::empty(),
            },
    {
        let mut facts = Facts::new();
        if is_blank(json) {
            return facts;
        }
        let pairs = match parse_string_object(json) {
            Some(pairs) => pairs,
            None => return facts,
        };
        let ghost ps = pairs@.map_values(|e: (String, String)| (e.0@, e.1@));
        let mut i: usize = 0;
        while i < pairs.len()
            invariant
                facts.wf(),
                i <= pairs@.len(),
                ps == pairs@.map_values(|e: (String, String)| (e.0@, e.1@)),
                facts.entries() == upsert_all(Seq::empty(), ps.subrange(0, i as int)),
            decreases pairs@.len() - i,
        {
            let k = pairs[i].0.clone();
            let v = pairs[i].1.clone();
            assert(ps.subrange(0, i + 1).drop_last() == ps.subrange(0, i as int));
            assert(ps[i as int] == (k@, v@));
            facts.remember(k, v);
            i = i + 1;
        }
        assert(ps.subrange(0, ps.len() as int) == ps);
        facts
    }

    /// The facts as pretty-printed JSON, keys in sorted order.
    pub fn to_json(&self) -> (s: String)
        ensures
            s@ == json_pretty_object(self.entries()),
    {
        pretty_string_object(&self.entries)
    }
}

/// `json` holds nothing but whitespace.
pub open spec fn is_blank_json(json: Seq<char>) -> bool {
    crate::text::is_blank_seq(json)
}

/// `entries` with every pair of `pairs` set in turn.
pub open spec fn upsert_all(entries: Seq<(Seq<char>, Seq<char>)>, pairs: Seq<(Seq<char>, Seq<char>)>) -> Seq<(Seq<char>, Seq<char>)>
    decreases pairs.len(),
{
    if pairs.len() == 0 {
        entries
    } else {
        upsert(upsert_all(entries, pairs.drop_last()), pairs.last().0, pairs.last().1)
    }
}

/// What `serde_json` reads from `text` as a JSON object of strings (a
/// `BTreeMap<String, String>`), as its `(key, value)` pairs; `None` when
/// the text is not one.
pub uninterp spec fn json_string_object(text: Seq<char>) -> Option<Seq<(Seq<char>, Seq<char>)>>;

/// What `serde_json::to_string_pretty` writes for the JSON object of the
/// pairs `entries`.
pub uninterp spec fn json_pretty_object(entries: Seq<(Seq<char>, Seq<char>)>) -> Seq<char>;

/// Reads a JSON object of strings (`serde_json::from_str` into a
/// `BTreeMap<String, String>`), its pairs in key order.
#[verifier::external_body]
fn parse_string_object(text: &str) -> (r: Option<Vec<(String, String)>>)
    ensures
        match r {
            Some(v) => json_string_object(text@) == Some(v@.map_values(|e: (String, String)| (e.0@, e.1@))),
            None => json_string_object(text@) is None,
        },
{
    match serde_json::from_str::<std::collections::BTreeMap<String, String>>(text) {
        Ok(map) => Some(map.into_iter().collect()),
        Err(_) => None,
    }
}

/// Writes the pairs as a pretty-printed JSON object
/// (`serde_json::to_string_pretty` of a `BTreeMap<String, String>`).
#[verifier::external_body]
fn pretty_string_object(entries: &Vec<(String, String)>) -> (s: String)
    ensures
        s@ == json_pretty_object(entries@.map_values(|e: (String, String)| (e.0@, e.1@))),
{
    let map: std::collections::BTreeMap<&String, &String> = entries.iter().map(|e| (&e.0, &e.1)).collect();
    serde_json::to_string_pretty(&map).unwrap_or_else(|_| "{}".to_string())
}


proof fn lemma_insertion_point(entries: Seq<(Seq<char>, Seq<char>)>, key: Seq<char>, i: int)
    requires
        0 <= i <= entries.len(),
        forall|j: int| 0 <= j < i ==> key_lt(#[trigger] entries[j].0, key),
    ensures
        ({
            let at = insertion_point(entries, key, i);
            &&& i <= at <= entries.len()
            &&& forall|j: int| 0 <= j < at ==> key_lt(#[trigger] entries[j].0, key)
            &&& at < entries.len() ==> !key_lt(entries[at].0, key)
        }),
    decreases entries.len() - i,
{
    if i < entries.len() && key_lt(entries[i].0, key) {
        lemma_insertion_point(entries, key, i + 1);
    }
}

/// In sorted entries, a key is in the map exactly when some entry has it,
/// and maps to that entry's value.
proof fn lemma_entries_map_sorted(entries: Seq<(Seq<char>, Seq<char>)>)
    requires
        sorted_keys(entries),
    ensures
        forall|k: Seq<char>| #[trigger] entries_map(entries).dom().contains(k)
            <==> exists|i: int| 0 <= i < entries.len() && entries[i].0 == k,
        forall|i: int| 0 <= i < entries.len() ==> entries_map(entries)[#[trigger] entries[i].0] == entries[i].1,
    decreases entries.len(),
{
    if entries.len() > 0 {
        let init = entries.drop_last();
        assert(sorted_keys(init)) by {
            assert forall|a: int, b: int| 0 <= a < b < init.len() implies key_lt(#[trigger] init[a].0, #[trigger] init[b].0) by {
                assert(init[a] == entries[a] && init[b] == entries[b]);
            }
        }
        lemma_entries_map_sorted(init);
        let last = entries.last();
        assert forall|k: Seq<char>| (exists|i: int| 0 <= i < entries.len() && entries[i].0 == k)
            implies #[trigger] entries_map(entries).dom().contains(k) by {
            let i = choose|i: int| 0 <= i < entries.len() && entries[i].0 == k;
            if i < entries.len() - 1 {
                assert(init[i].0 == k);
            }
        }
        assert forall|k: Seq<char>| #[trigger] entries_map(entries).dom().contains(k)
            implies exists|i: int| 0 <= i < entries.len() && entries[i].0 == k by {
            if k != last.0 {
                assert(entries_map(entries) == entries_map(init).insert(last.0, last.1));
                assert(entries_map(init).dom().contains(k));
                let i = choose|i: int| 0 <= i < init.len() && init[i].0 == k;
                assert(init[i] == entries[i]);
                assert(entries[i].0 == k);
            } else {
                assert(entries[entries.len() - 1].0 == k);
            }
        }
        assert forall|i: int| 0 <= i < entries.len() implies entries_map(entries)[#[trigger] entries[i].0] == entries[i].1 by {
            if i < entries.len() - 1 {
                assert(key_lt(entries[i].0, entries[entries.len() - 1].0));
                lemma_key_lt_irreflexive(entries[i].0);
                assert(init[i] == entries[i]);
            }
        }
    }
}

proof fn lemma_upsert_sorted(entries: Seq<(Seq<char>, Seq<char>)>, key: Seq<char>, value: Seq<char>)
    requires
        sorted_keys(entries),
    ensures
        sorted_keys(upsert(entries, key, value)),
        entries_map(upsert(entries, key, value)) == entries_map(entries).insert(key, value),
{
    let at = insertion_point(entries, key, 0);
    lemma_insertion_point(entries, key, 0);
    let n = upsert(entries, key, value);
    if at < entries.len() && entries[at].0 == key {
        assert(n == entries.update(at, (key, value)));
        assert forall|a: int, b: int| 0 <= a < b < n.len() implies key_lt(#[trigger] n[a].0, #[trigger] n[b].0) by {
            assert(n[a].0 == entries[a].0);
            assert(n[b].0 == entries[b].0);
        }
    } else {
        if at < entries.len() {
            lemma_key_lt_total(entries[at].0, key);
        }
        assert(n == entries.insert(at, (key, value)));
        assert forall|a: int, b: int| 0 <= a < b < n.len() implies key_lt(#[trigger] n[a].0, #[trigger] n[b].0) by {
            if b < at {
                assert(n[a] == entries[a] && n[b] == entries[b]);
            } else if b == at {
                assert(n[a] == entries[a]);
            } else if a < at {
                assert(n[a] == entries[a] && n[b] == entries[b - 1]);
            } else if a == at {
                assert(n[b] == entries[b - 1]);
                if b - 1 > at {
                    assert(key_lt(entries[at].0, entries[b - 1].0));
                    lemma_key_lt_transitive(key, entries[at].0, entries[b - 1].0);
                }
            } else {
                assert(n[a] == entries[a - 1]);
                assert(n[b] == entries[b - 1]);
            }
        }
    }
    lemma_entries_map_sorted(entries);
    lemma_entries_map_sorted(n);
    let m1 = entries_map(n);
    let m2 = entries_map(entries).insert(key, value);
    assert forall|k: Seq<char>| m1.dom().contains(k) <==> m2.dom().contains(k) by {
        if m1.dom().contains(k) {
            let i = choose|i: int| 0 <= i < n.len() && n[i].0 == k;
            if k != key {
                if at < entries.len() && entries[at].0 == key {
                    assert(entries[i].0 == k);
                } else if i < at {
                    assert(entries[i].0 == k);
                } else {
                    assert(i != at);
                    assert(entries[i - 1].0 == k);
                }
            }
        }
        if m2.dom().contains(k) && k != key {
            let i = choose|i: int| 0 <= i < entries.len() && entries[i].0 == k;
            if at < entries.len() && entries[at].0 == key {
                assert(n[i].0 == k);
            } else if i < at {
                assert(n[i].0 == k);
            } else {
                assert(n[i + 1].0 == k);
            }
        }
        if k == key {
            if at < entries.len() && entries[at].0 == key {
                assert(n[at].0 == k);
            } else {
                assert(n[at].0 == k);
            }
        }
    }
    assert forall|k: Seq<char>| m1.dom().contains(k) implies m1[k] == m2[k] by {
        let i = choose|i: int| 0 <= i < n.len() && n[i].0 == k;
        if k != key {
            if at < entries.len() && entries[at].0 == key {
                assert(entries[i] == n[i]);
            } else if i < at {
                assert(entries[i] == n[i]);
            } else {
                assert(entries[i - 1] == n[i]);
            }
        } else {
            assert(n[at].0 == key);
            if i != at {
                if i < at {
                    lemma_key_lt_irreflexive(key);
                } else {
                    lemma_key_lt_irreflexive(key);
                    assert(key_lt(n[at].0, n[i].0));
                }
            }
        }
    }
    assert(m1 =~= m2);
}

/// Sorted entries are determined by the map they hold.
proof fn lemma_sorted_unique(e1: Seq<(Seq<char>, Seq<char>)>, e2: Seq<(Seq<char>, Seq<char>)>)
    requires
        sorted_keys(e1),
        sorted_keys(e2),
        entries_map(e1) == entries_map(e2),
    ensures
        e1 == e2,
    decreases e1.len() + e2.len(),
{
    lemma_entries_map_sorted(e1);
    lemma_entries_map_sorted(e2);
    if e1.len() == 0 || e2.len() == 0 {
        if e1.len() > 0 {
            assert(entries_map(e1).dom().contains(e1[0].0));
        }
        if e2.len() > 0 {
            assert(entries_map(e2).dom().contains(e2[0].0));
        }
        assert(e1 =~= e2);
    } else {
        let n1 = e1.len() - 1;
        let n2 = e2.len() - 1;
        let k1 = e1[n1].0;
        let k2 = e2[n2].0;
        assert(entries_map(e1).dom().contains(k1));
        assert(entries_map(e2).dom().contains(k2));
        let i2 = choose|i: int| 0 <= i < e2.len() && e2[i].0 == k1;
        let i1 = choose|i: int| 0 <= i < e1.len() && e1[i].0 == k2;
        if k1 != k2 {
            assert(i2 < n2);
            assert(key_lt(k1, k2));
            assert(i1 < n1);
            assert(key_lt(k2, k1));
            lemma_key_lt_asymmetric(k1, k2);
        }
        assert(e1[n1].1 == entries_map(e1)[k1]);
        assert(e2[n2].1 == entries_map(e2)[k2]);
        let d1 = e1.drop_last();
        let d2 = e2.drop_last();
        assert(sorted_keys(d1)) by {
            assert forall|a: int, b: int| 0 <= a < b < d1.len() implies key_lt(#[trigger] d1[a].0, #[trigger] d1[b].0) by {
                assert(d1[a] == e1[a] && d1[b] == e1[b]);
            }
        }
        assert(sorted_keys(d2)) by {
            assert forall|a: int, b: int| 0 <= a < b < d2.len() implies key_lt(#[trigger] d2[a].0, #[trigger] d2[b].0) by {
                assert(d2[a] == e2[a] && d2[b] == e2[b]);
            }
        }
        lemma_entries_map_sorted(d1);
        lemma_entries_map_sorted(d2);
        assert(!entries_map(d1).dom().contains(k1)) by {
            if entries_map(d1).dom().contains(k1) {
                let i = choose|i: int| 0 <= i < d1.len() && d1[i].0 == k1;
                assert(key_lt(e1[i].0, e1[n1].0));
                lemma_key_lt_irreflexive(k1);
            }
        }
        assert(!entries_map(d2).dom().contains(k2)) by {
            if entries_map(d2).dom().contains(k2) {
                let i = choose|i: int| 0 <= i < d2.len() && d2[i].0 == k2;
                assert(key_lt(e2[i].0, e2[n2].0));
                lemma_key_lt_irreflexive(k2);
            }
        }
        assert(entries_map(d1) =~= entries_map(e1).remove(k1));
        assert(entries_map(d2) =~= entries_map(e2).remove(k2));
        lemma_sorted_unique(d1, d2);
        assert(e1 =~= d1.push(e1[n1]));
        assert(e2 =~= d2.push(e2[n2]));
    }
}

/// Remembering facts with different keys gives the same store in either
/// order, its entries (what `iter` yields) sorted by key in strictly
/// ascending order, so its JSON form does not depend on the order facts
/// were remembered in.
pub proof fn remember_order_irrelevant(
    entries: Seq<(Seq<char>, Seq<char>)>,
    k1: Seq<char>,
    v1: Seq<char>,
    k2: Seq<char>,
    v2: Seq<char>,
)
    requires
        sorted_keys(entries),
        k1 != k2,
    ensures
        upsert(upsert(entries, k1, v1), k2, v2) == upsert(upsert(entries, k2, v2), k1, v1),
        sorted_keys(upsert(upsert(entries, k1, v1), k2, v2)),
        json_pretty_object(upsert(upsert(entries, k1, v1), k2, v2))
            == json_pretty_object(upsert(upsert(entries, k2, v2), k1, v1)),
{
    lemma_upsert_sorted(entries, k1, v1);
    lemma_upsert_sorted(upsert(entries, k1, v1), k2, v2);
    lemma_upsert_sorted(entries, k2, v2);
    lemma_upsert_sorted(upsert(entries, k2, v2), k1, v1);
    assert(entries_map(entries).insert(k1, v1).insert(k2, v2) =~= entries_map(entries).insert(k2, v2).insert(k1, v1));
    lemma_sorted_unique(upsert(upsert(entries, k1, v1), k2, v2), upsert(upsert(entries, k2, v2), k1, v1));
}

/// Two stores that remember the same facts hold the same entries, so
/// their JSON forms are identical.
pub proof fn facts_determined_by_map(f: Facts, g: Facts)
    requires
        f.wf(),
        g.wf(),
        f.view_map() == g.view_map(),
    ensures
        f.entries() == g.entries(),
        json_pretty_object(f.entries()) == json_pretty_object(g.entries()),
{
    lemma_sorted_unique(f.entries(), g.entries());
}

/// Remembering a fact records it: the store then maps `key` to `value`
/// and keeps every other fact.
pub proof fn remember_records(entries: Seq<(Seq<char>, Seq<char>)>, key: Seq<char>, value: Seq<char>)
    requires
        sorted_keys(entries),
    ensures
        sorted_keys(upsert(entries, key, value)),
        entries_map(upsert(entries, key, value)) == entries_map(entries).insert(key, value),
{
    lemma_upsert_sorted(entries, key, value);
}

/// Keys are ordered as strings compare: a key that is a proper prefix of
/// another comes first, and otherwise the first character where two keys
/// differ decides.
pub proof fn keys_are_ordered_as_strings(a: Seq<char>, b: Seq<char>, i: int)
    ensures
        (a.len() < b.len() && a == b.subrange(0, a.len() as int)) ==> key_lt(a, b),
        (0 <= i < a.len() && i < b.len() && a.subrange(0, i) == b.subrange(0, i) && a[i] != b[i])
            ==> key_lt(a, b) == ((a[i] as int) < (b[i] as int)),
    decreases a.len(),
{
    if a.len() > 0 && b.len() > 0 {
        if a.len() < b.len() && a == b.subrange(0, a.len() as int) {
            assert(a[0] == b[0]);
            assert(a.drop_first() =~= b.drop_first().subrange(0, a.drop_first().len() as int));
            keys_are_ordered_as_strings(a.drop_first(), b.drop_first(), i - 1);
        }
        if 0 <= i < a.len() && i < b.len() && a.subrange(0, i) == b.subrange(0, i) && a[i] != b[i] {
            if i > 0 {
                assert(a[0] == a.subrange(0, i)[0]);
                assert(b[0] == b.subrange(0, i)[0]);
                assert(a.drop_first().subrange(0, i - 1) =~= a.subrange(0, i).drop_first());
                assert(b.drop_first().subrange(0, i - 1) =~= b.subrange(0, i).drop_first());
                keys_are_ordered_as_strings(a.drop_first(), b.drop_first(), i - 1);
            }
        }
    }
}

} // verus!
