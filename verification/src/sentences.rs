//! Splitting an answer into sentence-sized pieces for speech, on `.`, `!`
//! and `?`, keeping a run of punctuation attached to the sentence it ends.
use vstd::prelude::*;
use crate::text::{trim_seq, is_blank_seq, push_char, trim, is_blank, string_of};

verus! {

pub open spec fn is_terminal(c: char) -> bool {
    c == '.' || c == '!' || c == '?'
}

/// `sentences` extended with `current`, trimmed, unless it is blank.
pub open spec fn flush(sentences: Seq<Seq<char>>, current: Seq<char>) -> Seq<Seq<char>> {
    if trim_seq(current).len() > 0 {
        sentences.push(trim_seq(current))
    } else {
        sentences
    }
}

/// `s` is cut at `k`: a run of terminal punctuation ends just before `k`
/// and a character that is not terminal punctuation stands at `k`.
pub open spec fn is_cut(s: Seq<char>, k: int) -> bool {
    0 < k < s.len() && is_terminal(s[k - 1]) && !is_terminal(s[k])
}

/// `k` is the last place where `s` is cut.
pub open spec fn is_last_cut(s: Seq<char>, k: int) -> bool {
    is_cut(s, k) && forall|j: int| k < j < s.len() ==> !is_cut(s, j)
}

/// The sentences of `s`: `s` is cut after every run of terminal
/// punctuation that some other character follows, and the pieces between
/// the cuts, trimmed, are the sentences, blank ones left out.
pub open spec fn sentences_of(s: Seq<char>) -> Seq<Seq<char>>
    decreases s.len(),
{
    if exists|k: int| is_last_cut(s, k) {
        let k = choose|k: int| is_last_cut(s, k);
        flush(sentences_of(s.subrange(0, k)), s.subrange(k, s.len() as int))
    } else {
        flush(Seq::empty(), s)
    }
}

/// With no cut of `s` after `c`, the sentences of the first `i` characters
/// are those before `c` followed by the piece from `c` to `i`.
proof fn lemma_sentences_upto(s: Seq<char>, c: int, i: int)
    requires
        0 <= c <= i <= s.len(),
        c == 0 || (is_cut(s, c) && c < i),
        forall|j: int| c < j < i ==> !is_cut(s, j),
    ensures
        sentences_of(s.subrange(0, i)) == flush(sentences_of(s.subrange(0, c)), s.subrange(c, i)),
{
    let t = s.subrange(0, i);
    assert forall|j: int| 0 < j < i implies is_cut(t, j) == is_cut(s, j) by {
        assert(t[j] == s[j]);
        assert(t[j - 1] == s[j - 1]);
    }
    let e = s.subrange(0, 0);
    assert(e =~= Seq::<char>::empty());
    assert(!exists|k: int| is_last_cut(e, k));
    assert(trim_seq(Seq::<char>::empty()).len() == 0);
    assert(sentences_of(e) == Seq::<Seq<char>>::empty());
    if c == 0 {
        assert(!exists|k: int| is_last_cut(t, k));
        assert(s.subrange(c, i) == t);
    } else {
        assert(is_last_cut(t, c));
        let k = choose|k: int| is_last_cut(t, k);
        assert(k == c) by {
            if k < c {
                assert(is_cut(t, c));
            } else if k > c {
                assert(!is_cut(s, k));
            }
        }
        assert(t.subrange(0, c) =~= s.subrange(0, c));
        assert(t.subrange(c, t.len() as int) =~= s.subrange(c, i));
    }
}

fn flush_into(sentences: &mut Vec<String>, current: &Vec<char>)
    ensures
        final(sentences)@.map_values(|x: String| x@) == flush(old(sentences)@.map_values(|x: String| x@), current@),
{
    let cur = string_of(current);
    let t = trim(cur.as_str());
    if !is_blank(t.as_str()) {
        proof {
            lemma_blank_iff_empty_trim(current@);
        }
        let ghost before = sentences@;
        sentences.push(t);
        assert(sentences@.map_values(|x: String| x@) == before.map_values(|x: String| x@).push(trim_seq(current@)));
    } else {
        proof {
            lemma_blank_iff_empty_trim(current@);
        }
    }
}

/// Splits `text` into sentences on `.`, `!` and `?`, keeping the
/// punctuation (a whole run such as `...` or `?!`) with the sentence it
/// ends; each piece is trimmed and blank pieces are dropped.
pub fn split_into_sentences(text: &str) -> (r: Vec<String>)
    ensures
        r@.map_values(|x: String| x@) == sentences_of(text@),
{
    let chars = crate::text::chars_of(text);
    let mut sentences: Vec<String> = Vec::new();
    let mut current: Vec<char> = Vec::new();
    let mut in_run = false;
    let ghost mut c: int = 0;
    let mut i: usize = 0;
    while i < chars.len()
        invariant
            i <= chars@.len(),
            chars@ == text@,
            0 <= c <= i,
            c == 0 || (is_cut(text@, c) && c < i),
            forall|j: int| c < j < i ==> !is_cut(text@, j),
            sentences@.map_values(|x: String| x@) == sentences_of(text@.subrange(0, c)),
            current@ == text@.subrange(c, i as int),
            in_run == (i > c && is_terminal(text@[i - 1])),
        decreases chars@.len() - i,
    {
        let ch = chars[i];
        let terminal = ch == '.' || ch == '!' || ch == '?';
        if in_run && !terminal {
            proof {
                lemma_sentences_upto(text@, c, i as int);
            }
            flush_into(&mut sentences, &current);
            current = Vec::new();
            current.push(ch);
            in_run = false;
            proof {
                c = i as int;
            }
            assert(current@ =~= text@.subrange(c, i + 1));
        } else {
            current.push(ch);
            in_run = terminal;
            assert(current@ =~= text@.subrange(c, i + 1));
        }
        i = i + 1;
    }
    proof {
        lemma_sentences_upto(text@, c, text@.len() as int);
        assert(text@.subrange(0, text@.len() as int) == text@);
    }
    flush_into(&mut sentences, &current);
    sentences
}

proof fn lemma_trim_start_props(s: Seq<char>)
    ensures
        trim_start_seq_empty_or_starts(s),
    decreases s.len(),
{
    if s.len() > 0 && crate::text::is_ws(s[0]) {
        lemma_trim_start_props(s.drop_first());
        let d = s.drop_first();
        if is_blank_seq(d) {
            assert forall|i: int| 0 <= i < s.len() implies crate::text::is_ws(#[trigger] s[i]) by {
                if i > 0 {
                    assert(s[i] == d[i - 1]);
                }
            }
        }
        if is_blank_seq(s) {
            assert forall|i: int| 0 <= i < d.len() implies crate::text::is_ws(#[trigger] d[i]) by {
                assert(s[i + 1] == d[i]);
            }
        }
    } else if s.len() > 0 {
        assert(!crate::text::is_ws(s[0]));
    }
}

spec fn trim_start_seq_empty_or_starts(s: Seq<char>) -> bool {
    let t = crate::text::trim_start_seq(s);
    (t.len() == 0 <==> is_blank_seq(s)) && (t.len() > 0 ==> !crate::text::is_ws(t[0]))
}

proof fn lemma_trim_end_props(s: Seq<char>)
    ensures
        ({
            let t = crate::text::trim_end_seq(s);
            &&& (t.len() == 0 <==> is_blank_seq(s))
            &&& (t.len() > 0 ==> !crate::text::is_ws(t.last()) && t[0] == s[0])
        }),
    decreases s.len(),
{
    if s.len() > 0 && crate::text::is_ws(s.last()) {
        lemma_trim_end_props(s.drop_last());
        let d = s.drop_last();
        if is_blank_seq(d) {
            assert forall|i: int| 0 <= i < s.len() implies crate::text::is_ws(#[trigger] s[i]) by {
                if i < d.len() {
                    assert(s[i] == d[i]);
                }
            }
        }
        if is_blank_seq(s) {
            assert forall|i: int| 0 <= i < d.len() implies crate::text::is_ws(#[trigger] d[i]) by {
                assert(s[i] == d[i]);
            }
        }
    } else if s.len() > 0 {
        assert(!crate::text::is_ws(s[s.len() - 1]));
    }
}

proof fn lemma_blank_iff_empty_trim(s: Seq<char>)
    ensures
        (trim_seq(s).len() == 0) == is_blank_seq(trim_seq(s)),
        trim_seq(s).len() == 0 <==> is_blank_seq(s),
{
    lemma_trim_start_props(s);
    let a = crate::text::trim_start_seq(s);
    lemma_trim_end_props(a);
    if trim_seq(s).len() > 0 {
        assert(!crate::text::is_ws(trim_seq(s)[0]));
    }
}

/// Whether `piece` is non-empty and neither starts nor ends with whitespace.
pub open spec fn is_trimmed_piece(piece: Seq<char>) -> bool {
    piece.len() > 0 && !crate::text::is_ws(piece[0]) && !crate::text::is_ws(piece.last())
}

proof fn lemma_trim_is_trimmed_piece(s: Seq<char>)
    requires
        trim_seq(s).len() > 0,
    ensures
        is_trimmed_piece(trim_seq(s)),
{
    lemma_trim_start_props(s);
    lemma_trim_end_props(crate::text::trim_start_seq(s));
}

proof fn lemma_flush_pieces(done: Seq<Seq<char>>, cur: Seq<char>)
    requires
        forall|k: int| 0 <= k < done.len() ==> is_trimmed_piece(#[trigger] done[k]),
    ensures
        forall|k: int| 0 <= k < flush(done, cur).len() ==> is_trimmed_piece(#[trigger] flush(done, cur)[k]),
{
    if trim_seq(cur).len() > 0 {
        lemma_trim_is_trimmed_piece(cur);
        assert forall|k: int| 0 <= k < done.push(trim_seq(cur)).len() implies is_trimmed_piece(
            #[trigger] done.push(trim_seq(cur))[k],
        ) by {
            if k < done.len() {
                assert(done.push(trim_seq(cur))[k] == done[k]);
            }
        }
    }
}

/// Every sentence is non-empty and starts and ends with a character that
/// is not whitespace: pieces are trimmed and blank ones are dropped.
pub proof fn sentences_are_trimmed_and_never_blank(text: Seq<char>)
    ensures
        forall|k: int| 0 <= k < sentences_of(text).len() ==> is_trimmed_piece(#[trigger] sentences_of(text)[k]),
    decreases text.len(),
{
    if exists|k: int| is_last_cut(text, k) {
        let k = choose|k: int| is_last_cut(text, k);
        sentences_are_trimmed_and_never_blank(text.subrange(0, k));
        lemma_flush_pieces(sentences_of(text.subrange(0, k)), text.subrange(k, text.len() as int));
    } else {
        lemma_flush_pieces(Seq::empty(), text);
    }
}

/// `gaps[0]`, `pieces[0]`, `gaps[1]`, ..., `pieces[n - 1]`, `gaps[n]`
/// joined, for `n` pieces and `n + 1` gaps.
pub open spec fn interleaved(gaps: Seq<Seq<char>>, pieces: Seq<Seq<char>>) -> Seq<char>
    decreases pieces.len(),
{
    if pieces.len() == 0 || gaps.len() == 0 {
        if gaps.len() > 0 { gaps[0] } else { Seq::empty() }
    } else {
        interleaved(gaps.drop_last(), pieces.drop_last()) + pieces.last() + gaps.last()
    }
}

proof fn lemma_interleaved_extend_gap(gaps: Seq<Seq<char>>, pieces: Seq<Seq<char>>, w: Seq<char>)
    requires
        gaps.len() == pieces.len() + 1,
    ensures
        interleaved(gaps.drop_last().push(gaps.last() + w), pieces) == interleaved(gaps, pieces) + w,
{
    let g = gaps.drop_last().push(gaps.last() + w);
    if pieces.len() > 0 {
        assert(g.drop_last() == gaps.drop_last());
        assert(interleaved(g, pieces) =~= interleaved(gaps, pieces) + w);
    }
}

/// `s` is its leading whitespace followed by the rest.
proof fn lemma_trim_start_split(s: Seq<char>)
    ensures
        s.len() >= crate::text::trim_start_seq(s).len(),
        is_blank_seq(s.subrange(0, s.len() - crate::text::trim_start_seq(s).len())),
        s == s.subrange(0, s.len() - crate::text::trim_start_seq(s).len()) + crate::text::trim_start_seq(s),
    decreases s.len(),
{
    if s.len() > 0 && crate::text::is_ws(s[0]) {
        let d = s.drop_first();
        lemma_trim_start_split(d);
        let t = crate::text::trim_start_seq(s);
        assert(t == crate::text::trim_start_seq(d));
        let n = s.len() - t.len();
        assert(s.subrange(0, n) =~= seq![s[0]] + d.subrange(0, n - 1));
        assert(s =~= seq![s[0]] + d);
        assert(seq![s[0]] + d == seq![s[0]] + (d.subrange(0, n - 1) + t));
        assert(seq![s[0]] + (d.subrange(0, n - 1) + t) =~= (seq![s[0]] + d.subrange(0, n - 1)) + t);
    } else {
        assert(s.subrange(0, 0) =~= Seq::<char>::empty());
        assert(s =~= s.subrange(0, 0) + s);
    }
}

/// `s` is the rest followed by its trailing whitespace.
proof fn lemma_trim_end_split(s: Seq<char>)
    ensures
        s.len() >= crate::text::trim_end_seq(s).len(),
        is_blank_seq(s.subrange(crate::text::trim_end_seq(s).len() as int, s.len() as int)),
        s == crate::text::trim_end_seq(s) + s.subrange(crate::text::trim_end_seq(s).len() as int, s.len() as int),
    decreases s.len(),
{
    if s.len() > 0 && crate::text::is_ws(s.last()) {
        let d = s.drop_last();
        lemma_trim_end_split(d);
        let t = crate::text::trim_end_seq(s);
        assert(t == crate::text::trim_end_seq(d));
        let n = t.len() as int;
        assert(s.subrange(n, s.len() as int) =~= d.subrange(n, d.len() as int).push(s.last()));
        assert(s =~= d.push(s.last()));
        assert(d.push(s.last()) == (t + d.subrange(n, d.len() as int)).push(s.last()));
        assert((t + d.subrange(n, d.len() as int)).push(s.last()) =~= t + d.subrange(n, d.len() as int).push(s.last()));
    } else {
        assert(s.subrange(s.len() as int, s.len() as int) =~= Seq::<char>::empty());
        assert(s =~= s + s.subrange(s.len() as int, s.len() as int));
    }
}

/// `s` is whitespace, its trimmed form, and whitespace again.
proof fn lemma_trim_split(s: Seq<char>) -> (w: (Seq<char>, Seq<char>))
    ensures
        is_blank_seq(w.0),
        is_blank_seq(w.1),
        s == w.0 + trim_seq(s) + w.1,
{
    lemma_trim_start_split(s);
    let t = crate::text::trim_start_seq(s);
    lemma_trim_end_split(t);
    let w1 = s.subrange(0, s.len() - t.len());
    let w2 = t.subrange(trim_seq(s).len() as int, t.len() as int);
    assert(s =~= w1 + trim_seq(s) + w2);
    (w1, w2)
}

/// The blank gaps that, interleaved with the sentences of `text`, give
/// back `text`.
proof fn lemma_sentence_gaps(text: Seq<char>) -> (gaps: Seq<Seq<char>>)
    ensures
        gaps.len() == sentences_of(text).len() + 1,
        forall|i: int| 0 <= i < gaps.len() ==> is_blank_seq(#[trigger] gaps[i]),
        interleaved(gaps, sentences_of(text)) == text,
    decreases text.len(),
{
    let (k, before, earlier) = if exists|k: int| is_last_cut(text, k) {
        let k = choose|k: int| is_last_cut(text, k);
        let g = lemma_sentence_gaps(text.subrange(0, k));
        (k, g, sentences_of(text.subrange(0, k)))
    } else {
        (0int, seq![Seq::<char>::empty()], Seq::<Seq<char>>::empty())
    };
    assert(interleaved(before, earlier) == text.subrange(0, k)) by {
        if k == 0 {
            assert(text.subrange(0, 0) =~= Seq::<char>::empty());
        }
    }
    let rest = text.subrange(k, text.len() as int);
    assert(text =~= text.subrange(0, k) + rest);
    assert(sentences_of(text) == flush(earlier, rest));
    let (w1, w2) = lemma_trim_split(rest);
    if trim_seq(rest).len() > 0 {
        let grown = before.drop_last().push(before.last() + w1);
        lemma_interleaved_extend_gap(before, earlier, w1);
        let gaps = grown.push(w2);
        let pieces = earlier.push(trim_seq(rest));
        assert(gaps.drop_last() == grown);
        assert(pieces.drop_last() == earlier);
        assert(interleaved(gaps, pieces) == interleaved(grown, earlier) + trim_seq(rest) + w2);
        assert(interleaved(gaps, pieces) =~= text);
        assert forall|i: int| 0 <= i < gaps.len() implies is_blank_seq(#[trigger] gaps[i]) by {
            if i == gaps.len() - 2 {
                assert(gaps[i] == before.last() + w1);
                assert(is_blank_seq(before[before.len() - 1]));
                assert forall|j: int| 0 <= j < gaps[i].len() implies crate::text::is_ws(#[trigger] gaps[i][j]) by {
                    if j < before.last().len() {
                        assert(gaps[i][j] == before.last()[j]);
                    } else {
                        assert(gaps[i][j] == w1[j - before.last().len()]);
                    }
                }
            } else if i < gaps.len() - 2 {
                assert(gaps[i] == before[i]);
            }
        }
        gaps
    } else {
        assert(is_blank_seq(rest)) by {
            lemma_blank_iff_empty_trim(rest);
        }
        let gaps = before.drop_last().push(before.last() + rest);
        lemma_interleaved_extend_gap(before, earlier, rest);
        assert(interleaved(gaps, earlier) =~= text);
        assert forall|i: int| 0 <= i < gaps.len() implies is_blank_seq(#[trigger] gaps[i]) by {
            if i == gaps.len() - 1 {
                assert(is_blank_seq(before[before.len() - 1]));
                assert forall|j: int| 0 <= j < gaps[i].len() implies crate::text::is_ws(#[trigger] gaps[i][j]) by {
                    if j < before.last().len() {
                        assert(gaps[i][j] == before.last()[j]);
                    } else {
                        assert(gaps[i][j] == rest[j - before.last().len()]);
                    }
                }
            } else {
                assert(gaps[i] == before[i]);
            }
        }
        gaps
    }
}

/// The sentences partition the text: in order, with only whitespace
/// before, between and after them, they make up the whole of it.
pub proof fn sentences_partition_the_text(text: Seq<char>)
    ensures
        exists|gaps: Seq<Seq<char>>|
            gaps.len() == sentences_of(text).len() + 1
                && (forall|i: int| 0 <= i < gaps.len() ==> is_blank_seq(#[trigger] gaps[i]))
                && #[trigger] interleaved(gaps, sentences_of(text)) == text,
{
    let gaps = lemma_sentence_gaps(text);
}

/// Only `.`, `!` and `?` end a sentence: a text without any of them is a
/// single sentence, its trimmed self, or none at all when it is blank.
pub proof fn only_final_punctuation_splits(text: Seq<char>)
    requires
        forall|i: int| 0 <= i < text.len() ==> #[trigger] text[i] != '.' && text[i] != '!' && text[i] != '?',
    ensures
        !is_blank_seq(text) ==> sentences_of(text) == seq![trim_seq(text)],
        is_blank_seq(text) ==> sentences_of(text).len() == 0,
{
    assert forall|k: int| !is_last_cut(text, k) by {
        if 0 < k < text.len() {
            assert(!is_terminal(text[k - 1]));
        }
    }
    lemma_blank_iff_empty_trim(text);
    assert(sentences_of(text) == flush(Seq::empty(), text));
    if !is_blank_seq(text) {
        assert(flush(Seq::empty(), text) =~= seq![trim_seq(text)]);
    }
}

proof fn lemma_trim_keeps_last(x: Seq<char>)
    requires
        x.len() > 0,
        !crate::text::is_ws(x.last()),
    ensures
        trim_seq(x).len() > 0,
        trim_seq(x).last() == x.last(),
{
    lemma_trim_start_split(x);
    let t = crate::text::trim_start_seq(x);
    let w = x.subrange(0, x.len() - t.len());
    if t.len() == 0 {
        assert(x =~= w);
        assert(is_blank_seq(w));
        assert(crate::text::is_ws(w[w.len() - 1]));
    }
    assert(x[x.len() - 1] == (w + t)[x.len() - 1]);
    assert(t.last() == x.last());
    assert(crate::text::trim_end_seq(t) == t);
}

proof fn lemma_last_sentence_ends_with_last(s: Seq<char>)
    requires
        s.len() > 0,
        !crate::text::is_ws(s.last()),
    ensures
        sentences_of(s).len() > 0,
        sentences_of(s).last().len() > 0,
        sentences_of(s).last().last() == s.last(),
{
    let (k, earlier) = if exists|k: int| is_last_cut(s, k) {
        let k = choose|k: int| is_last_cut(s, k);
        (k, sentences_of(s.subrange(0, k)))
    } else {
        (0int, Seq::<Seq<char>>::empty())
    };
    let rest = s.subrange(k, s.len() as int);
    if k == 0 {
        assert(rest =~= s);
    }
    assert(sentences_of(s) == flush(earlier, rest));
    assert(rest.last() == s.last());
    lemma_trim_keeps_last(rest);
    assert(flush(earlier, rest) == earlier.push(trim_seq(rest)));
}

/// Every sentence but the last ends with `.`, `!` or `?`: a text is only
/// split right after its punctuation.
pub proof fn sentences_end_with_their_punctuation(text: Seq<char>)
    ensures
        forall|j: int| 0 <= j < sentences_of(text).len() - 1 ==> {
            let p = #[trigger] sentences_of(text)[j];
            p.len() > 0 && (p.last() == '.' || p.last() == '!' || p.last() == '?')
        },
    decreases text.len(),
{
    if exists|k: int| is_last_cut(text, k) {
        let k = choose|k: int| is_last_cut(text, k);
        let prefix = text.subrange(0, k);
        let earlier = sentences_of(prefix);
        sentences_end_with_their_punctuation(prefix);
        assert(prefix.last() == text[k - 1]);
        assert(is_terminal(prefix.last()));
        lemma_last_sentence_ends_with_last(prefix);
        let rest = text.subrange(k, text.len() as int);
        assert(sentences_of(text) == flush(earlier, rest));
        sentences_are_trimmed_and_never_blank(prefix);
        assert forall|j: int| 0 <= j < sentences_of(text).len() - 1 implies {
            let p = #[trigger] sentences_of(text)[j];
            p.len() > 0 && (p.last() == '.' || p.last() == '!' || p.last() == '?')
        } by {
            assert(j < earlier.len());
            assert(sentences_of(text)[j] == earlier[j]);
            if j == earlier.len() - 1 {
                assert(earlier[j] == earlier.last());
            }
        }
    }
}

} // verus!
