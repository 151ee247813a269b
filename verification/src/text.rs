//! Character-level helpers shared by the text-processing parts of the
//! library: whitespace, trimming, whitespace collapsing, prefixes and
//! decimal/hex rendering, all stated over `Seq<char>` views.
use vstd::prelude::*;

verus! {

/// Whether `c` has the Unicode `White_Space` property, the set `char::is_whitespace` tests.
pub open spec fn is_ws(c: char) -> bool {
    let u = c as u32;
    (0x9 <= u && u <= 0xD) || u == 0x20 || u == 0x85 || u == 0xA0 || u == 0x1680 || (0x2000 <= u
        && u <= 0x200A) || u == 0x2028 || u == 0x2029 || u == 0x202F || u == 0x205F || u == 0x3000
}

pub fn is_whitespace(c: char) -> (r: bool)
    ensures
        r == is_ws(c),
{
    let u = c as u32;
    (0x9 <= u && u <= 0xD) || u == 0x20 || u == 0x85 || u == 0xA0 || u == 0x1680 || (0x2000 <= u
        && u <= 0x200A) || u == 0x2028 || u == 0x2029 || u == 0x202F || u == 0x205F || u == 0x3000
}

/// `s` with leading whitespace removed.
pub open spec fn trim_start_seq(s: Seq<char>) -> Seq<char>
    decreases s.len(),
{
    if s.len() > 0 && is_ws(s[0]) {
        trim_start_seq(s.drop_first())
    } else {
        s
    }
}

/// `s` with trailing whitespace removed.
pub open spec fn trim_end_seq(s: Seq<char>) -> Seq<char>
    decreases s.len(),
{
    if s.len() > 0 && is_ws(s.last()) {
        trim_end_seq(s.drop_last())
    } else {
        s
    }
}

/// `s` with leading and trailing whitespace removed, as `str::trim` does.
pub open spec fn trim_seq(s: Seq<char>) -> Seq<char> {
    trim_end_seq(trim_start_seq(s))
}

/// Every character of `s` is whitespace (so `s.trim()` is empty).
pub open spec fn is_blank_seq(s: Seq<char>) -> bool {
    forall|i: int| 0 <= i < s.len() ==> is_ws(#[trigger] s[i])
}

/// Whitespace runs collapsed, as `s.split_whitespace().collect::<Vec<_>>().join(" ")`
/// produces them. The second component records whether a gap was seen since the
/// last word, so that the next word is preceded by one space.
pub open spec fn collapse_ws(s: Seq<char>) -> (Seq<char>, bool)
    decreases s.len(),
{
    if s.len() == 0 {
        (Seq::empty(), false)
    } else {
        let (out, gap) = collapse_ws(s.drop_last());
        let c = s.last();
        if is_ws(c) {
            (out, out.len() > 0)
        } else if gap {
            (out.push(' ').push(c), false)
        } else {
            (out.push(c), false)
        }
    }
}

pub open spec fn clean_seq(s: Seq<char>) -> Seq<char> {
    collapse_ws(s).0
}

pub open spec fn starts_with_seq(s: Seq<char>, prefix: Seq<char>) -> bool {
    prefix.len() <= s.len() && s.subrange(0, prefix.len() as int) == prefix
}

/// The decimal digits of `n`, most significant first, with no leading zeros.
pub open spec fn decimal_seq(n: nat) -> Seq<char>
    decreases n,
{
    if n < 10 {
        seq![digit_char(n)]
    } else {
        decimal_seq(n / 10).push(digit_char(n % 10))
    }
}

pub open spec fn digit_char(d: nat) -> char {
    (('0' as u32) + d) as char
}

/// The uppercase hexadecimal digit for `d < 16`.
pub open spec fn hex_digit_upper(d: nat) -> char {
    if d < 10 {
        (('0' as u32) + d) as char
    } else {
        (('A' as u32) + d - 10) as char
    }
}

/// An optional string, by its characters.
pub open spec fn opt_view(v: Option<&str>) -> Option<Seq<char>> {
    match v {
        Some(t) => Some(t@),
        None => None,
    }
}

/// The characters of `s`, in order.
pub fn chars_of(s: &str) -> (v: Vec<char>)
    ensures
        v@ == s@,
{
    let mut v: Vec<char> = Vec::new();
    for c in it: s.chars()
        invariant
            v@ == it.seq().subrange(0, it.index() as int),
            it.seq() == s@,
    {
        v.push(c);
    }
    v
}

/// Appends one character to `s` (`String::push`).
#[verifier::external_body]
pub(crate) fn push_char(s: &mut String, c: char)
    ensures
        final(s)@ == old(s)@.push(c),
{
    s.push(c);
}

/// Appends the characters of `t` to `s`.
pub fn push_str(s: &mut String, t: &str)
    ensures
        final(s)@ == old(s)@ + t@,
{
    let ghost start = s@;
    for c in it: t.chars()
        invariant
            s@ == start + it.seq().subrange(0, it.index() as int),
            it.seq() == t@,
    {
        push_char(s, c);
        assert(start + it.seq().subrange(0, it.index() + 1) == start + it.seq().subrange(
            0,
            it.index() as int,
        ).push(c));
    }
}

/// A `String` holding exactly `chars[lo..hi]`.
pub fn string_of_range(chars: &Vec<char>, lo: usize, hi: usize) -> (s: String)
    requires
        lo <= hi <= chars.len(),
    ensures
        s@ == chars@.subrange(lo as int, hi as int),
{
    let mut s = String::new();
    let mut i = lo;
    while i < hi
        invariant
            lo <= i <= hi <= chars.len(),
            s@ == chars@.subrange(lo as int, i as int),
        decreases hi - i,
    {
        push_char(&mut s, chars[i]);
        assert(chars@.subrange(lo as int, i + 1) == chars@.subrange(lo as int, i as int).push(
            chars@[i as int],
        ));
        i = i + 1;
    }
    s
}

/// A `String` holding exactly the characters of `chars`.
pub fn string_of(chars: &Vec<char>) -> (s: String)
    ensures
        s@ == chars@,
{
    let s = string_of_range(chars, 0, chars.len());
    assert(chars@.subrange(0, chars@.len() as int) == chars@);
    s
}

proof fn lemma_trim_start_skip(s: Seq<char>, i: int)
    requires
        0 <= i <= s.len(),
        forall|k: int| 0 <= k < i ==> is_ws(#[trigger] s[k]),
    ensures
        trim_start_seq(s) == trim_start_seq(s.subrange(i, s.len() as int)),
    decreases i,
{
    if i > 0 {
        lemma_trim_start_skip(s, i - 1);
        let t = s.subrange(i - 1, s.len() as int);
        assert(t[0] == s[i - 1]);
        assert(t.drop_first() == s.subrange(i, s.len() as int));
    } else {
        assert(s.subrange(0, s.len() as int) == s);
    }
}

proof fn lemma_trim_end_skip(s: Seq<char>, j: int)
    requires
        0 <= j <= s.len(),
        forall|k: int| j <= k < s.len() ==> is_ws(#[trigger] s[k]),
    ensures
        trim_end_seq(s) == trim_end_seq(s.subrange(0, j)),
    decreases s.len() - j,
{
    if j < s.len() {
        lemma_trim_end_skip(s, j + 1);
        let t = s.subrange(0, j + 1);
        assert(t.last() == s[j]);
        assert(t.drop_last() == s.subrange(0, j));
    } else {
        assert(s.subrange(0, s.len() as int) == s);
    }
}

/// `s.trim()`, as an owned string.
pub fn trim(s: &str) -> (r: String)
    ensures
        r@ == trim_seq(s@),
{
    let v = chars_of(s);
    let mut lo: usize = 0;
    while lo < v.len() && is_whitespace(v[lo])
        invariant
            lo <= v.len(),
            v@ == s@,
            forall|k: int| 0 <= k < lo ==> is_ws(#[trigger] v@[k]),
        decreases v.len() - lo,
    {
        lo = lo + 1;
    }
    proof {
        lemma_trim_start_skip(v@, lo as int);
    }
    let ghost rest = v@.subrange(lo as int, v@.len() as int);
    assert(lo == v.len() || !is_ws(rest[0]));
    let mut hi: usize = v.len();
    while hi > lo && is_whitespace(v[hi - 1])
        invariant
            lo <= hi <= v.len(),
            v@ == s@,
            forall|k: int| hi <= k < v.len() ==> is_ws(#[trigger] v@[k]),
        decreases hi,
    {
        hi = hi - 1;
    }
    proof {
        assert(trim_start_seq(rest) == rest) by {
            if rest.len() > 0 {
                assert(!is_ws(rest[0]));
            }
        }
        assert forall|k: int| hi - lo <= k < rest.len() implies is_ws(#[trigger] rest[k]) by {
            assert(rest[k] == v@[k + lo]);
        }
        lemma_trim_end_skip(rest, hi - lo);
        let core = rest.subrange(0, hi - lo);
        assert(core == v@.subrange(lo as int, hi as int));
        if core.len() > 0 {
            assert(core.last() == v@[hi - 1]);
        }
    }
    string_of_range(&v, lo, hi)
}

/// Whether `s.trim()` is empty.
pub fn is_blank(s: &str) -> (r: bool)
    ensures
        r == is_blank_seq(s@),
{
    let v = chars_of(s);
    let mut i: usize = 0;
    while i < v.len()
        invariant
            i <= v.len(),
            v@ == s@,
            forall|k: int| 0 <= k < i ==> is_ws(#[trigger] v@[k]),
        decreases v.len() - i,
    {
        if !is_whitespace(v[i]) {
            return false;
        }
        i = i + 1;
    }
    true
}

/// `s.split_whitespace().collect::<Vec<_>>().join(" ")`.
pub fn collapse_whitespace(s: &str) -> (r: String)
    ensures
        r@ == clean_seq(s@),
{
    let v = chars_of(s);
    let mut out = String::new();
    let mut gap = false;
    let mut nonempty = false;
    let mut i: usize = 0;
    while i < v.len()
        invariant
            i <= v.len(),
            v@ == s@,
            nonempty == (out@.len() > 0),
            (out@, gap) == collapse_ws(v@.subrange(0, i as int)),
        decreases v.len() - i,
    {
        let c = v[i];
        proof {
            let p = v@.subrange(0, i + 1);
            assert(p.drop_last() == v@.subrange(0, i as int));
            assert(p.last() == c);
        }
        if is_whitespace(c) {
            gap = nonempty;
        } else {
            if gap {
                push_char(&mut out, ' ');
            }
            push_char(&mut out, c);
            gap = false;
            nonempty = true;
        }
        i = i + 1;
    }
    assert(v@.subrange(0, v@.len() as int) == v@);
    out
}

/// Whether `s` starts with `prefix`.
pub fn starts_with(s: &str, prefix: &str) -> (r: bool)
    ensures
        r == starts_with_seq(s@, prefix@),
{
    let a = chars_of(s);
    let b = chars_of(prefix);
    if b.len() > a.len() {
        return false;
    }
    let mut i: usize = 0;
    while i < b.len()
        invariant
            i <= b.len() <= a.len(),
            a@ == s@,
            b@ == prefix@,
            forall|k: int| 0 <= k < i ==> a@[k] == b@[k],
        decreases b.len() - i,
    {
        if a[i] != b[i] {
            assert(s@.subrange(0, prefix@.len() as int)[i as int] != prefix@[i as int]);
            return false;
        }
        i = i + 1;
    }
    assert(s@.subrange(0, prefix@.len() as int) == prefix@);
    true
}

/// Whether `a` and `b` hold the same characters.
pub fn str_eq(a: &str, b: &str) -> (r: bool)
    ensures
        r == (a@ == b@),
{
    a.to_owned() == b.to_owned()
}

/// The number of characters in `s` (`s.chars().count()`).
pub fn char_count(s: &str) -> (n: usize)
    ensures
        n == s@.len(),
{
    let v = chars_of(s);
    v.len()
}

/// Appends the decimal rendering of `n` (as `format!("{n}")` writes it).
pub fn push_decimal(out: &mut String, n: u64)
    ensures
        final(out)@ == old(out)@ + decimal_seq(n as nat),
    decreases n,
{
    if n >= 10 {
        push_decimal(out, n / 10);
    }
    let d = (n % 10) as u32;
    let c = char_from_digit(d);
    push_char(out, c);
}

/// The ASCII digit character for `d < 10`.
pub fn char_from_digit(d: u32) -> (c: char)
    requires
        d < 10,
    ensures
        c == digit_char(d as nat),
{
    match d {
        0 => '0',
        1 => '1',
        2 => '2',
        3 => '3',
        4 => '4',
        5 => '5',
        6 => '6',
        7 => '7',
        8 => '8',
        _ => '9',
    }
}

/// The uppercase hexadecimal digit character for `d < 16`.
pub fn hex_upper(d: u8) -> (c: char)
    requires
        d < 16,
    ensures
        c == hex_digit_upper(d as nat),
{
    if d < 10 {
        char_from_digit(d as u32)
    } else {
        match d {
            10 => 'A',
            11 => 'B',
            12 => 'C',
            13 => 'D',
            14 => 'E',
            _ => 'F',
        }
    }
}


/// Whether `c` is an ASCII decimal digit.
pub open spec fn is_digit(c: char) -> bool {
    '0' <= c && c <= '9'
}

/// The value of a run of decimal digits.
pub open spec fn digits_value(s: Seq<char>) -> nat
    decreases s.len(),
{
    if s.len() == 0 {
        0
    } else {
        digits_value(s.drop_last()) * 10 + ((s.last() as int) - ('0' as int)) as nat
    }
}

/// What `str::parse` reads from `s` as an unsigned integer, before the
/// range check: an optional `+` followed by at least one ASCII digit,
/// nothing else.
pub open spec fn decimal_text(s: Seq<char>) -> Option<nat> {
    let d = unsigned_part(s);
    if d.len() > 0 && all_digits(d) {
        Some(digits_value(d))
    } else {
        None
    }
}

/// `s` without its leading `+`, if it has one.
pub open spec fn unsigned_part(s: Seq<char>) -> Seq<char> {
    if s.len() > 0 && s[0] == '+' { s.drop_first() } else { s }
}

pub open spec fn all_digits(d: Seq<char>) -> bool {
    forall|i: int| 0 <= i < d.len() ==> is_digit(#[trigger] d[i])
}

proof fn lemma_digits_value_prefix(s: Seq<char>, i: int)
    requires
        0 <= i <= s.len(),
        forall|k: int| 0 <= k < s.len() ==> is_digit(#[trigger] s[k]),
    ensures
        digits_value(s.subrange(0, i)) <= digits_value(s),
    decreases s.len() - i,
{
    if i < s.len() {
        lemma_digits_value_prefix(s, i + 1);
        let p = s.subrange(0, i + 1);
        assert(p.drop_last() == s.subrange(0, i));
    } else {
        assert(s.subrange(0, i) == s);
    }
}

proof fn lemma_digit_char(k: nat)
    requires
        k < 10,
    ensures
        digit_char(k) as int == ('0' as int) + k,
        is_digit(digit_char(k)),
{
}

proof fn lemma_decimal_digits(n: nat)
    ensures
        decimal_seq(n).len() > 0,
        all_digits(decimal_seq(n)),
        digits_value(decimal_seq(n)) == n,
    decreases n,
{
    if n < 10 {
        lemma_digit_char(n);
        assert(decimal_seq(n).drop_last() =~= Seq::<char>::empty());
        assert(digits_value(Seq::<char>::empty()) == 0);
    } else {
        lemma_decimal_digits(n / 10);
        lemma_digit_char(n % 10);
        let d = decimal_seq(n);
        assert(d.drop_last() == decimal_seq(n / 10));
        assert(d.last() == digit_char(n % 10));
        assert forall|i: int| 0 <= i < d.len() implies is_digit(#[trigger] d[i]) by {
            if i < d.len() - 1 {
                assert(d[i] == decimal_seq(n / 10)[i]);
            }
        }
        assert(n == (n / 10) * 10 + n % 10) by (nonlinear_arith);
    }
}

/// Reading back the decimal text of a number gives the number: what
/// `push_decimal` writes, `parse_decimal` reads as the same value.
pub proof fn decimal_rendering_parses_back(n: nat)
    ensures
        decimal_text(decimal_seq(n)) == Some(n),
        forall|i: int| 0 <= i < decimal_seq(n).len() ==> is_digit(#[trigger] decimal_seq(n)[i]),
{
    lemma_decimal_digits(n);
    assert(is_digit(decimal_seq(n)[0]));
    assert(unsigned_part(decimal_seq(n)) == decimal_seq(n));
}

/// An unsigned integer as `str::parse` reads it, when it is at most `max`.
pub fn parse_decimal(text: &str, max: u64) -> (r: Option<u64>)
    ensures
        r == match decimal_text(text@) {
            Some(n) => if n <= max { Some(n as u64) } else { None::<u64> },
            None => None::<u64>,
        },
{
    let chars = chars_of(text);
    let ghost s = text@;
    let start: usize = if chars.len() > 0 && chars[0] == '+' { 1 } else { 0 };
    let ghost d = unsigned_part(s);
    assert(d == chars@.subrange(start as int, chars@.len() as int));
    if start >= chars.len() {
        return None;
    }
    let mut value: u64 = 0;
    let mut i: usize = start;
    let mut overflow = false;
    while i < chars.len()
        invariant
            chars@ == s,
            start <= i <= chars@.len(),
            d == chars@.subrange(start as int, chars@.len() as int),
            d == unsigned_part(s),
            s == text@,
            d.len() > 0,
            forall|k: int| start <= k < i ==> is_digit(#[trigger] chars@[k]),
            !overflow ==> value == digits_value(chars@.subrange(start as int, i as int)),
            !overflow ==> value <= max,
            overflow ==> digits_value(chars@.subrange(start as int, i as int)) > max,
        decreases chars@.len() - i,
    {
        let c = chars[i];
        if c < '0' || c > '9' {
            assert(d[i - start] == chars@[i as int]);
            assert(!is_digit(d[i - start]));
            assert(!all_digits(d));
            return None;
        }
        let ghost p = chars@.subrange(start as int, i + 1);
        assert(p.drop_last() == chars@.subrange(start as int, i as int));
        assert(p.last() == c);
        let digit = (c as u64) - ('0' as u64);
        if !overflow {
            if digit > max || value > (max - digit) / 10 {
                overflow = true;
                assert(value * 10 + digit > max) by (nonlinear_arith)
                    requires
                        digit > max || value > (max - digit) / 10,
                        digit <= 9,
                        max >= 0,
                        value >= 0,
                ;
            } else {
                assert(value * 10 + digit <= max) by (nonlinear_arith)
                    requires
                        value <= (max - digit) / 10,
                        digit <= max,
                ;
                value = value * 10 + digit;
            }
        } else {
            let ghost q = chars@.subrange(start as int, i as int);
            assert(digits_value(p) >= digits_value(q)) by (nonlinear_arith)
                requires
                    digits_value(p) == digits_value(q) * 10 + (digit as int),
                    digit >= 0,
            ;
        }
        i = i + 1;
    }
    proof {
        assert forall|k: int| 0 <= k < d.len() implies is_digit(#[trigger] d[k]) by {
            assert(d[k] == chars@[start + k]);
        }
        assert(all_digits(d));
    }
    if overflow {
        None
    } else {
        Some(value)
    }
}


/// The whitespace-separated words of `s`, as `str::split_whitespace`
/// yields them.
pub open spec fn words(s: Seq<char>) -> Seq<Seq<char>>
    decreases s.len(),
{
    if s.len() == 0 {
        Seq::empty()
    } else {
        let w = words(s.drop_last());
        let c = s.last();
        if is_ws(c) {
            w
        } else if s.len() >= 2 && !is_ws(s[s.len() - 2]) && w.len() > 0 {
            w.update(w.len() - 1, w.last().push(c))
        } else {
            w.push(seq![c])
        }
    }
}

proof fn lemma_words_nonempty(s: Seq<char>)
    requires
        s.len() > 0,
        !is_ws(s.last()),
    ensures
        words(s).len() > 0,
    decreases s.len(),
{
}

pub open spec fn strings_view(v: Seq<String>) -> Seq<Seq<char>> {
    v.map_values(|x: String| x@)
}

/// `str::split_whitespace`, collected.
pub fn split_whitespace(s: &str) -> (r: Vec<String>)
    ensures
        strings_view(r@) == words(s@),
{
    let chars = chars_of(s);
    let mut out: Vec<String> = Vec::new();
    let mut i: usize = 0;
    while i < chars.len()
        invariant
            chars@ == s@,
            i <= chars@.len(),
            strings_view(out@) == words(chars@.subrange(0, i as int)),
        decreases chars@.len() - i,
    {
        let ghost p = chars@.subrange(0, i + 1);
        let ghost prev = chars@.subrange(0, i as int);
        assert(p.drop_last() == prev);
        let c = chars[i];
        if !is_whitespace(c) {
            let ghost before = strings_view(out@);
            if i > 0 && !is_whitespace(chars[i - 1]) && out.len() > 0 {
                assert(p[p.len() - 2] == chars@[i - 1]);
                let mut w = out.pop().unwrap();
                push_char(&mut w, c);
                out.push(w);
                assert(strings_view(out@) =~= before.update(before.len() - 1, before.last().push(c)));
            } else {
                proof {
                    if i > 0 {
                        assert(p[p.len() - 2] == chars@[i - 1]);
                        if !is_ws(chars@[i - 1]) {
                            lemma_words_nonempty(prev);
                        }
                    }
                }
                let mut w = String::new();
                push_char(&mut w, c);
                out.push(w);
                assert(strings_view(out@) =~= before.push(seq![c]));
            }
        }
        i = i + 1;
    }
    assert(chars@.subrange(0, chars@.len() as int) == chars@);
    out
}

/// The pieces of `s` between occurrences of `sep`, as `str::split` yields
/// them (always at least one piece).
pub open spec fn split_on(s: Seq<char>, sep: char) -> Seq<Seq<char>>
    decreases s.len(),
{
    if s.len() == 0 {
        seq![Seq::empty()]
    } else {
        let p = split_on(s.drop_last(), sep);
        if s.last() == sep {
            p.push(Seq::empty())
        } else {
            p.update(p.len() - 1, p.last().push(s.last()))
        }
    }
}

proof fn lemma_split_on_len(s: Seq<char>, sep: char)
    ensures
        split_on(s, sep).len() >= 1,
    decreases s.len(),
{
    if s.len() > 0 {
        lemma_split_on_len(s.drop_last(), sep);
    }
}

/// `s.split(sep).map(|piece| piece.trim().to_string())`, collected.
pub fn split_trimmed(s: &str, sep: char) -> (r: Vec<String>)
    ensures
        strings_view(r@) == split_on(s@, sep).map_values(|p: Seq<char>| trim_seq(p)),
{
    let chars = chars_of(s);
    let mut pieces: Vec<String> = Vec::new();
    let mut current = String::new();
    let mut i: usize = 0;
    while i < chars.len()
        invariant
            chars@ == s@,
            i <= chars@.len(),
            ({
                let sp = split_on(chars@.subrange(0, i as int), sep);
                &&& strings_view(pieces@) == sp.drop_last()
                &&& current@ == sp.last()
            }),
        decreases chars@.len() - i,
    {
        let ghost p = chars@.subrange(0, i + 1);
        assert(p.drop_last() == chars@.subrange(0, i as int));
        proof {
            lemma_split_on_len(chars@.subrange(0, i as int), sep);
        }
        let c = chars[i];
        if c == sep {
            let ghost before = strings_view(pieces@);
            let ghost sp = split_on(chars@.subrange(0, i as int), sep);
            let done = current;
            current = String::new();
            pieces.push(done);
            assert(strings_view(pieces@) =~= before.push(sp.last()));
            assert(sp.drop_last().push(sp.last()) =~= sp);
            assert(split_on(p, sep) == sp.push(Seq::<char>::empty()));
            assert(strings_view(pieces@) =~= split_on(p, sep).drop_last());
        } else {
            push_char(&mut current, c);
            assert(strings_view(pieces@) =~= split_on(p, sep).drop_last());
        }
        i = i + 1;
    }
    assert(chars@.subrange(0, chars@.len() as int) == chars@);
    pieces.push(current);
    let ghost raw = strings_view(pieces@);
    proof {
        lemma_split_on_len(s@, sep);
        let sp = split_on(s@, sep);
        assert(sp.drop_last().push(sp.last()) =~= sp);
        assert(raw =~= split_on(s@, sep));
    }
    let mut out: Vec<String> = Vec::new();
    let mut k: usize = 0;
    while k < pieces.len()
        invariant
            k <= pieces@.len(),
            raw == strings_view(pieces@),
            strings_view(out@) == raw.subrange(0, k as int).map_values(|p: Seq<char>| trim_seq(p)),
        decreases pieces@.len() - k,
    {
        let t = trim(pieces[k].as_str());
        let ghost before = strings_view(out@);
        assert(raw[k as int] == pieces@[k as int]@);
        out.push(t);
        assert(strings_view(out@) =~= before.push(t@));
        assert(raw.subrange(0, k + 1) =~= raw.subrange(0, k as int).push(raw[k as int]));
        assert(raw.subrange(0, k + 1).map_values(|p: Seq<char>| trim_seq(p)) =~= raw.subrange(0, k as int).map_values(|p: Seq<char>| trim_seq(p)).push(trim_seq(raw[k as int])));
        assert(strings_view(out@) =~= raw.subrange(0, k + 1).map_values(|p: Seq<char>| trim_seq(p)));
        k = k + 1;
    }
    assert(raw.subrange(0, raw.len() as int) == raw);
    out
}

/// Whether `s` is one of `v`.
pub fn contains_str(v: &[String], s: &str) -> (r: bool)
    ensures
        r == strings_view(v@).contains(s@),
{
    let mut i: usize = 0;
    while i < v.len()
        invariant
            i <= v@.len(),
            forall|k: int| 0 <= k < i ==> v@[k]@ != s@,
        decreases v@.len() - i,
    {
        if str_eq(v[i].as_str(), s) {
            assert(strings_view(v@)[i as int] == s@);
            return true;
        }
        i = i + 1;
    }
    proof {
        if strings_view(v@).contains(s@) {
            let k = choose|k: int| 0 <= k < strings_view(v@).len() && strings_view(v@)[k] == s@;
            assert(v@[k]@ == s@);
        }
    }
    false
}

} // verus!
