//! Percent-encoding of query values and decoding of encoded ones.
use vstd::prelude::*;
use vstd::utf8::{encode_utf8, valid_utf8, decode_utf8, is_ascii_chars, is_ascii_chars_encode_utf8};
use crate::text::{push_char, hex_upper, hex_digit_upper};

verus! {

/// Bytes left as they are: ASCII letters, digits, `-`, `_`, `.`, `~`.
pub open spec fn is_unreserved(b: u8) -> bool {
    (65u8 <= b && b <= 90u8) || (97u8 <= b && b <= 122u8) || (48u8 <= b && b <= 57u8) || b == 45u8
        || b == 95u8 || b == 46u8 || b == 126u8
}

/// How one byte is written: as itself when unreserved, as `+` for a space
/// when `space_as_plus`, else as `%XX` with uppercase hex digits.
pub open spec fn encode_byte(b: u8, space_as_plus: bool) -> Seq<char> {
    if is_unreserved(b) {
        seq![b as char]
    } else if space_as_plus && b == 32u8 {
        seq!['+']
    } else {
        seq!['%', hex_digit_upper((b / 16) as nat), hex_digit_upper((b % 16) as nat)]
    }
}

/// The encoding of every byte, in order.
pub open spec fn encode_bytes(bytes: Seq<u8>, space_as_plus: bool) -> Seq<char>
    decreases bytes.len(),
{
    if bytes.len() == 0 {
        Seq::empty()
    } else {
        encode_bytes(bytes.drop_last(), space_as_plus) + encode_byte(bytes.last(), space_as_plus)
    }
}

/// The UTF-8 bytes of `value`, percent-encoded.
pub fn percent_encode(value: &str, space_as_plus: bool) -> (r: String)
    ensures
        r@ == encode_bytes(encode_utf8(value@), space_as_plus),
{
    let bytes = value.as_bytes();
    let mut out = String::new();
    let mut i: usize = 0;
    while i < bytes.len()
        invariant
            i <= bytes@.len(),
            bytes@ == encode_utf8(value@),
            out@ == encode_bytes(bytes@.subrange(0, i as int), space_as_plus),
        decreases bytes@.len() - i,
    {
        let b = bytes[i];
        proof {
            let p = bytes@.subrange(0, i + 1);
            assert(p.drop_last() == bytes@.subrange(0, i as int));
            assert(p.last() == b);
        }
        let ghost before = out@;
        if (65u8 <= b && b <= 90u8) || (97u8 <= b && b <= 122u8) || (48u8 <= b && b <= 57u8) || b == 45u8
            || b == 95u8 || b == 46u8 || b == 126u8 {
            push_char(&mut out, b as char);
        } else if space_as_plus && b == 32u8 {
            push_char(&mut out, '+');
        } else {
            push_char(&mut out, '%');
            push_char(&mut out, hex_upper(b / 16));
            push_char(&mut out, hex_upper(b % 16));
        }
        assert(out@ =~= before + encode_byte(b, space_as_plus));
        i = i + 1;
    }
    assert(bytes@.subrange(0, bytes@.len() as int) == bytes@);
    out
}

/// The value of one hexadecimal digit (either case).
pub open spec fn hex_value(b: u8) -> Option<u8> {
    if 48u8 <= b && b <= 57u8 {
        Some((b - 48u8) as u8)
    } else if 97u8 <= b && b <= 102u8 {
        Some((b - 97u8 + 10) as u8)
    } else if 65u8 <= b && b <= 70u8 {
        Some((b - 65u8 + 10) as u8)
    } else {
        None
    }
}

/// The byte `%hi lo` stands for, as `u8::from_str_radix` reads the two
/// characters in base 16: two hex digits, or `+` and one hex digit.
pub open spec fn escape_value(hi: u8, lo: u8) -> Option<u8> {
    match (hex_value(hi), hex_value(lo)) {
        (Some(h), Some(l)) => Some((h * 16 + l) as u8),
        (None, Some(l)) => if hi == 43u8 { Some(l) } else { None },
        _ => None,
    }
}

/// The bytes `b[i..]` decode to: `%XX` escapes become their byte (an
/// invalid escape is dropped together with the two characters after the
/// `%`, and a `%` with fewer than two characters after it ends the input),
/// `+` becomes a space, and every other byte stays.
pub open spec fn decode_from(b: Seq<u8>, i: int) -> Seq<u8>
    decreases b.len() - i,
{
    if i < 0 || i >= b.len() {
        Seq::empty()
    } else if b[i] == 37u8 {
        if i + 2 < b.len() {
            match escape_value(b[i + 1], b[i + 2]) {
                Some(v) => seq![v] + decode_from(b, i + 3),
                None => decode_from(b, i + 3),
            }
        } else {
            Seq::empty()
        }
    } else if b[i] == 43u8 {
        seq![32u8] + decode_from(b, i + 1)
    } else {
        seq![b[i]] + decode_from(b, i + 1)
    }
}

fn hex_digit_value(b: u8) -> (r: Option<u8>)
    ensures
        r == hex_value(b),
{
    if 48u8 <= b && b <= 57u8 {
        Some(b - 48u8)
    } else if 97u8 <= b && b <= 102u8 {
        Some(b - 97u8 + 10)
    } else if 65u8 <= b && b <= 70u8 {
        Some(b - 65u8 + 10)
    } else {
        None
    }
}

fn escape(hi: u8, lo: u8) -> (r: Option<u8>)
    ensures
        r == escape_value(hi, lo),
{
    match (hex_digit_value(hi), hex_digit_value(lo)) {
        (Some(h), Some(l)) => Some(h * 16 + l),
        (None, Some(l)) => if hi == 43u8 {
            Some(l)
        } else {
            None
        },
        _ => None,
    }
}

/// The bytes `value` decodes to.
pub fn percent_decode_bytes(value: &str) -> (r: Vec<u8>)
    ensures
        r@ == decode_from(encode_utf8(value@), 0),
{
    let bytes = value.as_bytes();
    let ghost b = bytes@;
    let mut out: Vec<u8> = Vec::new();
    let mut i: usize = 0;
    while i < bytes.len()
        invariant
            b == bytes@,
            b == encode_utf8(value@),
            i <= b.len() + 2,
            decode_from(b, 0) == out@ + decode_from(b, i as int),
        decreases b.len() - i,
    {
        let c = bytes[i];
        if c == 37u8 {
            if bytes.len() - i > 2 {
                match escape(bytes[i + 1], bytes[i + 2]) {
                    Some(v) => {
                        out.push(v);
                        assert(decode_from(b, 0) == out@ + decode_from(b, i + 3));
                    },
                    None => {},
                }
                i = i + 3;
            } else {
                assert(decode_from(b, i as int) == Seq::<u8>::empty());
                assert(decode_from(b, 0) == out@);
                return out;
            }
        } else if c == 43u8 {
            out.push(32u8);
            assert(decode_from(b, 0) == out@ + decode_from(b, i + 1));
            i = i + 1;
        } else {
            out.push(c);
            assert(decode_from(b, 0) == out@ + decode_from(b, i + 1));
            i = i + 1;
        }
    }
    assert(decode_from(b, 0) == out@);
    out
}

/// The bytes of a string of ASCII characters.
pub open spec fn ascii_bytes(cs: Seq<char>) -> Seq<u8> {
    cs.map_values(|c: char| c as u8)
}

proof fn lemma_hex_digit_round_trip(d: nat)
    requires
        d < 16,
    ensures
        hex_digit_upper(d) <= '\u{7f}',
        hex_value(hex_digit_upper(d) as u8) == Some(d as u8),
{
}

proof fn lemma_encode_byte_ascii(b: u8, space_as_plus: bool)
    ensures
        is_ascii_chars(encode_byte(b, space_as_plus)),
{
    lemma_hex_digit_round_trip((b / 16) as nat);
    lemma_hex_digit_round_trip((b % 16) as nat);
}

proof fn lemma_encode_bytes_ascii(b: Seq<u8>, space_as_plus: bool)
    ensures
        is_ascii_chars(encode_bytes(b, space_as_plus)),
    decreases b.len(),
{
    if b.len() > 0 {
        lemma_encode_bytes_ascii(b.drop_last(), space_as_plus);
        lemma_encode_byte_ascii(b.last(), space_as_plus);
        let head = encode_bytes(b.drop_last(), space_as_plus);
        let unit = encode_byte(b.last(), space_as_plus);
        assert forall|i: int| 0 <= i < (head + unit).len() implies '\0' <= #[trigger] (head + unit)[i] <= '\u{7f}' by {
            if i < head.len() {
                assert((head + unit)[i] == head[i]);
            } else {
                assert((head + unit)[i] == unit[i - head.len()]);
            }
        }
    }
}

proof fn lemma_encode_bytes_first(b: Seq<u8>, space_as_plus: bool)
    requires
        b.len() > 0,
    ensures
        encode_bytes(b, space_as_plus) == encode_byte(b[0], space_as_plus) + encode_bytes(b.drop_first(), space_as_plus),
    decreases b.len(),
{
    if b.len() == 1 {
        assert(b.drop_first() =~= Seq::<u8>::empty());
        assert(b.drop_last() =~= Seq::<u8>::empty());
        assert(encode_bytes(b.drop_last(), space_as_plus) =~= Seq::<char>::empty());
        assert(encode_bytes(b.drop_first(), space_as_plus) =~= Seq::<char>::empty());
        assert(encode_bytes(b, space_as_plus) =~= encode_byte(b[0], space_as_plus));
    } else {
        lemma_encode_bytes_first(b.drop_last(), space_as_plus);
        assert(b.drop_last().drop_first() =~= b.drop_first().drop_last());
        assert(b.drop_first().last() == b.last());
        assert(encode_bytes(b, space_as_plus) =~= encode_byte(b[0], space_as_plus) + encode_bytes(b.drop_first(), space_as_plus));
    }
}

proof fn lemma_decode_shift(p: Seq<u8>, q: Seq<u8>, j: int)
    requires
        0 <= j,
    ensures
        decode_from(p + q, p.len() + j) == decode_from(q, j),
    decreases q.len() - j,
{
    let s = p + q;
    let i = p.len() + j;
    if j < q.len() {
        assert(s[i] == q[j]);
        if q[j] == 37u8 {
            if j + 2 < q.len() {
                assert(s[i + 1] == q[j + 1]);
                assert(s[i + 2] == q[j + 2]);
                lemma_decode_shift(p, q, j + 3);
            }
        } else {
            lemma_decode_shift(p, q, j + 1);
        }
    }
}

proof fn lemma_decode_ascii_encoding(b: Seq<u8>, space_as_plus: bool)
    ensures
        decode_from(ascii_bytes(encode_bytes(b, space_as_plus)), 0) == b,
    decreases b.len(),
{
    if b.len() == 0 {
        assert(ascii_bytes(encode_bytes(b, space_as_plus)) =~= Seq::<u8>::empty());
        assert(b =~= Seq::<u8>::empty());
    } else {
        let b0 = b[0];
        let rest = b.drop_first();
        lemma_encode_bytes_first(b, space_as_plus);
        lemma_decode_ascii_encoding(rest, space_as_plus);
        let u = ascii_bytes(encode_byte(b0, space_as_plus));
        let r = ascii_bytes(encode_bytes(rest, space_as_plus));
        let s = u + r;
        assert(ascii_bytes(encode_bytes(b, space_as_plus)) =~= s);
        lemma_decode_shift(u, r, 0);
        if is_unreserved(b0) {
            assert(u.len() == 1);
            assert(s[0] == b0);
            assert(decode_from(s, 0) == seq![b0] + decode_from(s, 1));
        } else if space_as_plus && b0 == 32u8 {
            assert(u.len() == 1);
            assert(s[0] == 43u8);
            assert(decode_from(s, 0) == seq![32u8] + decode_from(s, 1));
        } else {
            let h = (b0 / 16) as nat;
            let l = (b0 % 16) as nat;
            lemma_hex_digit_round_trip(h);
            lemma_hex_digit_round_trip(l);
            assert(u.len() == 3);
            assert(s[0] == 37u8);
            assert(s[1] == hex_digit_upper(h) as u8);
            assert(s[2] == hex_digit_upper(l) as u8);
            assert(((h as u8) * 16 + (l as u8)) as u8 == b0);
            assert(escape_value(s[1], s[2]) == Some(b0));
            assert(decode_from(s, 0) == seq![b0] + decode_from(s, 3));
        }
        assert(b =~= seq![b0] + rest);
    }
}

/// Percent-decoding the bytes of a percent-encoding gives back the encoded
/// bytes, whether spaces were written as `+` or as `%20`.
pub proof fn percent_decoding_inverts_encoding(bytes: Seq<u8>, space_as_plus: bool)
    ensures
        decode_from(encode_utf8(encode_bytes(bytes, space_as_plus)), 0) == bytes,
{
    let e = encode_bytes(bytes, space_as_plus);
    lemma_encode_bytes_ascii(bytes, space_as_plus);
    is_ascii_chars_encode_utf8(e);
    assert(encode_utf8(e) =~= ascii_bytes(e));
    lemma_decode_ascii_encoding(bytes, space_as_plus);
}

/// `String::from_utf8_lossy(bytes)`: what it yields for `bytes`.
pub uninterp spec fn utf8_lossy(bytes: Seq<u8>) -> Seq<char>;

/// `String::from_utf8_lossy`, owned: valid UTF-8 decodes exactly; any
/// invalid sequence becomes U+FFFD.
#[verifier::external_body]
pub(crate) fn from_utf8_lossy(bytes: &[u8]) -> (r: String)
    ensures
        r@ == utf8_lossy(bytes@),
        valid_utf8(bytes@) ==> r@ == decode_utf8(bytes@),
{
    String::from_utf8_lossy(bytes).into_owned()
}

/// Percent-encoding writes only letters, digits, `-`, `_`, `.`, `~`, `+`
/// and `%`: the result never holds a character that separates query
/// parameters or starts a query, so it can stand as one parameter value.
pub proof fn encoding_is_query_safe(bytes: Seq<u8>, space_as_plus: bool)
    ensures
        forall|i: int| 0 <= i < encode_bytes(bytes, space_as_plus).len() ==> {
            let c = #[trigger] encode_bytes(bytes, space_as_plus)[i];
            ('a' <= c <= 'z') || ('A' <= c <= 'Z') || ('0' <= c <= '9') || c == '-' || c == '_' || c == '.' || c == '~'
                || c == '+' || c == '%'
        },
    decreases bytes.len(),
{
    if bytes.len() > 0 {
        encoding_is_query_safe(bytes.drop_last(), space_as_plus);
        let head = encode_bytes(bytes.drop_last(), space_as_plus);
        let unit = encode_byte(bytes.last(), space_as_plus);
        let all = encode_bytes(bytes, space_as_plus);
        assert(all == head + unit);
        assert forall|i: int| 0 <= i < all.len() implies {
            let c = #[trigger] all[i];
            ('a' <= c <= 'z') || ('A' <= c <= 'Z') || ('0' <= c <= '9') || c == '-' || c == '_' || c == '.' || c == '~'
                || c == '+' || c == '%'
        } by {
            if i < head.len() {
                assert(all[i] == head[i]);
            } else {
                assert(all[i] == unit[i - head.len()]);
                let b = bytes.last();
                if is_unreserved(b) {
                    assert(unit[0] == b as char);
                } else if !(space_as_plus && b == 32u8) {
                    assert(b / 16 < 16);
                    assert(b % 16 < 16);
                }
            }
        }
    }
}

} // verus!
