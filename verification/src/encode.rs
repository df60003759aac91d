//! Percent-encoding for URLs, and hexadecimal.

use vstd::prelude::*;
use vstd::string::*;
use vstd::utf8::*;

verus! {

// ---- percent-encoding ----

/// The bytes that stand for themselves in a URL: ASCII letters and digits,
/// `-`, `_`, `.` and `~`.
pub open spec fn is_unreserved(b: u8) -> bool {
    ||| 65 <= b <= 90
    ||| 97 <= b <= 122
    ||| 48 <= b <= 57
    ||| b == 45
    ||| b == 95
    ||| b == 46
    ||| b == 126
}

/// The uppercase hexadecimal digit for a number below sixteen.
pub open spec fn upper_hex(n: int) -> char {
    if n < 10 {
        (48 + n) as char
    } else {
        (55 + n) as char
    }
}

/// A byte as it stands in a URL: itself, or `%` and two hexadecimal digits.
pub open spec fn url_byte(b: u8) -> Seq<char> {
    if is_unreserved(b) {
        seq![b as char]
    } else {
        seq!['%', upper_hex(b as int / 16), upper_hex(b as int % 16)]
    }
}

pub open spec fn url_bytes(s: Seq<u8>) -> Seq<char>
    decreases s.len(),
{
    if s.len() == 0 {
        seq![]
    } else {
        url_bytes(s.drop_last()) + url_byte(s.last())
    }
}

/// The UTF-8 bytes of `s`, percent-encoded.
pub open spec fn url_encoded(s: Seq<char>) -> Seq<char> {
    url_bytes(encode_utf8(s))
}

fn upper_hex_digit(n: u8) -> (r: char)
    requires
        n < 16,
    ensures
        r == upper_hex(n as int),
{
    if n < 10 {
        (48 + n) as char
    } else {
        (55 + n) as char
    }
}

/// Percent-encodes every byte of `s` but the unreserved ones.
pub fn urlencoding(s: &str) -> (r: String)
    ensures
        r@ == url_encoded(s@),
{
    let bytes = s.as_bytes();
    let mut out: String = String::new();
    let mut i: usize = 0;
    while i < bytes.len()
        invariant
            i <= bytes@.len(),
            out@ == url_bytes(bytes@.take(i as int)),
        decreases bytes@.len() - i,
    {
        let b = bytes[i];
        let ghost before = out@;
        assert(bytes@.take(i + 1).drop_last() =~= bytes@.take(i as int));
        if (65 <= b && b <= 90) || (97 <= b && b <= 122) || (48 <= b && b <= 57) || b == 45 || b
            == 95 || b == 46 || b == 126 {
            out.push(b as char);
        } else {
            out.push('%');
            out.push(upper_hex_digit(b / 16));
            out.push(upper_hex_digit(b % 16));
        }
        assert(out@ =~= before + url_byte(b));
        i += 1;
    }
    assert(bytes@.take(bytes@.len() as int) =~= bytes@);
    out
}

/// The value of a hexadecimal digit.
pub open spec fn hex_value(c: char) -> int {
    if '0' <= c <= '9' {
        c as int - 48
    } else if 'A' <= c <= 'F' {
        c as int - 55
    } else {
        c as int - 87
    }
}

/// Undoes percent-encoding: each `%` with the two digits after it is one byte.
pub open spec fn url_decoded(s: Seq<char>) -> Seq<u8>
    decreases s.len(),
{
    if s.len() == 0 {
        seq![]
    } else if s[0] == '%' && s.len() >= 3 {
        seq![(hex_value(s[1]) * 16 + hex_value(s[2])) as u8] + url_decoded(s.skip(3))
    } else {
        seq![s[0] as u8] + url_decoded(s.skip(1))
    }
}

proof fn lemma_url_decoded_byte(b: u8, rest: Seq<char>)
    ensures
        url_decoded(url_byte(b) + rest) == seq![b] + url_decoded(rest),
{
    let s = url_byte(b) + rest;
    if is_unreserved(b) {
        assert(s.skip(1) =~= rest);
        assert(b as char as u8 == b);
    } else {
        assert(s.skip(3) =~= rest);
        let h = b as int / 16;
        let l = b as int % 16;
        assert(0 <= h < 16 && 0 <= l < 16);
        assert(hex_value(upper_hex(h)) == h);
        assert(hex_value(upper_hex(l)) == l);
        assert(h * 16 + l == b);
    }
}

proof fn lemma_url_decoded_bytes(s: Seq<u8>, rest: Seq<char>)
    ensures
        url_decoded(url_bytes(s) + rest) == s + url_decoded(rest),
    decreases s.len(),
{
    if s.len() == 0 {
        assert(url_bytes(s) + rest =~= rest);
        assert(s + url_decoded(rest) =~= url_decoded(rest));
    } else {
        let tail = url_byte(s.last()) + rest;
        assert(url_bytes(s) + rest =~= url_bytes(s.drop_last()) + tail);
        lemma_url_decoded_bytes(s.drop_last(), tail);
        lemma_url_decoded_byte(s.last(), rest);
        assert(s.drop_last() + (seq![s.last()] + url_decoded(rest)) =~= s + url_decoded(rest));
    }
}

/// Percent-encoding loses nothing: decoding gives back the bytes of the text.
pub proof fn law_url_round_trip(s: Seq<char>)
    ensures
        url_decoded(url_encoded(s)) == encode_utf8(s),
{
    lemma_url_decoded_bytes(encode_utf8(s), seq![]);
    assert(url_bytes(encode_utf8(s)) + seq![] =~= url_encoded(s));
    assert(encode_utf8(s) + seq![] =~= encode_utf8(s));
}

/// What may stand in percent-encoded text.
pub open spec fn is_url_char(c: char) -> bool {
    c == '%' || ((c as u32) < 128 && is_unreserved(c as u8))
}

/// Percent-encoded text holds only unreserved characters and `%`, so nothing
/// in it can be taken for a separator of the URL it is put into.
pub proof fn law_url_chars(s: Seq<char>)
    ensures
        forall|i: int| 0 <= i < url_encoded(s).len() ==> is_url_char(#[trigger] url_encoded(s)[i]),
{
    lemma_url_bytes_chars(encode_utf8(s));
}

proof fn lemma_url_bytes_chars(s: Seq<u8>)
    ensures
        forall|i: int| 0 <= i < url_bytes(s).len() ==> is_url_char(#[trigger] url_bytes(s)[i]),
    decreases s.len(),
{
    if s.len() > 0 {
        lemma_url_bytes_chars(s.drop_last());
        let b = s.last();
        assert(forall|i: int| 0 <= i < url_byte(b).len() ==> is_url_char(#[trigger] url_byte(b)[i]));
        assert forall|i: int| 0 <= i < url_bytes(s).len() implies is_url_char(
            #[trigger] url_bytes(s)[i],
        ) by {
            let k = url_bytes(s.drop_last()).len();
            if i >= k {
                assert(url_bytes(s)[i] == url_byte(b)[i - k]);
            } else {
                assert(url_bytes(s)[i] == url_bytes(s.drop_last())[i]);
            }
        }
    }
}

// ---- hexadecimal ----

/// The lowercase hexadecimal digit for a number below sixteen.
pub open spec fn lower_hex(n: int) -> char {
    if n < 10 {
        (48 + n) as char
    } else {
        (87 + n) as char
    }
}

/// Two lowercase hexadecimal digits for each byte.
pub open spec fn hex_of(s: Seq<u8>) -> Seq<char> {
    Seq::new(
        2 * s.len(),
        |i: int|
            if i % 2 == 0 {
                lower_hex(s[i / 2] as int / 16)
            } else {
                lower_hex(s[i / 2] as int % 16)
            },
    )
}

fn lower_hex_digit(n: u8) -> (r: char)
    requires
        n < 16,
    ensures
        r == lower_hex(n as int),
{
    if n < 10 {
        (48 + n) as char
    } else {
        (87 + n) as char
    }
}

/// `bytes` in hexadecimal, two lowercase digits each.
pub fn hex(bytes: &[u8]) -> (r: String)
    ensures
        r@ == hex_of(bytes@),
{
    let mut out: String = String::new();
    let mut i: usize = 0;
    while i < bytes.len()
        invariant
            i <= bytes@.len(),
            out@ == hex_of(bytes@.take(i as int)),
        decreases bytes@.len() - i,
    {
        let ghost before = out@;
        out.push(lower_hex_digit(bytes[i] / 16));
        out.push(lower_hex_digit(bytes[i] % 16));
        assert(out@ =~= hex_of(bytes@.take(i + 1)));
        i += 1;
    }
    assert(bytes@.take(bytes@.len() as int) =~= bytes@);
    out
}

/// Different bytes have different hexadecimal forms.
pub proof fn law_hex_injective(a: Seq<u8>, b: Seq<u8>)
    requires
        hex_of(a) == hex_of(b),
    ensures
        a == b,
{
    assert(hex_of(a).len() == 2 * a.len() && hex_of(b).len() == 2 * b.len());
    assert forall|i: int| 0 <= i < a.len() implies a[i] == b[i] by {
        let k = 2 * i;
        let l = 2 * i + 1;
        assert(k / 2 == i && l / 2 == i && k % 2 == 0 && l % 2 == 1);
        assert(hex_of(a)[k] == lower_hex(a[i] as int / 16));
        assert(hex_of(b)[k] == lower_hex(b[i] as int / 16));
        assert(hex_of(a)[l] == lower_hex(a[i] as int % 16));
        assert(hex_of(b)[l] == lower_hex(b[i] as int % 16));
        lemma_lower_hex_injective(a[i] as int / 16, b[i] as int / 16);
        lemma_lower_hex_injective(a[i] as int % 16, b[i] as int % 16);
    }
    assert(a =~= b);
}

proof fn lemma_lower_hex_injective(m: int, n: int)
    requires
        0 <= m < 16,
        0 <= n < 16,
        lower_hex(m) == lower_hex(n),
    ensures
        m == n,
{
}

/// Percent-encoding loses nothing: different texts are encoded differently.
pub proof fn law_url_injective(a: Seq<char>, b: Seq<char>)
    requires
        url_encoded(a) == url_encoded(b),
    ensures
        a == b,
{
    law_url_round_trip(a);
    law_url_round_trip(b);
    encode_utf8_decode_utf8(a);
    encode_utf8_decode_utf8(b);
}

/// Unreserved text is encoded as it is.
pub proof fn law_url_plain(s: Seq<char>)
    requires
        is_ascii_chars(s),
        forall|i: int|
            0 <= i < s.len() ==> {
                let c = #[trigger] s[i];
                ('a' <= c <= 'z') || ('A' <= c <= 'Z') || ('0' <= c <= '9') || c == '-' || c == '_'
                    || c == '.' || c == '~'
            },
    ensures
        url_encoded(s) == s,
{
    is_ascii_chars_encode_utf8(s);
    lemma_url_plain(s, encode_utf8(s));
}

proof fn lemma_url_plain(s: Seq<char>, bytes: Seq<u8>)
    requires
        s.len() == bytes.len(),
        forall|i: int|
            0 <= i < s.len() ==> {
                let c = #[trigger] s[i];
                &&& ('a' <= c <= 'z') || ('A' <= c <= 'Z') || ('0' <= c <= '9') || c == '-' || c
                    == '_' || c == '.' || c == '~'
                &&& c as u8 == bytes[i]
            },
    ensures
        url_bytes(bytes) == s,
    decreases s.len(),
{
    if s.len() > 0 {
        let rest = s.drop_last();
        assert forall|i: int| 0 <= i < rest.len() implies {
            let c = #[trigger] rest[i];
            &&& ('a' <= c <= 'z') || ('A' <= c <= 'Z') || ('0' <= c <= '9') || c == '-' || c == '_'
                || c == '.' || c == '~'
            &&& c as u8 == bytes.drop_last()[i]
        } by {
            assert(rest[i] == s[i]);
        }
        lemma_url_plain(rest, bytes.drop_last());
        assert(s[s.len() - 1] as u8 == bytes.last());
        assert(url_byte(bytes.last()) =~= seq![s.last()]);
        assert(rest + seq![s.last()] =~= s);
    } else {
        assert(url_bytes(bytes) =~= s);
    }
}

/// Every byte is written in hexadecimal with two digits, in order: the values of
/// the two give the byte.
pub proof fn law_hex_digits(bytes: Seq<u8>, i: int)
    requires
        0 <= i < bytes.len(),
    ensures
        hex_of(bytes).len() == 2 * bytes.len(),
        hex_value(hex_of(bytes)[2 * i]) * 16 + hex_value(hex_of(bytes)[2 * i + 1]) == bytes[i],
{
    let k = 2 * i;
    let l = 2 * i + 1;
    assert(k / 2 == i && l / 2 == i && k % 2 == 0 && l % 2 == 1);
    assert(hex_of(bytes)[k] == lower_hex(bytes[i] as int / 16));
    assert(hex_of(bytes)[l] == lower_hex(bytes[i] as int % 16));
}

} // verus!
