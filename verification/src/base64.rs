//! Standard base64 (RFC 4648 alphabet, `=` padding), used to carry file bytes inside JSON.

use vstd::prelude::*;

verus! {

/// The base64 digit of `v` (0..64): `A-Z`, `a-z`, `0-9`, `+`, `/`.
pub open spec fn b64_char(v: int) -> char {
    if v < 26 {
        (65 + v) as char
    } else if v < 52 {
        (97 + v - 26) as char
    } else if v < 62 {
        (48 + v - 52) as char
    } else if v == 62 {
        '+'
    } else {
        '/'
    }
}

/// Character `k` (0..4) of the encoding of the `g`-th group of three bytes of `d`; a group
/// cut short by the end of `d` is padded with zero bits and its missing characters are `=`.
pub open spec fn b64_group_char(d: Seq<u8>, g: int, k: int) -> char {
    let s = 3 * g;
    let rem = d.len() - s;
    let b0 = d[s] as int;
    let b1 = if rem > 1 {
        d[s + 1] as int
    } else {
        0
    };
    let b2 = if rem > 2 {
        d[s + 2] as int
    } else {
        0
    };
    let c = b0 * 65536 + b1 * 256 + b2;
    if k == 0 {
        b64_char(c / 262144)
    } else if k == 1 {
        b64_char((c / 4096) % 64)
    } else if k == 2 {
        if rem > 1 {
            b64_char((c / 64) % 64)
        } else {
            '='
        }
    } else {
        if rem > 2 {
            b64_char(c % 64)
        } else {
            '='
        }
    }
}

/// The base64 text of `d`: four characters per started group of three bytes.
pub open spec fn base64_spec(d: Seq<u8>) -> Seq<char> {
    Seq::new((4 * ((d.len() + 2) / 3)) as nat, |i: int| b64_group_char(d, i / 4, i % 4))
}

fn b64_digit(v: u32) -> (c: char)
    requires
        v < 64,
    ensures
        c == b64_char(v as int),
{
    if v < 26 {
        ((65 + v) as u8) as char
    } else if v < 52 {
        ((97 + v - 26) as u8) as char
    } else if v < 62 {
        ((48 + v - 52) as u8) as char
    } else if v == 62 {
        '+'
    } else {
        '/'
    }
}

proof fn lemma_sextets(b0: u32, b1: u32, b2: u32)
    requires
        b0 < 256,
        b1 < 256,
        b2 < 256,
    ensures
        ({
            let c = (b0 << 16u32) | (b1 << 8u32) | b2;
            &&& c == b0 * 65536 + b1 * 256 + b2
            &&& ((c >> 18u32) & 0x3Fu32) == c / 262144
            &&& ((c >> 12u32) & 0x3Fu32) == (c / 4096) % 64
            &&& ((c >> 6u32) & 0x3Fu32) == (c / 64) % 64
            &&& (c & 0x3Fu32) == c % 64
        }),
{
    let c = (b0 << 16u32) | (b1 << 8u32) | b2;
    assert(c == b0 * 65536 + b1 * 256 + b2) by (bit_vector)
        requires
            b0 < 256,
            b1 < 256,
            b2 < 256,
            c == (b0 << 16u32) | (b1 << 8u32) | b2;
    assert(((c >> 18u32) & 0x3Fu32) == c / 262144) by (bit_vector)
        requires
            c < 0x100_0000;
    assert(((c >> 12u32) & 0x3Fu32) == (c / 4096) % 64) by (bit_vector);
    assert(((c >> 6u32) & 0x3Fu32) == (c / 64) % 64) by (bit_vector);
    assert((c & 0x3Fu32) == c % 64) by (bit_vector);
}

/// Encodes `data` as base64 text with `=` padding.
pub fn base64_encode(data: &[u8]) -> (out: String)
    requires
        4 * ((data@.len() + 2) / 3) <= usize::MAX,
    ensures
        out@ == base64_spec(data@),
{
    let len = data.len();
    let mut out = String::new();
    let mut g: usize = 0;
    let mut s: usize = 0;
    while s < len
        invariant
            len == data@.len(),
            s == 3 * g,
            s <= len + 2,
            4 * ((data@.len() + 2) / 3) <= usize::MAX,
            out@ == Seq::new((4 * g) as nat, |i: int| b64_group_char(data@, i / 4, i % 4)),
        decreases len + 3 - s,
    {
        let rem = len - s;
        let b0 = data[s] as u32;
        let b1: u32 = if rem > 1 {
            data[s + 1] as u32
        } else {
            0
        };
        let b2: u32 = if rem > 2 {
            data[s + 2] as u32
        } else {
            0
        };
        proof {
            lemma_sextets(b0, b1, b2);
        }
        let combined = (b0 << 16u32) | (b1 << 8u32) | b2;
        let ghost before = out@;
        out.push(b64_digit((combined >> 18u32) & 0x3Fu32));
        out.push(b64_digit((combined >> 12u32) & 0x3Fu32));
        if rem > 1 {
            out.push(b64_digit((combined >> 6u32) & 0x3Fu32));
        } else {
            out.push('=');
        }
        if rem > 2 {
            out.push(b64_digit(combined & 0x3Fu32));
        } else {
            out.push('=');
        }
        proof {
            assert forall|i: int| 0 <= i < 4 * g + 4 implies #[trigger] out@[i] == b64_group_char(data@, i / 4, i % 4) by {
                if i >= 4 * g {
                    assert(i / 4 == g && i % 4 == i - 4 * g) by (nonlinear_arith)
                        requires 4 * g <= i < 4 * g + 4;
                } else {
                    assert(out@[i] == before[i]);
                }
            }
            assert(out@ =~= Seq::new((4 * (g + 1)) as nat, |i: int| b64_group_char(data@, i / 4, i % 4)));
        }
        g = g + 1;
        s = s + 3;
    }
    assert(g == (data@.len() + 2) / 3) by (nonlinear_arith)
        requires
            s == 3 * g,
            len <= s,
            s < len + 3,
            len == data@.len();
    out
}

/// The value (0..64) of base64 digit `c`.
pub open spec fn b64_value(c: char) -> int {
    if 'A' <= c && c <= 'Z' {
        c as int - 65
    } else if 'a' <= c && c <= 'z' {
        c as int - 71
    } else if '0' <= c && c <= '9' {
        c as int + 4
    } else if c == '+' {
        62
    } else {
        63
    }
}

/// Byte `i` as standard base64 decoding reads it from text `t`: from the digits of group
/// `i / 3`, the high bits of one digit joined to the low bits of the one before.
pub open spec fn base64_decoded_byte(t: Seq<char>, i: int) -> int {
    let g = i / 3;
    let v0 = b64_value(t[4 * g]);
    let v1 = b64_value(t[4 * g + 1]);
    let v2 = b64_value(t[4 * g + 2]);
    let v3 = b64_value(t[4 * g + 3]);
    if i % 3 == 0 {
        v0 * 4 + v1 / 16
    } else if i % 3 == 1 {
        (v1 % 16) * 16 + v2 / 4
    } else {
        (v2 % 4) * 64 + v3
    }
}

/// A base64 digit: `A-Z`, `a-z`, `0-9`, `+` or `/`.
pub open spec fn is_b64_digit(c: char) -> bool {
    ('A' <= c && c <= 'Z') || ('a' <= c && c <= 'z') || ('0' <= c && c <= '9') || c == '+' || c == '/'
}

proof fn lemma_b64_value(v: int)
    requires
        0 <= v < 64,
    ensures
        b64_value(b64_char(v)) == v,
        b64_char(v) != '=',
        is_b64_digit(b64_char(v)),
{
}

proof fn lemma_b64_arith(b0: u32, b1: u32, b2: u32)
    requires
        b0 < 256,
        b1 < 256,
        b2 < 256,
    ensures
        ({
            let c = b0 * 65536 + b1 * 256 + b2;
            &&& 0 <= c < 0x100_0000
            &&& (c / 262144) * 4 + ((c / 4096) % 64) / 16 == b0
            &&& (((c / 4096) % 64) % 16) * 16 + ((c / 64) % 64) / 4 == b1
            &&& (((c / 64) % 64) % 4) * 64 + c % 64 == b2
        }),
{
    let c: u32 = (b0 * 65536 + b1 * 256 + b2) as u32;
    assert((c / 262144) * 4 + ((c / 4096) % 64) / 16 == b0) by (bit_vector)
        requires b0 < 256, b1 < 256, b2 < 256, c == b0 * 65536 + b1 * 256 + b2;
    assert((((c / 4096) % 64) % 16) * 16 + ((c / 64) % 64) / 4 == b1) by (bit_vector)
        requires b0 < 256, b1 < 256, b2 < 256, c == b0 * 65536 + b1 * 256 + b2;
    assert((((c / 64) % 64) % 4) * 64 + c % 64 == b2) by (bit_vector)
        requires b0 < 256, b1 < 256, b2 < 256, c == b0 * 65536 + b1 * 256 + b2;
}

/// The characters of group `g` of the text of `data`.
proof fn lemma_group_chars(data: Seq<u8>, g: int)
    requires
        0 <= g,
        3 * g < data.len(),
    ensures
        4 * g + 3 < base64_spec(data).len(),
        forall|k: int| 0 <= k < 4 ==> #[trigger] base64_spec(data)[4 * g + k] == b64_group_char(data, g, k),
{
    let n = data.len() as int;
    let t = base64_spec(data);
    assert(4 * g + 3 < t.len()) by (nonlinear_arith)
        requires 0 <= g, 3 * g < n, t.len() == 4 * ((n + 2) / 3);
    assert forall|k: int| 0 <= k < 4 implies #[trigger] t[4 * g + k] == b64_group_char(data, g, k) by {
        assert((4 * g + k) / 4 == g && (4 * g + k) % 4 == k) by (nonlinear_arith)
            requires 0 <= k < 4;
    }
}

proof fn lemma_byte_decodes(data: Seq<u8>, i: int)
    requires
        0 <= i < data.len(),
    ensures
        base64_decoded_byte(base64_spec(data), i) == data[i] as int,
{
    let n = data.len() as int;
    let g = i / 3;
    let s = 3 * g;
    assert(0 <= g && s <= i < s + 3 && i % 3 == i - s) by (nonlinear_arith)
        requires 0 <= i, g == i / 3, s == 3 * g;
    lemma_group_chars(data, g);
    let rem = n - s;
    let b0 = data[s] as u32;
    let b1: u32 = if rem > 1 { data[s + 1] as u32 } else { 0 };
    let b2: u32 = if rem > 2 { data[s + 2] as u32 } else { 0 };
    lemma_b64_arith(b0, b1, b2);
    let c = b0 * 65536 + b1 * 256 + b2;
    lemma_b64_value(c / 262144);
    lemma_b64_value((c / 4096) % 64);
    lemma_b64_value((c / 64) % 64);
    lemma_b64_value(c % 64);
}

proof fn lemma_padding_at(data: Seq<u8>, i: int)
    requires
        0 <= i < base64_spec(data).len(),
    ensures
        base64_spec(data)[i] == '=' <==> 3 * (i / 4) + (i % 4) > data.len(),
        base64_spec(data)[i] == '=' || is_b64_digit(base64_spec(data)[i]),
{
    let n = data.len() as int;
    let t = base64_spec(data);
    let g = i / 4;
    let k = i % 4;
    assert(0 <= g && 0 <= k < 4 && 3 * g < n && i == 4 * g + k) by (nonlinear_arith)
        requires 0 <= i < t.len(), t.len() == 4 * ((n + 2) / 3), g == i / 4, k == i % 4;
    lemma_group_chars(data, g);
    let s = 3 * g;
    let rem = n - s;
    let b0 = data[s] as u32;
    let b1: u32 = if rem > 1 { data[s + 1] as u32 } else { 0 };
    let b2: u32 = if rem > 2 { data[s + 2] as u32 } else { 0 };
    lemma_b64_arith(b0, b1, b2);
    let c = b0 * 65536 + b1 * 256 + b2;
    lemma_b64_value(c / 262144);
    lemma_b64_value((c / 4096) % 64);
    lemma_b64_value((c / 64) % 64);
    lemma_b64_value(c % 64);
}

/// Decoding the base64 text of `data` gives `data` back: its length is four characters per
/// started group of three bytes, every byte is read back from its group's digits, the `=`
/// padding stands exactly where the last group runs past the end, and every other character
/// is a base64 digit.
pub proof fn lemma_base64_decodes(data: Seq<u8>)
    ensures
        base64_spec(data).len() == 4 * ((data.len() + 2) / 3),
        forall|i: int| 0 <= i < data.len() ==> #[trigger] base64_decoded_byte(base64_spec(data), i) == data[i] as int,
        forall|i: int| 0 <= i < base64_spec(data).len() ==> (#[trigger] base64_spec(data)[i] == '=' <==> 3 * (i / 4) + (i % 4) > data.len()),
        forall|i: int| 0 <= i < base64_spec(data).len() ==> #[trigger] base64_spec(data)[i] == '=' || is_b64_digit(base64_spec(data)[i]),
{
    assert forall|i: int| 0 <= i < data.len() implies #[trigger] base64_decoded_byte(base64_spec(data), i) == data[i] as int by {
        lemma_byte_decodes(data, i);
    }
    assert forall|i: int| 0 <= i < base64_spec(data).len() implies (#[trigger] base64_spec(data)[i] == '=' <==> 3 * (i / 4) + (i % 4) > data.len()) by {
        lemma_padding_at(data, i);
    }
    assert forall|i: int| 0 <= i < base64_spec(data).len() implies #[trigger] base64_spec(data)[i] == '=' || is_b64_digit(base64_spec(data)[i]) by {
        lemma_padding_at(data, i);
    }
}

} // verus!
