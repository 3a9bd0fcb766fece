//! Base64, UTF-16 for Win32 calls, the system clock, RFC 3339 timestamps and
//! short text formatting.
use vstd::prelude::*;
use crate::calendar::{lemma_civil_alg, lemma_four_digit_year, valid_date, civil_alg, civil_from_days_spec, days_from_civil_spec, lemma_civil_from_days, month_start, year_start, yoe_of};
use crate::text::{trim_bounds, lemma_pad_digits, zeros, all_digits, digits_value, is_ascii_digit, lemma_digits_value_bound, pow10, chars_of, string_of, fmt_int, pad_digits, push_int, push_str, push_uint, trim_spec, dec_digits, lemma_dec_digits};

verus! {

// ---------------------------------------------------------------- base64

/// The character of the standard alphabet for the 6-bit value `v`.
pub open spec fn b64_char(v: int) -> char {
    if v < 26 {
        (65 + v) as char
    } else if v < 52 {
        (97 + v - 26) as char
    } else if v < 62 {
        (48 + v - 52) as char
    } else if v == 62 {
        '+'
    } else {
        '/'
    }
}

/// The four 6-bit groups of the 24 bits `b0 b1 b2`.
pub open spec fn sextet0(b0: u8) -> int {
    b0 as int / 4
}

pub open spec fn sextet1(b0: u8, b1: u8) -> int {
    (b0 % 4) * 16 + b1 / 16
}

pub open spec fn sextet2(b1: u8, b2: u8) -> int {
    (b1 % 16) * 4 + b2 / 64
}

pub open spec fn sextet3(b2: u8) -> int {
    b2 as int % 64
}

/// Standard base64 with `=` padding.
pub open spec fn base64_spec(b: Seq<u8>) -> Seq<char>
    decreases b.len(),
{
    if b.len() == 0 {
        Seq::empty()
    } else if b.len() == 1 {
        seq![b64_char(sextet0(b[0])), b64_char(sextet1(b[0], 0)), '=', '=']
    } else if b.len() == 2 {
        seq![b64_char(sextet0(b[0])), b64_char(sextet1(b[0], b[1])), b64_char(sextet2(b[1], 0)), '=']
    } else {
        seq![
            b64_char(sextet0(b[0])),
            b64_char(sextet1(b[0], b[1])),
            b64_char(sextet2(b[1], b[2])),
            b64_char(sextet3(b[2])),
        ] + base64_spec(b.skip(3))
    }
}

/// The 6-bit value of a character of the alphabet.
pub open spec fn b64_value(c: char) -> Option<int> {
    if 'A' <= c && c <= 'Z' {
        Some(c as int - 65)
    } else if 'a' <= c && c <= 'z' {
        Some(c as int - 97 + 26)
    } else if '0' <= c && c <= '9' {
        Some(c as int - 48 + 52)
    } else if c == '+' {
        Some(62)
    } else if c == '/' {
        Some(63)
    } else {
        None
    }
}

/// The 6-bit values that a decoder reads from `cs`: it skips line breaks, stops at the
/// first `=`, and fails on any other character outside the alphabet.
pub open spec fn b64_sextets(cs: Seq<char>) -> Option<Seq<int>>
    decreases cs.len(),
{
    if cs.len() == 0 {
        Some(Seq::empty())
    } else if cs[0] == '=' {
        Some(Seq::empty())
    } else if cs[0] == '\n' || cs[0] == '\r' {
        b64_sextets(cs.drop_first())
    } else {
        match b64_value(cs[0]) {
            Some(v) => match b64_sextets(cs.drop_first()) {
                Some(rest) => Some(seq![v].add(rest)),
                None => None,
            },
            None => None,
        }
    }
}

/// The whole bytes that a run of 6-bit values spells, most significant bits first;
/// leftover bits at the end are dropped.
pub open spec fn sextet_bytes(sx: Seq<int>) -> Seq<u8>
    decreases sx.len(),
{
    if sx.len() >= 4 {
        seq![
            (sx[0] * 4 + sx[1] / 16) as u8,
            ((sx[1] % 16) * 16 + sx[2] / 4) as u8,
            ((sx[2] % 4) * 64 + sx[3]) as u8,
        ] + sextet_bytes(sx.skip(4))
    } else if sx.len() == 3 {
        seq![(sx[0] * 4 + sx[1] / 16) as u8, ((sx[1] % 16) * 16 + sx[2] / 4) as u8]
    } else if sx.len() == 2 {
        seq![(sx[0] * 4 + sx[1] / 16) as u8]
    } else {
        Seq::empty()
    }
}

pub open spec fn base64_decode_spec(cs: Seq<char>) -> Option<Seq<u8>> {
    match b64_sextets(cs) {
        Some(sx) => Some(sextet_bytes(sx)),
        None => None,
    }
}

fn b64_char_of(v: u32) -> (c: char)
    requires
        v < 64,
    ensures
        c == b64_char(v as int),
{
    if v < 26 {
        ((65 + v) as u8) as char
    } else if v < 52 {
        ((97 + v - 26) as u8) as char
    } else if v < 62 {
        ((48 + v - 52) as u8) as char
    } else if v == 62 {
        '+'
    } else {
        '/'
    }
}

proof fn lemma_sextets_of_word(b0: u8, b1: u8, b2: u8)
    ensures
        ({
            let n: u32 = (b0 as u32) << 16u32 | (b1 as u32) << 8u32 | b2 as u32;
            &&& (n >> 18u32 & 63u32) as int == sextet0(b0)
            &&& (n >> 12u32 & 63u32) as int == sextet1(b0, b1)
            &&& (n >> 6u32 & 63u32) as int == sextet2(b1, b2)
            &&& (n & 63u32) as int == sextet3(b2)
        }),
{
    let n: u32 = (b0 as u32) << 16u32 | (b1 as u32) << 8u32 | b2 as u32;
    assert(n >> 18u32 & 63u32 == (b0 / 4) as u32) by (bit_vector)
        requires
            n == (b0 as u32) << 16u32 | (b1 as u32) << 8u32 | b2 as u32,
    ;
    assert(n >> 12u32 & 63u32 == ((b0 % 4) * 16 + b1 / 16) as u32) by (bit_vector)
        requires
            n == (b0 as u32) << 16u32 | (b1 as u32) << 8u32 | b2 as u32,
    ;
    assert(n >> 6u32 & 63u32 == ((b1 % 16) * 4 + b2 / 64) as u32) by (bit_vector)
        requires
            n == (b0 as u32) << 16u32 | (b1 as u32) << 8u32 | b2 as u32,
    ;
    assert(n & 63u32 == (b2 % 64) as u32) by (bit_vector)
        requires
            n == (b0 as u32) << 16u32 | (b1 as u32) << 8u32 | b2 as u32,
    ;
}

/// Standard base64 (RFC 4648) with `=` padding.
pub fn base64(input: &[u8]) -> (out: String)
    ensures
        out@ == base64_spec(input@),
{
    let mut out = String::new();
    let len = input.len();
    let mut i: usize = 0;
    assert(input@.skip(0) =~= input@);
    assert(out@ + base64_spec(input@.skip(0)) =~= base64_spec(input@));
    while i < len
        invariant
            len == input@.len(),
            i <= len,
            base64_spec(input@) == out@ + base64_spec(input@.skip(i as int)),
        decreases len - i,
    {
        let rest = Ghost(input@.skip(i as int));
        let b0 = input[i];
        let b1: u8 = if len - i > 1 {
            input[i + 1]
        } else {
            0
        };
        let b2: u8 = if len - i > 2 {
            input[i + 2]
        } else {
            0
        };
        let n: u32 = (b0 as u32) << 16u32 | (b1 as u32) << 8u32 | b2 as u32;
        proof {
            lemma_sextets_of_word(b0, b1, b2);
        }
        out.push(b64_char_of(n >> 18u32 & 63u32));
        out.push(b64_char_of(n >> 12u32 & 63u32));
        out.push(
            if len - i > 1 {
                b64_char_of(n >> 6u32 & 63u32)
            } else {
                '='
            },
        );
        out.push(
            if len - i > 2 {
                b64_char_of(n & 63u32)
            } else {
                '='
            },
        );
        proof {
            assert(rest@[0] == b0);
            if len - i > 1 {
                assert(rest@[1] == b1);
            }
            if len - i > 2 {
                assert(rest@[2] == b2);
                assert(rest@.skip(3) =~= input@.skip(i + 3));
            }
        }
        i = if len - i > 3 {
            i + 3
        } else {
            len
        };
        proof {
            if i == len {
                assert(input@.skip(i as int) =~= Seq::<u8>::empty());
            }
        }
    }
    proof {
        assert(base64_spec(input@.skip(len as int)) =~= Seq::<char>::empty()) by {
            assert(input@.skip(len as int).len() == 0);
        }
    }
    out
}


/// What the decoder holds between characters, after reading the values `sx`:
/// the bits of the current group that do not yet make a whole byte.
spec fn decoder_state(sx: Seq<int>, buf: u32, bits: u32) -> bool {
    let j = sx.len() % 4;
    &&& (forall|k: int| 0 <= k < sx.len() ==> 0 <= #[trigger] sx[k] < 64)
    &&& if j == 0 {
        bits == 0 && buf == 0
    } else if j == 1 {
        bits == 6 && buf == sx.last()
    } else if j == 2 {
        bits == 4 && buf == sx.last() % 16
    } else {
        bits == 2 && buf == sx.last() % 4
    }
}

proof fn lemma_sextet_bytes_push(sx: Seq<int>, v: int)
    ensures
        sextet_bytes(sx.push(v)) == (if sx.len() % 4 == 0 {
            sextet_bytes(sx)
        } else if sx.len() % 4 == 1 {
            sextet_bytes(sx).push((sx.last() * 4 + v / 16) as u8)
        } else if sx.len() % 4 == 2 {
            sextet_bytes(sx).push(((sx.last() % 16) * 16 + v / 4) as u8)
        } else {
            sextet_bytes(sx).push(((sx.last() % 4) * 64 + v) as u8)
        }),
    decreases sx.len(),
{
    if sx.len() >= 4 {
        lemma_sextet_bytes_push(sx.skip(4), v);
        assert(sx.push(v).skip(4) =~= sx.skip(4).push(v));
        if sx.len() > 4 {
            assert(sx.skip(4).last() == sx.last());
        }
        if sx.len() == 4 {
            assert(sextet_bytes(sx.skip(4)) =~= Seq::<u8>::empty());
            assert(sextet_bytes(sx.skip(4).push(v)) =~= Seq::<u8>::empty());
        }
        assert(sextet_bytes(sx.push(v)) =~= seq![
            (sx[0] * 4 + sx[1] / 16) as u8,
            ((sx[1] % 16) * 16 + sx[2] / 4) as u8,
            ((sx[2] % 4) * 64 + sx[3]) as u8,
        ] + sextet_bytes(sx.skip(4).push(v)));
    } else if sx.len() == 3 {
        let t = sx.push(v);
        assert(t.skip(4) =~= Seq::<int>::empty());
        assert(sextet_bytes(t.skip(4)) =~= Seq::<u8>::empty());
        assert(t[0] == sx[0] && t[1] == sx[1] && t[2] == sx[2] && t[3] == v);
        assert(sextet_bytes(t) =~= sextet_bytes(sx).push(((sx.last() % 4) * 64 + v) as u8));
    } else if sx.len() == 2 {
        assert(sextet_bytes(sx.push(v)) =~= sextet_bytes(sx).push(((sx.last() % 16) * 16 + v / 4) as u8));
    } else if sx.len() == 1 {
        assert(sextet_bytes(sx.push(v)) =~= sextet_bytes(sx).push((sx.last() * 4 + v / 16) as u8));
    } else {
        assert(sextet_bytes(sx.push(v)) =~= sextet_bytes(sx));
    }
}

/// The 6-bit value of an alphabet character, or 64 for any other character.
fn b64_value_of(c: char) -> (v: u32)
    ensures
        v <= 64,
        v < 64 <==> b64_value(c) is Some,
        v < 64 ==> b64_value(c) == Some(v as int),
{
    let x = c as u32;
    if 'A' <= c && c <= 'Z' {
        x - 65
    } else if 'a' <= c && c <= 'z' {
        x - 97 + 26
    } else if '0' <= c && c <= '9' {
        x - 48 + 52
    } else if c == '+' {
        62
    } else if c == '/' {
        63
    } else {
        64
    }
}

/// Decodes standard base64. Line breaks are skipped and the first `=` ends the input;
/// any other character outside the alphabet makes it fail.
pub fn base64_decode(s: &str) -> (r: Option<Vec<u8>>)
    ensures
        r is Some <==> base64_decode_spec(s@) is Some,
        r matches Some(v) ==> base64_decode_spec(s@) == Some(v@),
{
    let cs = chars_of(s);
    let mut out: Vec<u8> = Vec::new();
    let mut buf: u32 = 0;
    let mut bits: u32 = 0;
    let ghost mut sx: Seq<int> = Seq::empty();
    let mut ended = false;
    let mut i: usize = 0;
    assert(cs@.skip(0) =~= cs@);
    assert(sx + Seq::<int>::empty() =~= sx);
    while i < cs.len() && !ended
        invariant
            cs@ == s@,
            i <= cs@.len(),
            ended ==> b64_sextets(cs@) == Some(sx),
            !ended ==> match b64_sextets(cs@.skip(i as int)) {
                Some(t) => b64_sextets(cs@) == Some(sx + t),
                None => b64_sextets(cs@) is None,
            },
            out@ == sextet_bytes(sx),
            decoder_state(sx, buf, bits),
        decreases (cs@.len() - i) * 2 + (if ended { 0int } else { 1 }),
    {
        let c = cs[i];
        let ghost rest = cs@.skip(i as int);
        assert(rest[0] == c);
        assert(rest.drop_first() =~= cs@.skip(i + 1));
        if c == '=' {
            ended = true;
            assert(sx + Seq::<int>::empty() =~= sx);
        } else if c == '\n' || c == '\r' {
            i = i + 1;
        } else {
            let v = b64_value_of(c);
            if v == 64 {
                return None;
            }
            let ghost old_sx = sx;
            proof {
                lemma_sextet_bytes_push(sx, v as int);
                sx = sx.push(v as int);
                match b64_sextets(cs@.skip(i + 1)) {
                    Some(t) => {
                        assert(old_sx + (seq![v as int] + t) =~= sx + t);
                    },
                    None => {},
                }
            }
            let j = Ghost(old_sx.len() % 4);
            let p = buf;
            buf = buf << 6u32 | v;
            bits = bits + 6;
            if bits >= 8 {
                bits = bits - 8;
                out.push((buf >> bits) as u8);
                proof {
                    assert(bits <= 4u32 ==> (1u32 << bits) >= 1u32) by (bit_vector);
                    assert(bits == 4u32 ==> (1u32 << bits) == 16u32) by (bit_vector);
                    assert(bits == 2u32 ==> (1u32 << bits) == 4u32) by (bit_vector);
                    assert(bits == 0u32 ==> (1u32 << bits) == 1u32) by (bit_vector);
                }
                let mask: u32 = (1u32 << bits) - 1;
                buf = buf & mask;
            }
            proof {
                if j@ == 0 {
                    assert(p == 0u32 ==> (p << 6u32 | v) == v) by (bit_vector);
                } else if j@ == 1 {
                    assert(p < 64u32 && v < 64u32 ==> ((p << 6u32 | v) >> 4u32) == p * 4 + v / 16
                        && ((p << 6u32 | v) & 15u32) == v % 16) by (bit_vector);
                } else if j@ == 2 {
                    assert(p < 16u32 && v < 64u32 ==> ((p << 6u32 | v) >> 2u32) == p * 16 + v / 4
                        && ((p << 6u32 | v) & 3u32) == v % 4) by (bit_vector);
                } else {
                    assert(p < 4u32 && v < 64u32 ==> ((p << 6u32 | v) >> 0u32) == p * 64 + v
                        && ((p << 6u32 | v) & 0u32) == 0) by (bit_vector);
                }
                assert(sx.last() == v);
            }
            i = i + 1;
        }
    }
    proof {
        if !ended {
            assert(cs@.skip(i as int) =~= Seq::<char>::empty());
            assert(sx + Seq::<int>::empty() =~= sx);
        }
    }
    Some(out)
}


proof fn lemma_b64_char_value(v: int)
    requires
        0 <= v < 64,
    ensures
        b64_value(b64_char(v)) == Some(v),
        b64_char(v) != '=' && b64_char(v) != '\n' && b64_char(v) != '\r',
{
}

proof fn lemma_sextets_prepend(c: char, rest: Seq<char>)
    requires
        b64_value(c) is Some,
        c != '=' && c != '\n' && c != '\r',
    ensures
        b64_sextets(seq![c] + rest) == (match b64_sextets(rest) {
            Some(t) => Some(seq![b64_value(c)->0] + t),
            None => None,
        }),
{
    let x = seq![c] + rest;
    assert(x[0] == c);
    assert(x.drop_first() =~= rest);
}

/// Decoding what `base64` produced gives the input back.
pub proof fn lemma_base64_roundtrip(b: Seq<u8>)
    ensures
        base64_decode_spec(base64_spec(b)) == Some(b),
        b64_sextets(base64_spec(b)) is Some,
    decreases b.len(),
{
    if b.len() == 0 {
        assert(sextet_bytes(Seq::<int>::empty()) =~= b);
    } else if b.len() == 1 {
        let s0 = sextet0(b[0]);
        let s1 = sextet1(b[0], 0);
        lemma_b64_char_value(s0);
        lemma_b64_char_value(s1);
        let e = base64_spec(b);
        assert(e =~= seq![b64_char(s0)] + (seq![b64_char(s1)] + seq!['=', '=']));
        let tail = seq!['=', '='];
        assert(b64_sextets(tail) == Some(Seq::<int>::empty()));
        lemma_sextets_prepend(b64_char(s1), tail);
        lemma_sextets_prepend(b64_char(s0), seq![b64_char(s1)] + tail);
        let sx = seq![s0] + (seq![s1] + Seq::<int>::empty());
        assert(b64_sextets(e) == Some(sx));
        assert(sextet_bytes(sx) =~= b);
    } else if b.len() == 2 {
        let s0 = sextet0(b[0]);
        let s1 = sextet1(b[0], b[1]);
        let s2 = sextet2(b[1], 0);
        lemma_b64_char_value(s0);
        lemma_b64_char_value(s1);
        lemma_b64_char_value(s2);
        let e = base64_spec(b);
        let tail = seq!['='];
        assert(e =~= seq![b64_char(s0)] + (seq![b64_char(s1)] + (seq![b64_char(s2)] + tail)));
        assert(b64_sextets(tail) == Some(Seq::<int>::empty()));
        lemma_sextets_prepend(b64_char(s2), tail);
        lemma_sextets_prepend(b64_char(s1), seq![b64_char(s2)] + tail);
        lemma_sextets_prepend(b64_char(s0), seq![b64_char(s1)] + (seq![b64_char(s2)] + tail));
        let sx = seq![s0] + (seq![s1] + (seq![s2] + Seq::<int>::empty()));
        assert(b64_sextets(e) == Some(sx));
        assert(sextet_bytes(sx) =~= b);
    } else {
        let s0 = sextet0(b[0]);
        let s1 = sextet1(b[0], b[1]);
        let s2 = sextet2(b[1], b[2]);
        let s3 = sextet3(b[2]);
        lemma_b64_char_value(s0);
        lemma_b64_char_value(s1);
        lemma_b64_char_value(s2);
        lemma_b64_char_value(s3);
        lemma_base64_roundtrip(b.skip(3));
        let tail = base64_spec(b.skip(3));
        let t = b64_sextets(tail)->0;
        let e = base64_spec(b);
        assert(e =~= seq![b64_char(s0)] + (seq![b64_char(s1)] + (seq![b64_char(s2)] + (
        seq![b64_char(s3)] + tail))));
        lemma_sextets_prepend(b64_char(s3), tail);
        lemma_sextets_prepend(b64_char(s2), seq![b64_char(s3)] + tail);
        lemma_sextets_prepend(b64_char(s1), seq![b64_char(s2)] + (seq![b64_char(s3)] + tail));
        lemma_sextets_prepend(
            b64_char(s0),
            seq![b64_char(s1)] + (seq![b64_char(s2)] + (seq![b64_char(s3)] + tail)),
        );
        let sx = seq![s0] + (seq![s1] + (seq![s2] + (seq![s3] + t)));
        assert(b64_sextets(e) == Some(sx));
        assert(sx.skip(4) =~= t);
        assert(sextet_bytes(sx) =~= seq![b[0], b[1], b[2]] + sextet_bytes(t));
        assert(sextet_bytes(t) == b.skip(3));
        assert(b =~= seq![b[0], b[1], b[2]] + b.skip(3));
    }
}


// ---------------------------------------------------------------- UTF-16

/// The UTF-16 code units of one character.
pub open spec fn utf16_units(c: char) -> Seq<u16> {
    let v = c as u32 as int;
    if v < 0x10000 {
        seq![v as u16]
    } else {
        seq![(0xD800 + (v - 0x10000) / 1024) as u16, (0xDC00 + (v - 0x10000) % 1024) as u16]
    }
}

/// `str::encode_utf16`.
pub open spec fn utf16_spec(cs: Seq<char>) -> Seq<u16>
    decreases cs.len(),
{
    if cs.len() == 0 {
        Seq::empty()
    } else {
        utf16_spec(cs.drop_last()) + utf16_units(cs.last())
    }
}

/// NUL-terminated UTF-16 for Win32 calls.
pub fn wide(s: &str) -> (w: Vec<u16>)
    ensures
        w@ == utf16_spec(s@).push(0u16),
{
    let cs = chars_of(s);
    let mut w: Vec<u16> = Vec::new();
    let mut i: usize = 0;
    while i < cs.len()
        invariant
            cs@ == s@,
            i <= cs@.len(),
            w@ == utf16_spec(cs@.take(i as int)),
        decreases cs@.len() - i,
    {
        let c = cs[i];
        let v = c as u32;
        proof {
            assert(cs@.take(i + 1).drop_last() =~= cs@.take(i as int));
            assert(cs@.take(i + 1).last() == c);
        }
        if v < 0x10000 {
            w.push(v as u16);
        } else {
            let u = v - 0x10000;
            w.push((0xD800 + u / 1024) as u16);
            w.push((0xDC00 + u % 1024) as u16);
        }
        proof {
            assert(w@ =~= utf16_spec(cs@.take(i + 1)));
        }
        i = i + 1;
    }
    proof {
        assert(cs@.take(cs@.len() as int) =~= cs@);
    }
    w.push(0u16);
    w
}

// ---------------------------------------------------------------- clock

#[verifier::external_type_specification]
#[verifier::external_body]
pub struct ExSystemTime(std::time::SystemTime);

/// `SystemTime::now`: the system clock. Nothing is known of the reading.
#[verifier::external_body]
fn system_time_now() -> std::time::SystemTime {
    std::time::SystemTime::now()
}

/// `SystemTime::duration_since(UNIX_EPOCH)` in whole seconds, or None when the
/// reading lies before the epoch. Nothing is known of the value.
#[verifier::external_body]
fn secs_since_epoch(t: &std::time::SystemTime) -> Option<u64> {
    t.duration_since(std::time::UNIX_EPOCH).ok().map(|d| d.as_secs())
}

/// Unix seconds from a clock reading given as whole seconds since the epoch (None when
/// it lies before the epoch, which counts as 0); the count is taken as an `i64` the way
/// `as` converts it.
pub fn unix_seconds(since_epoch: Option<u64>) -> (r: i64)
    ensures
        r == (match since_epoch {
            Some(secs) => secs as i64,
            None => 0i64,
        }),
{
    match since_epoch {
        Some(secs) => secs as i64,
        None => 0,
    }
}

/// The current Unix time in seconds (0 when the clock reads before the epoch). The
/// reading comes from the system clock, so no clause can say what it is.
pub fn now_unix() -> i64 {
    let t = system_time_now();
    unix_seconds(secs_since_epoch(&t))
}


// ---------------------------------------------------------------- RFC 3339

/// Floor division by a positive divisor.
fn div_floor(a: i64, b: i64) -> (q: i64)
    requires
        b > 0,
    ensures
        q == a as int / b as int,
{
    if a >= 0 {
        a / b
    } else {
        let p: i64 = -(a + 1);
        let qp = p / b;
        assert(a as int / b as int == -(p as int / b as int) - 1) by (nonlinear_arith)
            requires
                p == -(a + 1),
                p >= 0,
                b > 0,
        {
            let qq = p as int / b as int;
            let rr = p as int % b as int;
            assert(p as int == qq * b + rr);
            assert(0 <= rr < b);
            assert(a as int == (-qq - 1) * b + (b - rr - 1));
        }
        -qp - 1
    }
}

/// Remainder of floor division by a positive divisor.
fn mod_floor(a: i64, b: i64) -> (r: i64)
    requires
        b > 0,
    ensures
        r == a as int % b as int,
{
    if a >= 0 {
        a % b
    } else {
        let p: i64 = -(a + 1);
        let rp = p % b;
        assert(a as int % b as int == b - 1 - (p as int % b as int)) by (nonlinear_arith)
            requires
                p == -(a + 1),
                p >= 0,
                b > 0,
        {
            let qq = p as int / b as int;
            let rr = p as int % b as int;
            assert(p as int == qq * b + rr);
            assert(0 <= rr < b);
            assert(a as int == (-qq - 1) * b + (b - rr - 1));
        }
        b - 1 - rp
    }
}

/// `RFC 3339` text of a Unix time, in UTC: `YYYY-MM-DDTHH:MM:SSZ`.
pub open spec fn rfc3339_spec(secs: int) -> Seq<char> {
    let t = civil_from_days_spec(secs / 86400);
    let r = secs % 86400;
    fmt_int(t.0, 4) + seq!['-'] + pad_digits(t.1 as nat, 2) + seq!['-'] + pad_digits(t.2 as nat, 2)
        + seq!['T'] + pad_digits((r / 3600) as nat, 2) + seq![':'] + pad_digits(
        (r % 3600 / 60) as nat,
        2,
    ) + seq![':'] + pad_digits((r % 60) as nat, 2) + seq!['Z']
}

/// The civil date of day number `z` (days since 1970-01-01).
fn civil_from_days(z: i64) -> (r: (i64, u32, u32))
    requires
        -1_000_000_000_000_000 <= z <= 1_000_000_000_000_000,
    ensures
        (r.0 as int, r.1 as int, r.2 as int) == civil_from_days_spec(z as int),
{
    proof {
        lemma_civil_from_days(z as int);
    }
    let z1 = z + 719468;
    let era = div_floor(z1, 146097);
    let doe = z1 - era * 146097;
    let yoe = (doe - doe / 1460 + doe / 36524 - doe / 146096) / 365;
    proof {
        assert(doe as int == (z1 as int) % 146097);
        crate::calendar::lemma_civil_alg(z as int);
    }
    let y = yoe + era * 400;
    let doy = doe - (365 * yoe + yoe / 4 - yoe / 100);
    let mp = (5 * doy + 2) / 153;
    let d = (doy - (153 * mp + 2) / 5 + 1) as u32;
    let m = (if mp < 10 {
        mp + 3
    } else {
        mp - 9
    }) as u32;
    proof {
        assert(yoe as int == yoe_of(doe as int));
        assert(doy as int == doe as int - year_start(yoe as int));
        assert((153 * mp + 2) / 5 == month_start(mp as int));
    }
    (if m <= 2 {
        y + 1
    } else {
        y
    }, m, d)
}

/// Day number (days since 1970-01-01) of year `y`, month `m`, day `d`.
fn days_from_civil(y: i64, m: u32, d: u32) -> (r: i64)
    requires
        -1_000_000_000_000 <= y <= 1_000_000_000_000,
    ensures
        r as int == days_from_civil_spec(y as int, m as int, d as int),
{
    let y1 = if m <= 2 {
        y - 1
    } else {
        y
    };
    let era = div_floor(y1, 400);
    let yoe = y1 - era * 400;
    let mp = (if m > 2 {
        m - 3
    } else {
        m + 9
    }) as i64;
    let doy = (153 * mp + 2) / 5 + d as i64 - 1;
    let doe = yoe * 365 + yoe / 4 - yoe / 100 + doy;
    era * 146097 + doe - 719468
}

/// Formats a Unix time as RFC 3339 in UTC, e.g. `2025-09-16T23:59:59Z`.
pub fn rfc3339_utc(secs: i64) -> (r: String)
    ensures
        r@ == rfc3339_spec(secs as int),
{
    let days = div_floor(secs, 86400);
    let rem = mod_floor(secs, 86400);
    let (y, m, d) = civil_from_days(days);
    let mut out = String::new();
    push_int(&mut out, y, 4);
    out.push('-');
    push_uint(&mut out, m as u64, 2);
    out.push('-');
    push_uint(&mut out, d as u64, 2);
    out.push('T');
    push_uint(&mut out, (rem / 3600) as u64, 2);
    out.push(':');
    push_uint(&mut out, (rem % 3600 / 60) as u64, 2);
    out.push(':');
    push_uint(&mut out, (rem % 60) as u64, 2);
    out.push('Z');
    proof {
        assert(rem as int == (secs as int) % 86400);
    }
    assert(out@ =~= rfc3339_spec(secs as int));
    out
}


/// `i64::from_str` on a short string: an optional sign, then at least one digit.
pub open spec fn int_value(cs: Seq<char>) -> Option<int> {
    if cs.len() > 0 && (cs[0] == '+' || cs[0] == '-') {
        let ds = cs.drop_first();
        if ds.len() > 0 && all_digits(ds) {
            Some(
                if cs[0] == '-' {
                    -digits_value(ds)
                } else {
                    digits_value(ds)
                },
            )
        } else {
            None
        }
    } else if cs.len() > 0 && all_digits(cs) {
        Some(digits_value(cs))
    } else {
        None
    }
}

/// The integer written in the `n` characters at `at`, if they are there.
pub open spec fn field(cs: Seq<char>, at: int, n: int) -> Option<int> {
    if 0 <= at && at + n <= cs.len() {
        int_value(cs.subrange(at, at + n))
    } else {
        None
    }
}

/// The end of the run of digits that starts at `i`.
pub open spec fn digits_end(cs: Seq<char>, i: int) -> int
    decreases cs.len() - i,
{
    if 0 <= i < cs.len() && is_ascii_digit(cs[i]) {
        digits_end(cs, i + 1)
    } else {
        i
    }
}

/// Where the zone designator starts: after the seconds and their optional fraction.
pub open spec fn zone_start(cs: Seq<char>) -> int {
    if cs.len() > 19 && cs[19] == '.' {
        digits_end(cs, 20)
    } else {
        19
    }
}

/// The offset east of UTC, in seconds, written at `i`: nothing, `Z`, `z`, or
/// a sign with hours and minutes (`+HH:MM` or `+HHMM`).
pub open spec fn zone_offset(cs: Seq<char>, i: int) -> Option<int> {
    if i >= cs.len() || cs[i] == 'Z' || cs[i] == 'z' {
        Some(0)
    } else if cs[i] == '+' || cs[i] == '-' {
        let oh = field(cs, i + 1, 2);
        let om = if i + 3 < cs.len() && cs[i + 3] == ':' {
            field(cs, i + 4, 2)
        } else {
            field(cs, i + 3, 2)
        };
        if oh is Some && om is Some {
            Some(
                (if cs[i] == '+' {
                    1int
                } else {
                    -1
                }) * (oh->0 * 3600 + om->0 * 60),
            )
        } else {
            None
        }
    } else {
        None
    }
}

/// `v as u32` for a small integer.
pub open spec fn as_u32(v: int) -> int {
    if v < 0 {
        v + 0x1_0000_0000
    } else {
        v
    }
}

/// The separators between the fields are single-byte characters. Their value is not
/// checked, only that each takes one byte, as the fields are found by byte position.
pub open spec fn one_byte_separators(cs: Seq<char>) -> bool {
    &&& (cs[4] as u32) < 128
    &&& (cs[7] as u32) < 128
    &&& (cs[10] as u32) < 128
    &&& (cs[13] as u32) < 128
    &&& (cs[16] as u32) < 128
}

/// `YYYY-MM-DDTHH:MM:SS[.fff](Z|±HH:MM)` as a Unix time.
pub open spec fn parse_rfc3339_spec(cs: Seq<char>) -> Option<int> {
    let y = field(cs, 0, 4);
    let mo = field(cs, 5, 2);
    let d = field(cs, 8, 2);
    let h = field(cs, 11, 2);
    let mi = field(cs, 14, 2);
    let sec = field(cs, 17, 2);
    if y is Some && mo is Some && d is Some && h is Some && mi is Some && sec is Some
        && one_byte_separators(cs) {
        match zone_offset(cs, zone_start(cs)) {
            Some(off) => Some(
                days_from_civil_spec(y->0, as_u32(mo->0), as_u32(d->0)) * 86400 + h->0 * 3600
                    + mi->0 * 60 + sec->0 - off,
            ),
            None => None,
        }
    } else {
        None
    }
}

fn is_digit(c: char) -> (b: bool)
    ensures
        b == is_ascii_digit(c),
{
    '0' <= c && c <= '9'
}

/// The integer in the `n` characters at `at` (`s.get(at..at + n)?.parse::<i64>()`).
fn field_at(cs: &Vec<char>, at: usize, n: usize) -> (r: Option<i64>)
    requires
        n <= 4,
    ensures
        match r {
            Some(v) => field(cs@, at as int, n as int) == Some(v as int),
            None => field(cs@, at as int, n as int) is None,
        },
{
    if at > cs.len() || n > cs.len() - at || n == 0 {
        return None;
    }
    let ghost sub = cs@.subrange(at as int, at + n);
    let end = at + n;
    let mut i = at;
    let mut neg = false;
    if cs[at] == '+' || cs[at] == '-' {
        if n == 1 {
            return None;
        }
        neg = cs[at] == '-';
        i = at + 1;
    }
    let start = i;
    let mut v: i64 = 0;
    proof {
        reveal_with_fuel(pow10, 5);
        assert(cs@.subrange(start as int, start as int) =~= Seq::<char>::empty());
    }
    while i < end
        invariant
            at <= start <= i <= end <= cs@.len(),
            end == at + n,
            n <= 4,
            all_digits(cs@.subrange(start as int, i as int)),
            v == digits_value(cs@.subrange(start as int, i as int)),
            0 <= v < 10000,
            pow10(4) == 10000,
            sub == cs@.subrange(at as int, at + n),
            start == at || start == at + 1,
            start == at + 1 ==> (cs@[at as int] == '+' || cs@[at as int] == '-'),
            start == at ==> !(cs@[at as int] == '+' || cs@[at as int] == '-'),
            neg == (start == at + 1 && cs@[at as int] == '-'),
        decreases end - i,
    {
        let c = cs[i];
        if !is_digit(c) {
            proof {
                assert(sub[i - at] == c);
                if start == at {
                    assert(!all_digits(sub));
                } else {
                    assert(sub.drop_first()[i - at - 1] == c);
                    assert(!all_digits(sub.drop_first()));
                }
            }
            return None;
        }
        proof {
            lemma_digits_value_bound(cs@.subrange(start as int, i as int));
            let k = (i - start) as nat;
            assert(k <= 3);
            assert(pow10(k) <= 1000) by {
                reveal_with_fuel(pow10, 5);
            }
            assert(is_ascii_digit(c));
            assert(cs@.subrange(start as int, i + 1).drop_last() =~= cs@.subrange(
                start as int,
                i as int,
            ));
        }
        v = v * 10 + (c as u32 as i64 - 48);
        i = i + 1;
    }
    proof {
        if start == at {
            assert(cs@.subrange(start as int, i as int) =~= sub);
        } else {
            assert(cs@.subrange(start as int, i as int) =~= sub.drop_first());
        }
    }
    Some(
        if neg {
            -v
        } else {
            v
        },
    )
}

/// The zone offset written at `i` (see `zone_offset`).
fn zone_offset_at(cs: &Vec<char>, i: usize) -> (r: Option<i64>)
    requires
        i <= cs@.len(),
    ensures
        match r {
            Some(v) => zone_offset(cs@, i as int) == Some(v as int) && -400_000 < v < 400_000,
            None => zone_offset(cs@, i as int) is None,
        },
{
    if i >= cs.len() || cs[i] == 'Z' || cs[i] == 'z' {
        Some(0)
    } else if cs[i] == '+' || cs[i] == '-' {
        let sign: i64 = if cs[i] == '+' {
            1
        } else {
            -1
        };
        let oh = match field_at(cs, i + 1, 2) {
            Some(v) => v,
            None => return None,
        };
        proof {
            lemma_field_range(cs@, i + 1, 2);
        }
        let om = if cs.len() - i > 3 && cs[i + 3] == ':' {
            match field_at(cs, i + 4, 2) {
                Some(v) => v,
                None => return None,
            }
        } else if cs.len() - i < 5 {
            return None;
        } else {
            match field_at(cs, i + 3, 2) {
                Some(v) => v,
                None => return None,
            }
        };
        proof {
            if cs.len() - i > 3 && cs@[i + 3] == ':' {
                lemma_field_range(cs@, i + 4, 2);
            } else {
                lemma_field_range(cs@, i + 3, 2);
            }
        }
        Some(sign * (oh * 3600 + om * 60))
    } else {
        None
    }
}

/// Parses `YYYY-MM-DDTHH:MM:SS[.fff](Z|±HH:MM)` into unix seconds.
pub fn parse_rfc3339(s: &str) -> (r: Option<i64>)
    ensures
        match r {
            Some(v) => parse_rfc3339_spec(s@) == Some(v as int),
            None => parse_rfc3339_spec(s@) is None,
        },
{
    let cs = chars_of(s);
    let y = match field_at(&cs, 0, 4) {
        Some(v) => v,
        None => return None,
    };
    let mo = match field_at(&cs, 5, 2) {
        Some(v) => v,
        None => return None,
    };
    let d = match field_at(&cs, 8, 2) {
        Some(v) => v,
        None => return None,
    };
    let h = match field_at(&cs, 11, 2) {
        Some(v) => v,
        None => return None,
    };
    let mi = match field_at(&cs, 14, 2) {
        Some(v) => v,
        None => return None,
    };
    let sec = match field_at(&cs, 17, 2) {
        Some(v) => v,
        None => return None,
    };
    if !((cs[4] as u32) < 128 && (cs[7] as u32) < 128 && (cs[10] as u32) < 128 && (cs[13] as u32)
        < 128 && (cs[16] as u32) < 128) {
        return None;
    }
    proof {
        lemma_field_range(cs@, 0, 4);
        lemma_field_range(cs@, 5, 2);
        lemma_field_range(cs@, 8, 2);
        lemma_field_range(cs@, 11, 2);
        lemma_field_range(cs@, 14, 2);
        lemma_field_range(cs@, 17, 2);
    }
    let mut i: usize = 19;
    if cs.len() > 19 && cs[19] == '.' {
        i = 20;
        while i < cs.len() && is_digit(cs[i])
            invariant
                20 <= i <= cs@.len(),
                digits_end(cs@, 20) == digits_end(cs@, i as int),
            decreases cs@.len() - i,
        {
            i = i + 1;
        }
    }
    assert(i as int == zone_start(cs@));
    let offset = match zone_offset_at(&cs, i) {
        Some(o) => o,
        None => return None,
    };
    let mo_u: u32 = if mo < 0 {
        (mo + 0x1_0000_0000i64) as u32
    } else {
        mo as u32
    };
    let d_u: u32 = if d < 0 {
        (d + 0x1_0000_0000i64) as u32
    } else {
        d as u32
    };
    let days = days_from_civil(y, mo_u, d_u);
    proof {
        lemma_days_from_civil_range(y as int, mo_u as int, d_u as int);
    }
    Some(days * 86400 + h * 3600 + mi * 60 + sec - offset)
}

/// Every instant `parse_rfc3339` reads lies well inside the `i64` range.
pub proof fn lemma_parsed_range(cs: Seq<char>)
    ensures
        match parse_rfc3339_spec(cs) {
            Some(v) => -200_000_000_000 <= v <= 20_000_000_000_000_000,
            None => true,
        },
{
    if parse_rfc3339_spec(cs) is Some {
        lemma_field_range(cs, 0, 4);
        lemma_field_range(cs, 5, 2);
        lemma_field_range(cs, 8, 2);
        lemma_field_range(cs, 11, 2);
        lemma_field_range(cs, 14, 2);
        lemma_field_range(cs, 17, 2);
        let i = zone_start(cs);
        if i < cs.len() && (cs[i] == '+' || cs[i] == '-') {
            lemma_field_range(cs, i + 1, 2);
            if i + 3 < cs.len() && cs[i + 3] == ':' {
                lemma_field_range(cs, i + 4, 2);
            } else {
                lemma_field_range(cs, i + 3, 2);
            }
            let oh = field(cs, i + 1, 2)->0;
            let om = if i + 3 < cs.len() && cs[i + 3] == ':' {
                field(cs, i + 4, 2)->0
            } else {
                field(cs, i + 3, 2)->0
            };
            assert(-400_000 <= oh * 3600 + om * 60 <= 400_000);
            let sign = if cs[i] == '+' {
                1int
            } else {
                -1
            };
            let x = oh * 3600 + om * 60;
            assert(-400_000 <= sign * x <= 400_000) by (nonlinear_arith)
                requires
                    sign == 1 || sign == -1,
                    -400_000 <= x <= 400_000,
            ;
        }
        assert(-400_000 <= zone_offset(cs, i)->0 <= 400_000);
        lemma_days_from_civil_range(
            field(cs, 0, 4)->0,
            as_u32(field(cs, 5, 2)->0),
            as_u32(field(cs, 8, 2)->0),
        );
    }
}

proof fn lemma_field_range(cs: Seq<char>, at: int, n: int)
    requires
        1 <= n <= 4,
        field(cs, at, n) is Some,
    ensures
        -1000 < field(cs, at, n)->0 < 10000,
        n == 2 ==> -10 < field(cs, at, n)->0 < 100,
{
    reveal_with_fuel(pow10, 5);
    let sub = cs.subrange(at, at + n);
    if sub[0] == '+' || sub[0] == '-' {
        lemma_digits_value_bound(sub.drop_first());
    } else {
        lemma_digits_value_bound(sub);
        assert(pow10((n - 1) as nat) >= 1);
    }
}

proof fn lemma_days_from_civil_range(y: int, m: int, d: int)
    requires
        -1000 < y < 10000,
        0 <= m <= 0xFFFF_FFFF,
        0 <= d <= 0xFFFF_FFFF,
    ensures
        -2_000_000 <= days_from_civil_spec(y, m, d) <= 200_000_000_000,
{
    let y1 = if m <= 2 {
        y - 1
    } else {
        y
    };
    let mp = if m > 2 {
        m - 3
    } else {
        m + 9
    };
    assert(0 <= (153 * mp + 2) / 5 <= 140_000_000_000);
    let era = y1 / 400;
    let yoe = y1 % 400;
    assert(-3 <= era <= 25);
    assert(0 <= yoe < 400);
    assert(0 <= yoe * 365 + yoe / 4 - yoe / 100 <= 146_000);
    let doy = (153 * mp + 2) / 5 + d - 1;
    assert(-1 <= doy <= 145_000_000_000);
}


// ---------------------------------------------------------------- short text

/// `H:MM:SS` of a non-negative number of seconds; negative durations show as zero.
pub open spec fn fmt_hms_spec(secs: int) -> Seq<char> {
    let s = if secs > 0 {
        secs
    } else {
        0
    };
    fmt_int(s / 3600, 0) + seq![':'] + pad_digits((s % 3600 / 60) as nat, 2) + seq![':']
        + pad_digits((s % 60) as nat, 2)
}

/// Formats a duration as `H:MM:SS` (hours are not padded; negative means zero).
pub fn fmt_hms(secs: i64) -> (r: String)
    ensures
        r@ == fmt_hms_spec(secs as int),
{
    let s = if secs > 0 {
        secs
    } else {
        0
    };
    let mut out = String::new();
    push_int(&mut out, s / 3600, 0);
    out.push(':');
    push_uint(&mut out, (s % 3600 / 60) as u64, 2);
    out.push(':');
    push_uint(&mut out, (s % 60) as u64, 2);
    assert(out@ =~= fmt_hms_spec(secs as int));
    out
}

/// At most `max_chars` characters of `s`; a shortened text ends with an ellipsis.
pub open spec fn truncate_spec(s: Seq<char>, max_chars: nat) -> Seq<char> {
    if s.len() <= max_chars {
        s
    } else {
        s.take(
            if max_chars > 0 {
                max_chars - 1
            } else {
                0
            },
        ).push('\u{2026}')
    }
}

/// Shortens `s` to at most `max_chars` characters, marking a cut with `…`.
pub fn truncate(s: &str, max_chars: usize) -> (r: String)
    ensures
        r@ == truncate_spec(s@, max_chars as nat),
{
    let cs = chars_of(s);
    if cs.len() <= max_chars {
        let r = string_of(&cs, 0, cs.len());
        assert(cs@.subrange(0, cs@.len() as int) =~= cs@);
        r
    } else {
        let keep = if max_chars > 0 {
            max_chars - 1
        } else {
            0
        };
        let mut r = string_of(&cs, 0, keep);
        r.push('\u{2026}');
        assert(cs@.subrange(0, keep as int) =~= cs@.take(keep as int));
        r
    }
}

/// An elapsed time is shown as hours, minutes and seconds that add back up to it: `H:MM:SS`
/// with minutes and seconds below 60; a time below zero shows as `0:00:00`.
pub proof fn lemma_hms_reads_back(secs: int)
    ensures
        secs <= 0 ==> fmt_hms_spec(secs) == fmt_hms_spec(0),
        secs >= 0 ==> exists|h: Seq<char>, m: Seq<char>, s: Seq<char>|
            #![trigger digits_value(h), digits_value(m), digits_value(s)]
            fmt_hms_spec(secs) == h + seq![':'] + m + seq![':'] + s && h.len() >= 1 && all_digits(h)
                && m.len() == 2 && all_digits(m) && s.len() == 2 && all_digits(s)
                && digits_value(m) < 60 && digits_value(s) < 60 && digits_value(h) * 3600
                + digits_value(m) * 60 + digits_value(s) == secs,
{
    if secs >= 0 {
        let hv = secs / 3600;
        let mv = secs % 3600 / 60;
        let sv = secs % 60;
        reveal_with_fuel(pow10, 3);
        lemma_dec_digits(hv as nat);
        lemma_pad_digits(mv as nat, 2);
        lemma_pad_digits(sv as nat, 2);
        let h = dec_digits(hv as nat);
        let m = pad_digits(mv as nat, 2);
        let s = pad_digits(sv as nat, 2);
        assert(fmt_int(hv, 0) == h);
        assert(fmt_hms_spec(secs) == h + seq![':'] + m + seq![':'] + s);
        assert(hv * 3600 + mv * 60 + sv == secs);
        assert(digits_value(h) * 3600 + digits_value(m) * 60 + digits_value(s) == secs);
    }
}

/// A text is cut to at most `max_chars` characters (for a limit of one or more): one that
/// fits is kept whole; a longer one keeps its first characters and ends with `…`, using
/// the whole limit.
pub proof fn lemma_truncate_shape(s: Seq<char>, max_chars: nat)
    requires
        max_chars >= 1,
    ensures
        s.len() <= max_chars ==> truncate_spec(s, max_chars) == s,
        s.len() > max_chars ==> truncate_spec(s, max_chars).len() == max_chars
            && truncate_spec(s, max_chars).last() == '\u{2026}'
            && forall|i: int|
            0 <= i < max_chars - 1 ==> #[trigger] truncate_spec(s, max_chars)[i] == s[i],
{
}


proof fn lemma_field_of_digits(cs: Seq<char>, at: int, w: int, n: nat)
    requires
        1 <= w <= 4,
        0 <= at,
        at + w <= cs.len(),
        n < pow10(w as nat),
        cs.subrange(at, at + w) == pad_digits(n, w as nat),
    ensures
        field(cs, at, w) == Some(n as int),
{
    lemma_pad_digits(n, w as nat);
    let sub = cs.subrange(at, at + w);
    assert(is_ascii_digit(sub[0]));
}

spec fn stamp(a: Seq<char>, b: Seq<char>, c: Seq<char>, hh: Seq<char>, mm: Seq<char>, ss: Seq<char>) -> Seq<char> {
    a + seq!['-'] + b + seq!['-'] + c + seq!['T'] + hh + seq![':'] + mm + seq![':'] + ss + seq!['Z']
}

/// The date, time and separators of a stamp are read from its first 19 characters.
proof fn lemma_same_head(cs: Seq<char>, b: Seq<char>)
    requires
        b.len() == 19,
        cs.len() >= 19,
        cs.subrange(0, 19) == b,
    ensures
        field(cs, 0, 4) == field(b, 0, 4),
        field(cs, 5, 2) == field(b, 5, 2),
        field(cs, 8, 2) == field(b, 8, 2),
        field(cs, 11, 2) == field(b, 11, 2),
        field(cs, 14, 2) == field(b, 14, 2),
        field(cs, 17, 2) == field(b, 17, 2),
        cs[4] == b[4] && cs[7] == b[7] && cs[10] == b[10] && cs[13] == b[13] && cs[16] == b[16],
{
    assert forall|i: int| 0 <= i < 19 implies cs[i] == b[i] by {
        assert(cs.subrange(0, 19)[i] == cs[i]);
    }
    assert(cs.subrange(0, 4) =~= b.subrange(0, 4));
    assert(cs.subrange(5, 7) =~= b.subrange(5, 7));
    assert(cs.subrange(8, 10) =~= b.subrange(8, 10));
    assert(cs.subrange(11, 13) =~= b.subrange(11, 13));
    assert(cs.subrange(14, 16) =~= b.subrange(14, 16));
    assert(cs.subrange(17, 19) =~= b.subrange(17, 19));
}

proof fn lemma_digits_end_run(cs: Seq<char>, i: int, e: int)
    requires
        0 <= i <= e < cs.len(),
        forall|j: int| i <= j < e ==> is_ascii_digit(#[trigger] cs[j]),
        !is_ascii_digit(cs[e]),
    ensures
        digits_end(cs, i) == e,
    decreases e - i,
{
    if i < e {
        lemma_digits_end_run(cs, i + 1, e);
    }
}

/// Two ASCII digits read as their value.
proof fn lemma_two_digits(cs: Seq<char>, at: int, d: Seq<char>)
    requires
        0 <= at,
        at + 2 <= cs.len(),
        d.len() == 2,
        all_digits(d),
        cs.subrange(at, at + 2) == d,
    ensures
        field(cs, at, 2) == Some(digits_value(d)),
{
    assert(is_ascii_digit(d[0]));
}

/// A stamp whose first 19 characters are `b` and whose zone reads as `o` seconds east of
/// UTC gives the `Z` reading of `b` less `o`.
proof fn lemma_reading_with_zone(cs: Seq<char>, b: Seq<char>, u: int, o: int)
    requires
        b.len() == 19,
        cs.len() >= 20,
        cs.subrange(0, 19) == b,
        parse_rfc3339_spec(b + seq!['Z']) == Some(u),
        zone_offset(cs, zone_start(cs)) == Some(o),
    ensures
        parse_rfc3339_spec(cs) == Some(u - o),
{
    let z = b + seq!['Z'];
    assert(z.subrange(0, 19) =~= b);
    lemma_same_head(z, b);
    lemma_same_head(cs, b);
    assert(zone_start(z) == 19);
    assert(zone_offset(z, 19) == Some(0int));
}

/// A signed `hh:mm` zone after 19 characters reads as that offset.
#[verifier::spinoff_prover]
proof fn lemma_signed_zone(b: Seq<char>, sign: char, hh: Seq<char>, mm: Seq<char>)
    requires
        b.len() == 19,
        sign == '+' || sign == '-',
        hh.len() == 2,
        mm.len() == 2,
        all_digits(hh),
        all_digits(mm),
    ensures
        ({
            let cs = b + seq![sign] + hh + seq![':'] + mm;
            let off = digits_value(hh) * 3600 + digits_value(mm) * 60;
            &&& cs.len() == 25
            &&& cs.subrange(0, 19) == b
            &&& zone_offset(cs, zone_start(cs)) == Some(if sign == '+' {
                off
            } else {
                -off
            })
        }),
{
    let cs = b + seq![sign] + hh + seq![':'] + mm;
    assert(cs.subrange(0, 19) =~= b);
    assert(cs[19] == sign && cs[22] == ':');
    assert(cs.subrange(20, 22) =~= hh);
    assert(cs.subrange(23, 25) =~= mm);
    lemma_two_digits(cs, 20, hh);
    lemma_two_digits(cs, 23, mm);
    assert(zone_start(cs) == 19);
    let off = digits_value(hh) * 3600 + digits_value(mm) * 60;
    assert(-1int * off == -off) by (nonlinear_arith);
    assert(1int * off == off);
}

/// A fraction of a second followed by `Z` reads as UTC.
#[verifier::spinoff_prover]
proof fn lemma_fraction_zone(b: Seq<char>, f: Seq<char>)
    requires
        b.len() == 19,
        all_digits(f),
    ensures
        ({
            let cs = b + seq!['.'] + f + seq!['Z'];
            &&& cs.subrange(0, 19) == b
            &&& zone_offset(cs, zone_start(cs)) == Some(0int)
        }),
{
    let cs = b + seq!['.'] + f + seq!['Z'];
    assert(cs.subrange(0, 19) =~= b);
    let e: int = 20 + f.len() as int;
    assert forall|j: int| 20 <= j < e implies is_ascii_digit(#[trigger] cs[j]) by {
        assert(cs[j] == f[j - 20]);
    }
    assert(cs[e] == 'Z');
    lemma_digits_end_run(cs, 20, e);
    assert(zone_start(cs) == e);
}

/// A fraction of a second followed by a signed `hh:mm` zone: the zone reads as that offset.
#[verifier::spinoff_prover]
proof fn lemma_fraction_signed_zone(b: Seq<char>, f: Seq<char>, sign: char, hh: Seq<char>, mm: Seq<char>)
    requires
        b.len() == 19,
        all_digits(f),
        sign == '+' || sign == '-',
        hh.len() == 2,
        mm.len() == 2,
        all_digits(hh),
        all_digits(mm),
    ensures
        ({
            let cs = b + seq!['.'] + f + seq![sign] + hh + seq![':'] + mm;
            let off = digits_value(hh) * 3600 + digits_value(mm) * 60;
            &&& cs.len() >= 20
            &&& cs.subrange(0, 19) == b
            &&& zone_offset(cs, zone_start(cs)) == Some(if sign == '+' {
                off
            } else {
                -off
            })
        }),
{
    let cs = b + seq!['.'] + f + seq![sign] + hh + seq![':'] + mm;
    assert(cs.subrange(0, 19) =~= b);
    let e: int = 20 + f.len() as int;
    assert forall|j: int| 20 <= j < e implies is_ascii_digit(#[trigger] cs[j]) by {
        assert(cs[j] == f[j - 20]);
    }
    assert(cs[19] == '.');
    assert(cs[e] == sign);
    lemma_digits_end_run(cs, 20, e);
    assert(zone_start(cs) == e);
    assert(cs[e + 3] == ':');
    assert(cs.subrange(e + 1, e + 3) =~= hh);
    assert(cs.subrange(e + 4, e + 6) =~= mm);
    lemma_two_digits(cs, e + 1, hh);
    lemma_two_digits(cs, e + 4, mm);
    let off = digits_value(hh) * 3600 + digits_value(mm) * 60;
    assert(-1int * off == -off) by (nonlinear_arith);
    assert(1int * off == off);
}

/// A fraction of a second never changes what a signed zone does to a stamp: for any
/// date and time `b`, digits `f` and zone `+hh:mm` or `-hh:mm`, `b.f` with that zone
/// reads as `b` with that zone.
pub proof fn lemma_fraction_keeps_zone(b: Seq<char>, f: Seq<char>, sign: char, hh: Seq<char>, mm: Seq<char>)
    requires
        b.len() == 19,
        all_digits(f),
        sign == '+' || sign == '-',
        hh.len() == 2,
        mm.len() == 2,
        all_digits(hh),
        all_digits(mm),
    ensures
        parse_rfc3339_spec(b + seq!['.'] + f + seq![sign] + hh + seq![':'] + mm)
            == parse_rfc3339_spec(b + seq![sign] + hh + seq![':'] + mm),
{
    let with_fraction = b + seq!['.'] + f + seq![sign] + hh + seq![':'] + mm;
    let plain = b + seq![sign] + hh + seq![':'] + mm;
    lemma_fraction_signed_zone(b, f, sign, hh, mm);
    lemma_signed_zone(b, sign, hh, mm);
    lemma_same_head(with_fraction, b);
    lemma_same_head(plain, b);
}

/// Zone designators move the UTC reading of a stamp: `+hh:mm` is a clock that far east of
/// UTC (the instant is that much earlier), `-hh:mm` one that far west; a fraction of a
/// second and a lower-case `z` change nothing; any other designator does not read.
pub proof fn lemma_zone_designators(b: Seq<char>, u: int, hh: Seq<char>, mm: Seq<char>, f: Seq<char>)
    requires
        b.len() == 19,
        parse_rfc3339_spec(b + seq!['Z']) == Some(u),
        hh.len() == 2,
        mm.len() == 2,
        all_digits(hh),
        all_digits(mm),
        all_digits(f),
    ensures
        ({
            let off = digits_value(hh) * 3600 + digits_value(mm) * 60;
            &&& parse_rfc3339_spec(b + seq!['+'] + hh + seq![':'] + mm) == Some(u - off)
            &&& parse_rfc3339_spec(b + seq!['-'] + hh + seq![':'] + mm) == Some(u + off)
            &&& parse_rfc3339_spec(b + seq!['.'] + f + seq!['Z']) == Some(u)
            &&& parse_rfc3339_spec(b + seq!['z']) == Some(u)
            &&& parse_rfc3339_spec(b + seq!['Q']) is None
        }),
{
    let off = digits_value(hh) * 3600 + digits_value(mm) * 60;
    lemma_signed_zone(b, '+', hh, mm);
    lemma_reading_with_zone(b + seq!['+'] + hh + seq![':'] + mm, b, u, off);
    lemma_signed_zone(b, '-', hh, mm);
    lemma_reading_with_zone(b + seq!['-'] + hh + seq![':'] + mm, b, u, -off);
    lemma_fraction_zone(b, f);
    lemma_reading_with_zone(b + seq!['.'] + f + seq!['Z'], b, u, 0);
    let lower = b + seq!['z'];
    assert(lower.subrange(0, 19) =~= b);
    assert(zone_start(lower) == 19);
    lemma_reading_with_zone(lower, b, u, 0);
    let other = b + seq!['Q'];
    assert(zone_start(other) == 19);
    assert(zone_offset(other, 19) is None);
}

/// A year before 0000 is written with a sign and three digits, and read back.
proof fn lemma_field_of_negative(cs: Seq<char>, n: nat)
    requires
        1 <= n < 1000,
        4 <= cs.len(),
        cs.subrange(0, 4) == seq!['-'] + pad_digits(n, 3),
    ensures
        field(cs, 0, 4) == Some(-(n as int)),
{
    assert(pow10(3) == 1000) by {
        reveal_with_fuel(pow10, 4);
    }
    lemma_pad_digits(n, 3);
    let sub = cs.subrange(0, 4);
    assert(sub.drop_first() =~= pad_digits(n, 3));
}

proof fn lemma_stamp_layout(
    a: Seq<char>,
    b: Seq<char>,
    c: Seq<char>,
    hh: Seq<char>,
    mm: Seq<char>,
    ss: Seq<char>,
)
    requires
        a.len() == 4,
        b.len() == 2,
        c.len() == 2,
        hh.len() == 2,
        mm.len() == 2,
        ss.len() == 2,
    ensures
        ({
            let cs = stamp(a, b, c, hh, mm, ss);
            &&& cs.len() == 20
            &&& cs.subrange(0, 4) == a
            &&& cs.subrange(5, 7) == b
            &&& cs.subrange(8, 10) == c
            &&& cs.subrange(11, 13) == hh
            &&& cs.subrange(14, 16) == mm
            &&& cs.subrange(17, 19) == ss
            &&& cs[4] == '-' && cs[7] == '-' && cs[10] == 'T' && cs[13] == ':' && cs[16] == ':'
            &&& cs[19] == 'Z'
        }),
{
    let cs = stamp(a, b, c, hh, mm, ss);
    assert(cs.subrange(0, 4) =~= a);
    assert(cs.subrange(5, 7) =~= b);
    assert(cs.subrange(8, 10) =~= c);
    assert(cs.subrange(11, 13) =~= hh);
    assert(cs.subrange(14, 16) =~= mm);
    assert(cs.subrange(17, 19) =~= ss);
}

#[verifier::rlimit(100)]
#[verifier::spinoff_prover]
/// Reading back what `rfc3339_utc` wrote gives the same time, for every time whose
/// year has four digits (0000-01-01 up to 9999-12-31).
pub proof fn lemma_rfc3339_roundtrip(t: int)
    requires
        -93692592000 <= t < 253402300800,
    ensures
        parse_rfc3339_spec(rfc3339_spec(t)) == Some(t),
{
    let z = t / 86400;
    let r = t % 86400;
    lemma_civil_from_days(z);
    let date = civil_from_days_spec(z);
    let y = date.0;
    let m = date.1;
    let d = date.2;
    lemma_four_digit_year(y, m, d);
    assert(pow10(2) == 100 && pow10(3) == 1000 && pow10(4) == 10000) by {
        reveal_with_fuel(pow10, 5);
    }
    let a = fmt_int(y, 4);
    let b = pad_digits(m as nat, 2);
    let c = pad_digits(d as nat, 2);
    let hh = pad_digits((r / 3600) as nat, 2);
    let mm = pad_digits((r % 3600 / 60) as nat, 2);
    let ss = pad_digits((r % 60) as nat, 2);
    if y >= 0 {
        lemma_pad_digits(y as nat, 4);
    } else {
        lemma_pad_digits((-y) as nat, 3);
    }
    lemma_pad_digits(m as nat, 2);
    lemma_pad_digits(d as nat, 2);
    lemma_pad_digits((r / 3600) as nat, 2);
    lemma_pad_digits((r % 3600 / 60) as nat, 2);
    lemma_pad_digits((r % 60) as nat, 2);
    let cs = rfc3339_spec(t);
    assert(cs == stamp(a, b, c, hh, mm, ss));
    lemma_stamp_layout(a, b, c, hh, mm, ss);
    if y >= 0 {
        lemma_field_of_digits(cs, 0, 4, y as nat);
    } else {
        lemma_field_of_negative(cs, (-y) as nat);
    }
    lemma_field_of_digits(cs, 5, 2, m as nat);
    lemma_field_of_digits(cs, 8, 2, d as nat);
    lemma_field_of_digits(cs, 11, 2, (r / 3600) as nat);
    lemma_field_of_digits(cs, 14, 2, (r % 3600 / 60) as nat);
    lemma_field_of_digits(cs, 17, 2, (r % 60) as nat);
    lemma_parse_utc_stamp(cs, y, m, d, r / 3600, r % 3600 / 60, r % 60);
}

proof fn lemma_parse_utc_stamp(cs: Seq<char>, y: int, m: int, d: int, h: int, mi: int, s: int)
    requires
        cs.len() == 20,
        field(cs, 0, 4) == Some(y),
        field(cs, 5, 2) == Some(m),
        field(cs, 8, 2) == Some(d),
        field(cs, 11, 2) == Some(h),
        field(cs, 14, 2) == Some(mi),
        field(cs, 17, 2) == Some(s),
        m >= 0,
        d >= 0,
        cs[4] == '-' && cs[7] == '-' && cs[10] == 'T' && cs[13] == ':' && cs[16] == ':',
        cs[19] == 'Z',
    ensures
        parse_rfc3339_spec(cs) == Some(days_from_civil_spec(y, m, d) * 86400 + h * 3600 + mi * 60 + s),
{
    assert(zone_start(cs) == 19);
    assert(zone_offset(cs, 19) == Some(0int));
}


// ---------------------------------------------------------------- local time

/// A moment on the local clock. `weekday` is 0 for Sunday.
pub struct LocalTime {
    pub year: i64,
    pub month: u32,
    pub day: u32,
    pub hour: u32,
    pub minute: u32,
    pub second: u32,
    pub weekday: u32,
}

/// Local time is UTC shifted by `offset` seconds (east of UTC), less than a day.
pub open spec fn valid_offset(offset: int) -> bool {
    -86400 < offset < 86400
}

/// The offset east of UTC, in seconds, of a clock whose time zone is `bias` minutes west
/// of UTC, plus `standard_bias` or `daylight_bias` while standard (`zone_id` 1) or daylight
/// (`zone_id` 2) time is in effect; 0 when that is not less than a day either way.
pub open spec fn utc_offset_spec(bias: int, standard_bias: int, daylight_bias: int, zone_id: int) -> int {
    let total = bias + if zone_id == 1 {
        standard_bias
    } else if zone_id == 2 {
        daylight_bias
    } else {
        0
    };
    if valid_offset(-total * 60) {
        -total * 60
    } else {
        0
    }
}

pub fn utc_offset(bias: i32, standard_bias: i32, daylight_bias: i32, zone_id: u32) -> (o: i64)
    ensures
        o == utc_offset_spec(bias as int, standard_bias as int, daylight_bias as int, zone_id as int),
        valid_offset(o as int),
{
    let extra: i64 = if zone_id == 1 {
        standard_bias as i64
    } else if zone_id == 2 {
        daylight_bias as i64
    } else {
        0
    };
    let total = bias as i64 + extra;
    let offset = -total * 60;
    if -86400 < offset && offset < 86400 {
        offset
    } else {
        0
    }
}

/// `secs` (a Unix time) can be moved by an offset of less than a day.
pub open spec fn shiftable(secs: int) -> bool {
    i64::MIN + 86400 <= secs <= i64::MAX - 86400
}

/// The local day number (days since 1970-01-01 on the local calendar) of `secs`.
pub open spec fn local_day(secs: int, offset: int) -> int {
    (secs + offset) / 86400
}

/// `lt` shows the Unix time `secs` on a clock `offset` seconds east of UTC.
pub open spec fn is_local_time(lt: LocalTime, secs: int, offset: int) -> bool {
    let z = local_day(secs, offset);
    let r = (secs + offset) % 86400;
    let date = civil_from_days_spec(z);
    &&& lt.year == date.0 && lt.month == date.1 && lt.day == date.2
    &&& lt.hour == r / 3600 && lt.minute == r % 3600 / 60 && lt.second == r % 60
    &&& lt.weekday == (z + 4) % 7
}

/// `HH:MM` of a local time.
pub open spec fn hm_spec(lt: LocalTime) -> Seq<char> {
    pad_digits(lt.hour as nat, 2) + seq![':'] + pad_digits(lt.minute as nat, 2)
}

/// The Unix time of a local date and clock time.
pub open spec fn from_local_spec(y: int, m: int, d: int, h: int, mi: int, s: int, offset: int) -> int {
    days_from_civil_spec(y, m, d) * 86400 + h * 3600 + mi * 60 + s - offset
}

/// The local time of the Unix time `secs` on a clock `offset` seconds east of UTC.
pub fn to_local(secs: i64, offset: i64) -> (lt: LocalTime)
    requires
        valid_offset(offset as int),
        shiftable(secs as int),
    ensures
        is_local_time(lt, secs as int, offset as int),
        -1_000_000_000_000 <= lt.year <= 1_000_000_000_000,
{
    let l = secs + offset;
    let z = div_floor(l, 86400);
    let r = mod_floor(l, 86400);
    let (year, month, day) = civil_from_days(z);
    proof {
        lemma_civil_from_days(z as int);
        lemma_civil_alg(z as int);
        lemma_civil_year_bound(z as int);
    }
    LocalTime {
        year,
        month,
        day,
        hour: (r / 3600) as u32,
        minute: (r % 3600 / 60) as u32,
        second: (r % 60) as u32,
        weekday: mod_floor(z + 4, 7) as u32,
    }
}

proof fn lemma_civil_year_bound(z: int)
    requires
        -200_000_000_000_000 <= z <= 200_000_000_000_000,
    ensures
        -1_000_000_000_000 <= civil_alg(z).0 <= 1_000_000_000_000,
{
    let z1 = z + 719468;
    let era = z1 / 146097;
    let doe = z1 % 146097;
    assert(-1_400_000_000 <= era <= 1_400_000_000) by (nonlinear_arith)
        requires
            era == z1 / 146097,
            -200_000_000_000_000 <= z1 <= 200_000_001_000_000,
    ;
    assert(0 <= doe < 146097);
    assert(0 <= yoe_of(doe) <= 400) by {
        assert(0 <= doe - doe / 1460 + doe / 36524 - doe / 146096 <= 146097);
    }
}

impl LocalTime {
    /// `HH:MM`.
    pub fn hm(&self) -> (r: String)
        ensures
            r@ == hm_spec(*self),
    {
        let mut out = String::new();
        push_uint(&mut out, self.hour as u64, 2);
        out.push(':');
        push_uint(&mut out, self.minute as u64, 2);
        out
    }

    /// The day number of the date.
    pub fn days(&self) -> (d: i64)
        requires
            -1_000_000_000_000 <= self.year <= 1_000_000_000_000,
        ensures
            d == days_from_civil_spec(self.year as int, self.month as int, self.day as int),
    {
        days_from_civil(self.year, self.month, self.day)
    }
}

/// The Unix time of the local date `y-m-d` at `h:mi:s`, on a clock `offset` seconds
/// east of UTC.
pub fn from_local(y: i64, m: u32, d: u32, h: u32, mi: u32, s: u32, offset: i64) -> (r: i64)
    requires
        -1_000_000_000_000 <= y <= 1_000_000_000_000,
        valid_offset(offset as int),
        i64::MIN <= from_local_spec(y as int, m as int, d as int, h as int, mi as int, s as int, offset as int) <= i64::MAX,
    ensures
        r == from_local_spec(y as int, m as int, d as int, h as int, mi as int, s as int, offset as int),
{
    let days = days_from_civil(y, m, d);
    proof {
        lemma_days_from_civil_bound(y as int, m as int, d as int);
    }
    let t: i128 = days as i128 * 86400 + h as i128 * 3600 + mi as i128 * 60 + s as i128 - offset as i128;
    t as i64
}

proof fn lemma_days_from_civil_bound(y: int, m: int, d: int)
    requires
        -1_000_000_000_000 <= y <= 1_000_000_000_000,
        0 <= m <= 0xFFFF_FFFF,
        0 <= d <= 0xFFFF_FFFF,
    ensures
        -1_000_000_000_000_000 <= days_from_civil_spec(y, m, d) <= 1_000_000_000_000_000,
{
    let y1 = if m <= 2 {
        y - 1
    } else {
        y
    };
    let mp = if m > 2 {
        m - 3
    } else {
        m + 9
    };
    assert(0 <= (153 * mp + 2) / 5 <= 140_000_000_000);
    let era = y1 / 400;
    let yoe = y1 % 400;
    assert(-2_600_000_000 <= era <= 2_600_000_000);
    assert(0 <= yoe < 400);
    assert(0 <= yoe * 365 + yoe / 4 - yoe / 100 <= 146_000);
}

/// The position of the first `:`.
pub open spec fn colon_pos(t: Seq<char>) -> Option<int>
    decreases t.len(),
{
    if t.len() == 0 {
        None
    } else if t[0] == ':' {
        Some(0)
    } else {
        match colon_pos(t.drop_first()) {
            Some(p) => Some(p + 1),
            None => None,
        }
    }
}

/// Hours of one or two digits and minutes of two, within a day.
pub open spec fn hm_fields(h: Seq<char>, m: Seq<char>) -> Option<(int, int)> {
    if 1 <= h.len() <= 2 && m.len() == 2 && all_digits(h) && all_digits(m) && digits_value(h) < 24
        && digits_value(m) < 60 {
        Some((digits_value(h), digits_value(m)))
    } else {
        None
    }
}

/// A clock time typed by the user: `H:MM`, `HH:MM`, `HMM` or `HHMM`, surrounding white
/// space allowed.
pub open spec fn parse_hm_spec(text: Seq<char>) -> Option<(int, int)> {
    let t = trim_spec(text);
    match colon_pos(t) {
        Some(p) => hm_fields(t.take(p), t.skip(p + 1)),
        None => if 3 <= t.len() <= 4 {
            hm_fields(t.take(t.len() - 2), t.skip(t.len() - 2))
        } else {
            None
        },
    }
}

/// A clock time that reads is a time of day.
pub proof fn lemma_parse_hm_range(text: Seq<char>)
    ensures
        parse_hm_spec(text) matches Some((h, m)) ==> 0 <= h < 24 && 0 <= m < 60,
{
    let t = trim_spec(text);
    let (a, b) = match colon_pos(t) {
        Some(p) => (t.take(p), t.skip(p + 1)),
        None => (t.take(t.len() - 2), t.skip(t.len() - 2)),
    };
    if all_digits(a) {
        lemma_digits_value_bound(a);
    }
    if all_digits(b) {
        lemma_digits_value_bound(b);
    }
}

pub(crate) proof fn lemma_colon_pos(t: Seq<char>, p: int)
    requires
        0 <= p <= t.len(),
        forall|j: int| 0 <= j < p ==> t[j] != ':',
    ensures
        p < t.len() && t[p] == ':' ==> colon_pos(t) == Some(p),
        p == t.len() ==> colon_pos(t) is None,
    decreases p,
{
    if p > 0 {
        lemma_colon_pos(t.drop_first(), p - 1);
    }
}

/// The number in `v[a..b]` when it is one or two digits.
fn small_number(v: &Vec<char>, a: usize, b: usize) -> (r: Option<u32>)
    requires
        a <= b <= v@.len(),
    ensures
        match r {
            Some(n) => b - a <= 2 && b > a && all_digits(v@.subrange(a as int, b as int)) && n
                == digits_value(v@.subrange(a as int, b as int)),
            None => !(b - a <= 2 && b > a && all_digits(v@.subrange(a as int, b as int))),
        },
{
    if b == a || b - a > 2 {
        return None;
    }
    let mut n: u32 = 0;
    let mut i = a;
    while i < b
        invariant
            a <= i <= b <= v@.len(),
            a < b <= a + 2,
            all_digits(v@.subrange(a as int, i as int)),
            n == digits_value(v@.subrange(a as int, i as int)),
            i < a + 2 ==> n < 10,
            n < 100,
        decreases b - i,
    {
        let c = v[i];
        if !('0' <= c && c <= '9') {
            proof {
                assert(v@.subrange(a as int, b as int)[i - a] == c);
            }
            return None;
        }
        proof {
            assert(v@.subrange(a as int, i + 1).drop_last() =~= v@.subrange(a as int, i as int));
        }
        n = n * 10 + (c as u32 - 48);
        i = i + 1;
    }
    Some(n)
}

/// Reads a clock time typed by the user (see `parse_hm_spec`).
pub fn parse_hm(text: &str) -> (r: Option<(u32, u32)>)
    ensures
        match r {
            Some((h, m)) => parse_hm_spec(text@) == Some((h as int, m as int)) && h < 24 && m < 60,
            None => parse_hm_spec(text@) is None,
        },
{
    let v = chars_of(text);
    let (a, b) = trim_bounds(&v);
    let ghost t = v@.subrange(a as int, b as int);
    let mut p = a;
    while p < b && v[p] != ':'
        invariant
            a <= p <= b <= v@.len(),
            forall|j: int| a <= j < p ==> v@[j] != ':',
        decreases b - p,
    {
        p = p + 1;
    }
    proof {
        assert forall|j: int| 0 <= j < p - a implies t[j] != ':' by {
            assert(t[j] == v@[j + a]);
        }
        if p < b {
            assert(t[p - a] == v@[p as int]);
        }
        lemma_colon_pos(t, p - a);
    }
    let (hs, he, ms, me) = if p < b {
        (a, p, p + 1, b)
    } else if b - a >= 3 && b - a <= 4 {
        (a, b - 2, b - 2, b)
    } else {
        return None;
    };
    proof {
        assert(v@.subrange(hs as int, he as int) =~= t.take(he - a));
        assert(v@.subrange(ms as int, me as int) =~= t.skip(ms - a));
    }
    if me - ms != 2 {
        return None;
    }
    let h = match small_number(&v, hs, he) {
        Some(n) => n,
        None => return None,
    };
    let m = match small_number(&v, ms, me) {
        Some(n) => n,
        None => return None,
    };
    if h < 24 && m < 60 {
        Some((h, m))
    } else {
        None
    }
}

} // verus!
