//! Byte-level percent-decoding and its inverse.
//!
//! The decoder maps `+` to a space, `%XY` (two case-insensitive hex digits)
//! to the byte `0xXY`, and passes every other byte through unchanged. A `%`
//! that is not followed by two hex digits anywhere in the buffer makes the
//! whole buffer invalid; [`percent_encoding_is_invalid`] detects this before
//! any decoding takes place, so that failure is global rather than per-field.
//!
//! [`percent_encode_bytes`] is the decoder's inverse: it keeps unreserved
//! ASCII bytes, turns a space into `+`, and writes every other byte as a
//! `%XY` escape with upper-case hex digits. Encoding followed by decoding
//! reproduces the input exactly ([`lemma_percent_round_trip`]).

use vstd::arithmetic::div_mod::lemma_fundamental_div_mod;
use vstd::prelude::*;

verus! {

/// True when `b` is an ASCII hexadecimal digit (either case).
pub open spec fn spec_is_hex_digit(b: u8) -> bool {
    (0x30 <= b <= 0x39) || (0x61 <= b <= 0x66) || (0x41 <= b <= 0x46)
}

/// Numeric value of the hex digit `b`.
pub open spec fn spec_hex_value(b: u8) -> u8
    recommends
        spec_is_hex_digit(b),
{
    if 0x30 <= b <= 0x39 {
        (b - 0x30) as u8
    } else if 0x61 <= b <= 0x66 {
        (b - 0x61 + 10) as u8
    } else {
        (b - 0x41 + 10) as u8
    }
}

/// Upper-case ASCII hexadecimal digit for the value `v`.
pub open spec fn spec_hex_digit_upper(v: u8) -> u8
    recommends
        v < 16,
{
    if v < 10 {
        (0x30 + v) as u8
    } else {
        (0x41 + v - 10) as u8
    }
}

/// True when the suffix of `s` starting at `i` contains a `%` that is not
/// followed by two hexadecimal digits.
pub open spec fn pe_invalid_from(s: Seq<u8>, i: int) -> bool
    decreases s.len() - i when 0 <= i
{
    if i >= s.len() {
        false
    } else if s[i] == 0x25 {
        if i + 2 >= s.len() {
            true
        } else if !spec_is_hex_digit(s[i + 1]) || !spec_is_hex_digit(s[i + 2]) {
            true
        } else {
            pe_invalid_from(s, i + 3)
        }
    } else {
        pe_invalid_from(s, i + 1)
    }
}

/// True when `s` contains a malformed percent escape.
pub open spec fn pe_invalid(s: Seq<u8>) -> bool {
    pe_invalid_from(s, 0)
}

/// Percent-decoding of the suffix of `s` starting at `i`.
pub open spec fn pdecode_from(s: Seq<u8>, i: int) -> Seq<u8>
    decreases s.len() - i when 0 <= i
{
    if i >= s.len() {
        Seq::empty()
    } else if s[i] == 0x2b {
        seq![0x20u8] + pdecode_from(s, i + 1)
    } else if s[i] == 0x25 && i + 2 < s.len() && spec_is_hex_digit(s[i + 1]) && spec_is_hex_digit(
        s[i + 2],
    ) {
        seq![(spec_hex_value(s[i + 1]) * 16 + spec_hex_value(s[i + 2])) as u8] + pdecode_from(
            s,
            i + 3,
        )
    } else {
        seq![s[i]] + pdecode_from(s, i + 1)
    }
}

/// Percent-decoding of the whole byte sequence `s`.
pub open spec fn pdecode(s: Seq<u8>) -> Seq<u8> {
    pdecode_from(s, 0)
}

/// True for the ASCII bytes that the encoder leaves as they are:
/// letters, digits, `-`, `.`, `_` and `~`.
pub open spec fn is_unreserved_byte(b: u8) -> bool {
    (0x30 <= b <= 0x39) || (0x41 <= b <= 0x5a) || (0x61 <= b <= 0x7a) || b == 0x2d || b == 0x2e
        || b == 0x5f || b == 0x7e
}

/// Encoding of the single byte `b`: itself when unreserved, `+` for a
/// space, and a `%XY` escape otherwise.
pub open spec fn pencode_byte(b: u8) -> Seq<u8> {
    if is_unreserved_byte(b) {
        seq![b]
    } else if b == 0x20 {
        seq![0x2bu8]
    } else {
        seq![0x25u8, spec_hex_digit_upper(b / 16), spec_hex_digit_upper(b % 16)]
    }
}

/// Percent-encoding of the suffix of `s` starting at `i`.
pub open spec fn pencode_from(s: Seq<u8>, i: int) -> Seq<u8>
    decreases s.len() - i when 0 <= i
{
    if i >= s.len() {
        Seq::empty()
    } else {
        pencode_byte(s[i]) + pencode_from(s, i + 1)
    }
}

/// Percent-encoding of the whole byte sequence `s`.
pub open spec fn pencode(s: Seq<u8>) -> Seq<u8> {
    pencode_from(s, 0)
}

/// Reports whether `b` is an ASCII hexadecimal digit.
pub fn is_hex_digit(b: u8) -> (r: bool)
    ensures
        r == spec_is_hex_digit(b),
{
    (0x30 <= b && b <= 0x39) || (0x61 <= b && b <= 0x66) || (0x41 <= b && b <= 0x46)
}

/// Numeric value of an ASCII hexadecimal digit, or `None` for any other byte.
pub fn from_hex(b: u8) -> (r: Option<u8>)
    ensures
        r is Some <==> spec_is_hex_digit(b),
        r matches Some(v) ==> v == spec_hex_value(b) && v < 16,
{
    if 0x30 <= b && b <= 0x39 {
        Some(b - 0x30)
    } else if 0x61 <= b && b <= 0x66 {
        Some(b - 0x61 + 10)
    } else if 0x41 <= b && b <= 0x46 {
        Some(b - 0x41 + 10)
    } else {
        None
    }
}

/// Upper-case hexadecimal digit for a value below 16.
fn hex_digit_upper(v: u8) -> (r: u8)
    requires
        v < 16,
    ensures
        r == spec_hex_digit_upper(v),
{
    if v < 10 {
        0x30 + v
    } else {
        0x41 + v - 10
    }
}

/// Scans the whole buffer and reports whether any `%` escape in it is
/// malformed, before any decoding takes place.
pub fn percent_encoding_is_invalid(bytes: &[u8]) -> (r: bool)
    ensures
        r == pe_invalid(bytes@),
{
    let n = bytes.len();
    let mut i: usize = 0;
    while i < n
        invariant
            n == bytes@.len(),
            i <= n,
            pe_invalid(bytes@) == pe_invalid_from(bytes@, i as int),
        decreases n - i,
    {
        if bytes[i] == 0x25 {
            if n - i <= 2 {
                return true;
            }
            if !is_hex_digit(bytes[i + 1]) || !is_hex_digit(bytes[i + 2]) {
                return true;
            }
            i = i + 3;
        } else {
            i = i + 1;
        }
    }
    false
}

/// Decodes percent escapes and `+`-as-space over a raw byte buffer.
/// A malformed escape is passed through byte by byte; callers reject such
/// buffers beforehand with [`percent_encoding_is_invalid`].
pub fn percent_decode_bytes(input: &[u8]) -> (out: Vec<u8>)
    ensures
        out@ == pdecode(input@),
{
    let ghost s = input@;
    let n = input.len();
    let mut out: Vec<u8> = Vec::new();
    let mut i: usize = 0;
    while i < n
        invariant
            n == s.len(),
            s == input@,
            i <= n,
            out@ + pdecode_from(s, i as int) == pdecode(s),
        decreases n - i,
    {
        let ghost prev = out@;
        let ghost i0 = i as int;
        let b = input[i];
        if b == 0x2b {
            out.push(0x20);
            i = i + 1;
        } else if b == 0x25 && n - i > 2 {
            let h = from_hex(input[i + 1]);
            let l = from_hex(input[i + 2]);
            match (h, l) {
                (Some(hv), Some(lv)) => {
                    out.push(hv * 16 + lv);
                    i = i + 3;
                },
                _ => {
                    out.push(0x25);
                    i = i + 1;
                },
            }
        } else {
            out.push(b);
            i = i + 1;
        }
        proof {
            let x = out@.last();
            assert(pdecode_from(s, i0) == seq![x] + pdecode_from(s, i as int));
            assert(prev + (seq![x] + pdecode_from(s, i as int)) =~= (prev + seq![x]) + pdecode_from(
                s,
                i as int,
            ));
            assert(out@ == prev + seq![x]);
        }
    }
    proof {
        assert(out@ + Seq::<u8>::empty() =~= out@);
    }
    out
}

/// Percent-encodes a raw byte buffer: the decoder's inverse.
pub fn percent_encode_bytes(input: &[u8]) -> (out: Vec<u8>)
    ensures
        out@ == pencode(input@),
{
    let ghost s = input@;
    let n = input.len();
    let mut out: Vec<u8> = Vec::new();
    let mut i: usize = 0;
    while i < n
        invariant
            n == s.len(),
            s == input@,
            i <= n,
            out@ + pencode_from(s, i as int) == pencode(s),
        decreases n - i,
    {
        let ghost prev = out@;
        let ghost i0 = i as int;
        let b = input[i];
        if (0x30 <= b && b <= 0x39) || (0x41 <= b && b <= 0x5a) || (0x61 <= b && b <= 0x7a) || b
            == 0x2d || b == 0x2e || b == 0x5f || b == 0x7e {
            out.push(b);
        } else if b == 0x20 {
            out.push(0x2b);
        } else {
            out.push(0x25);
            out.push(hex_digit_upper(b / 16));
            out.push(hex_digit_upper(b % 16));
        }
        i = i + 1;
        proof {
            assert(out@ =~= prev + pencode_byte(s[i0]));
            assert(pencode_from(s, i0) == pencode_byte(s[i0]) + pencode_from(s, i as int));
            assert(prev + (pencode_byte(s[i0]) + pencode_from(s, i as int)) =~= (prev
                + pencode_byte(s[i0])) + pencode_from(s, i as int));
        }
    }
    proof {
        assert(out@ + Seq::<u8>::empty() =~= out@);
    }
    out
}

/// Decoding a suffix in place equals decoding that suffix on its own.
pub proof fn lemma_pdecode_shift(s: Seq<u8>, i: int)
    requires
        0 <= i <= s.len(),
    ensures
        pdecode_from(s, i) == pdecode(s.skip(i)),
    decreases s.len() - i,
{
    let t = s.skip(i);
    if i < s.len() {
        if s[i] == 0x2b {
            lemma_pdecode_shift(s, i + 1);
            lemma_pdecode_shift(t, 1);
            assert(t.skip(1) =~= s.skip(i + 1));
        } else if s[i] == 0x25 && i + 2 < s.len() && spec_is_hex_digit(s[i + 1])
            && spec_is_hex_digit(s[i + 2]) {
            lemma_pdecode_shift(s, i + 3);
            lemma_pdecode_shift(t, 3);
            assert(t.skip(3) =~= s.skip(i + 3));
        } else {
            lemma_pdecode_shift(s, i + 1);
            lemma_pdecode_shift(t, 1);
            assert(t.skip(1) =~= s.skip(i + 1));
        }
    }
}

/// Scanning a suffix in place equals scanning that suffix on its own.
pub proof fn lemma_pe_invalid_shift(s: Seq<u8>, i: int)
    requires
        0 <= i <= s.len(),
    ensures
        pe_invalid_from(s, i) == pe_invalid(s.skip(i)),
    decreases s.len() - i,
{
    let t = s.skip(i);
    if i < s.len() {
        if s[i] == 0x25 {
            if i + 2 < s.len() && spec_is_hex_digit(s[i + 1]) && spec_is_hex_digit(s[i + 2]) {
                lemma_pe_invalid_shift(s, i + 3);
                lemma_pe_invalid_shift(t, 3);
                assert(t.skip(3) =~= s.skip(i + 3));
            }
        } else {
            lemma_pe_invalid_shift(s, i + 1);
            lemma_pe_invalid_shift(t, 1);
            assert(t.skip(1) =~= s.skip(i + 1));
        }
    }
}

/// An upper-case hex digit is a hex digit and denotes its value.
proof fn lemma_hex_digit_upper(v: u8)
    requires
        v < 16,
    ensures
        spec_is_hex_digit(spec_hex_digit_upper(v)),
        spec_hex_value(spec_hex_digit_upper(v)) == v,
{
}

/// Round trip with a continuation: the encoding of the suffix of `s`
/// starting at `i`, followed by any tail `t`, decodes to that suffix
/// followed by the decoding of `t`; and the scan of the whole finds a
/// malformed escape exactly where `t` alone has one.
pub proof fn lemma_pencode_prepend(s: Seq<u8>, i: int, t: Seq<u8>)
    requires
        0 <= i <= s.len(),
    ensures
        pdecode(pencode_from(s, i) + t) == s.skip(i) + pdecode(t),
        pe_invalid(pencode_from(s, i) + t) == pe_invalid(t),
    decreases s.len() - i,
{
    if i == s.len() {
        assert(pencode_from(s, i) + t =~= t);
        assert(s.skip(i) =~= Seq::<u8>::empty());
        assert(Seq::<u8>::empty() + pdecode(t) =~= pdecode(t));
    } else {
        let b = s[i];
        let head = pencode_byte(b);
        let rest = pencode_from(s, i + 1) + t;
        let c = head + rest;
        assert(pencode_from(s, i) + t =~= c);
        lemma_pencode_prepend(s, i + 1, t);
        if is_unreserved_byte(b) {
            assert(c[0] == b);
            lemma_pdecode_shift(c, 1);
            lemma_pe_invalid_shift(c, 1);
            assert(c.skip(1) =~= rest);
            assert(pdecode(c) == seq![b] + (s.skip(i + 1) + pdecode(t)));
            assert(seq![b] + (s.skip(i + 1) + pdecode(t)) =~= s.skip(i) + pdecode(t));
        } else if b == 0x20 {
            assert(c[0] == 0x2b);
            lemma_pdecode_shift(c, 1);
            lemma_pe_invalid_shift(c, 1);
            assert(c.skip(1) =~= rest);
            assert(pdecode(c) == seq![0x20u8] + (s.skip(i + 1) + pdecode(t)));
            assert(seq![0x20u8] + (s.skip(i + 1) + pdecode(t)) =~= s.skip(i) + pdecode(t));
        } else {
            let h1 = spec_hex_digit_upper(b / 16);
            let h2 = spec_hex_digit_upper(b % 16);
            lemma_hex_digit_upper(b / 16);
            lemma_hex_digit_upper(b % 16);
            lemma_fundamental_div_mod(b as int, 16);
            assert(c[0] == 0x25 && c[1] == h1 && c[2] == h2);
            assert(c.len() >= 3);
            assert(spec_hex_value(h1) * 16 + spec_hex_value(h2) == b);
            lemma_pdecode_shift(c, 3);
            lemma_pe_invalid_shift(c, 3);
            assert(c.skip(3) =~= rest);
            assert(pdecode(c) == seq![b] + (s.skip(i + 1) + pdecode(t)));
            assert(seq![b] + (s.skip(i + 1) + pdecode(t)) =~= s.skip(i) + pdecode(t));
        }
    }
}

/// Law: percent-encoding any byte sequence and decoding the result yields
/// the original sequence, and the encoded form never contains a malformed
/// escape.
pub proof fn lemma_percent_round_trip(s: Seq<u8>)
    ensures
        pdecode(pencode(s)) == s,
        !pe_invalid(pencode(s)),
{
    lemma_pencode_prepend(s, 0, Seq::empty());
    assert(pencode_from(s, 0) + Seq::<u8>::empty() =~= pencode(s));
    assert(s.skip(0) + pdecode(Seq::empty()) =~= s);
}

/// Decoding passes a buffer through unchanged when it holds no `%` and
/// no `+`.
pub proof fn lemma_pdecode_passthrough(s: Seq<u8>, i: int)
    requires
        0 <= i <= s.len(),
        forall|k: int| 0 <= k < s.len() ==> s[k] != 0x25 && s[k] != 0x2b,
    ensures
        pdecode_from(s, i) == s.skip(i),
    decreases s.len() - i,
{
    if i == s.len() {
        assert(s.skip(i) =~= Seq::<u8>::empty());
    } else {
        lemma_pdecode_passthrough(s, i + 1);
        assert(seq![s[i]] + s.skip(i + 1) =~= s.skip(i));
    }
}

/// Decoding never drops a NUL byte: NUL is not a hex digit, so it can
/// never be consumed as the interior of an escape, and every other path
/// through the decoder emits the byte it reads.
pub proof fn lemma_pdecode_keeps_nul(s: Seq<u8>, i: int, m: int)
    requires
        0 <= i <= m < s.len(),
        s[m] == 0,
    ensures
        pdecode_from(s, i).contains(0u8),
    decreases s.len() - i,
{
    if m == i {
        assert(pdecode_from(s, i)[0] == 0u8);
        assert(pdecode_from(s, i).contains(0u8));
    } else if s[i] == 0x25 && i + 2 < s.len() && spec_is_hex_digit(s[i + 1]) && spec_is_hex_digit(
        s[i + 2],
    ) {
        assert(m >= i + 3);
        lemma_pdecode_keeps_nul(s, i + 3, m);
        let rest = pdecode_from(s, i + 3);
        let w = choose|w: int| 0 <= w < rest.len() && rest[w] == 0u8;
        assert(pdecode_from(s, i)[1 + w] == 0u8);
        assert(pdecode_from(s, i).contains(0u8));
    } else {
        lemma_pdecode_keeps_nul(s, i + 1, m);
        let rest = pdecode_from(s, i + 1);
        let w = choose|w: int| 0 <= w < rest.len() && rest[w] == 0u8;
        assert(pdecode_from(s, i)[1 + w] == 0u8);
        assert(pdecode_from(s, i).contains(0u8));
    }
}

/// Every byte the encoder emits is an unreserved byte, `+`, `%` or an
/// upper-case hexadecimal digit: in particular never `&`, `=` or NUL, so
/// an encoded field cannot disturb the structure of a form body.
pub proof fn lemma_pencode_alphabet(s: Seq<u8>, i: int, j: int)
    requires
        0 <= i,
        0 <= j < pencode_from(s, i).len(),
    ensures
        pencode_from(s, i)[j] != 0x26,
        pencode_from(s, i)[j] != 0x3d,
        pencode_from(s, i)[j] != 0x00,
    decreases s.len() - i,
{
    if i < s.len() {
        let head = pencode_byte(s[i]);
        if j < head.len() {
            if !is_unreserved_byte(s[i]) && s[i] != 0x20 {
                lemma_hex_digit_upper(s[i] / 16);
                lemma_hex_digit_upper(s[i] % 16);
            }
        } else {
            lemma_pencode_alphabet(s, i + 1, j - head.len());
            assert(pencode_from(s, i)[j] == pencode_from(s, i + 1)[j - head.len()]);
        }
    }
}

} // verus!
