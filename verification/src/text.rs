//! The UTF-8 and encoding stage.
//!
//! Raw key/value byte pairs survive this stage only when both members are
//! valid UTF-8 and contain no NUL byte. A NUL byte is treated as a
//! structural attack signal and rejected even inside otherwise valid
//! UTF-8. The stage fails fast: the first failing pair aborts the whole
//! pipeline.

use crate::form::pairs_view;
use crate::percent::{lemma_percent_round_trip, pdecode, pe_invalid, pencode};
use vstd::prelude::*;
use vstd::utf8::{decode_utf8, encode_utf8, valid_utf8};

verus! {

/// Law: percent-encoding the UTF-8 bytes of any text and then decoding
/// them reproduces the text exactly, for ASCII and multi-byte input
/// alike, and the encoded form never holds a malformed escape.
pub proof fn lemma_text_round_trip(s: Seq<char>)
    ensures
        decode_utf8(pdecode(pencode(encode_utf8(s)))) == s,
        !pe_invalid(pencode(encode_utf8(s))),
{
    lemma_percent_round_trip(encode_utf8(s));
    vstd::utf8::encode_utf8_decode_utf8(s);
}

/// Every byte of the UTF-8 encoding of a non-NUL scalar is non-zero:
/// multi-byte encodings use bytes at or above `0x80`, and the one-byte
/// encoding is the scalar itself.
proof fn lemma_scalar_bytes_nonzero(v: u32)
    requires
        vstd::utf8::is_scalar(v),
        v != 0,
    ensures
        forall|j: int|
            0 <= j < vstd::utf8::encode_scalar(v).len() ==> vstd::utf8::encode_scalar(v)[j]
                != 0u8,
{
    let e = vstd::utf8::encode_scalar(v);
    if vstd::utf8::has_width_1_encoding(v) {
        assert((v & 0x7F) as u8 != 0) by (bit_vector)
            requires
                v != 0 && v <= 0x7F,
        ;
        assert(e[0] != 0u8);
    } else {
        let c1 = (v & 0x3F) as u8;
        assert(0x80u8 | c1 != 0) by (bit_vector);
        let c2 = ((v >> 6) & 0x3F) as u8;
        assert(0x80u8 | c2 != 0) by (bit_vector);
        let c3 = ((v >> 12) & 0x3F) as u8;
        assert(0x80u8 | c3 != 0) by (bit_vector);
        let l2 = ((v >> 6) & 0x1F) as u8;
        assert(0xC0u8 | l2 != 0) by (bit_vector);
        let l3 = ((v >> 12) & 0x0F) as u8;
        assert(0xE0u8 | l3 != 0) by (bit_vector);
        let l4 = ((v >> 18) & 0x7) as u8;
        assert(0xF0u8 | l4 != 0) by (bit_vector);
    }
}

/// A text without the NUL character has no NUL byte in its UTF-8
/// encoding: a NUL byte can only be the one-byte encoding of NUL itself.
pub proof fn lemma_no_nul_char_no_nul_byte(s: Seq<char>)
    requires
        forall|i: int| 0 <= i < s.len() ==> s[i] != '\0',
    ensures
        !encode_utf8(s).contains(0u8),
    decreases s.len(),
{
    if s.len() > 0 {
        let c = s[0];
        let v = c as u32;
        let head = vstd::utf8::encode_scalar(v);
        let rest = encode_utf8(s.drop_first());
        vstd::utf8::char_is_scalar(c);
        if v == 0 {
            assert(c == '\0') by {
                vstd::utf8::char_u32_cast(c, 0);
            }
        }
        lemma_scalar_bytes_nonzero(v);
        assert(forall|i: int| 0 <= i < s.drop_first().len() ==> s.drop_first()[i] != '\0');
        lemma_no_nul_char_no_nul_byte(s.drop_first());
        assert forall|j: int| 0 <= j < encode_utf8(s).len() implies encode_utf8(s)[j]
            != 0u8 by {
            if j < head.len() {
                assert(encode_utf8(s)[j] == head[j]);
            } else {
                assert(encode_utf8(s)[j] == rest[j - head.len()]);
                if rest[j - head.len()] == 0u8 {
                    assert(rest.contains(0u8));
                }
            }
        }
        assert(!encode_utf8(s).contains(0u8));
    }
}

/// True when a raw key/value pair survives the UTF-8 stage: both members
/// are valid UTF-8 and free of NUL bytes.
pub open spec fn pair_text_ok(k: Seq<u8>, v: Seq<u8>) -> bool {
    valid_utf8(k) && valid_utf8(v) && !k.contains(0u8) && !v.contains(0u8)
}

/// True when every raw pair survives the UTF-8 stage.
pub open spec fn all_pairs_text_ok(pairs: Seq<(Seq<u8>, Seq<u8>)>) -> bool {
    forall|i: int| 0 <= i < pairs.len() ==> pair_text_ok(pairs[i].0, pairs[i].1)
}

/// The text forms of raw pairs: each member decoded from UTF-8.
pub open spec fn texts_of(pairs: Seq<(Seq<u8>, Seq<u8>)>) -> Seq<(Seq<char>, Seq<char>)> {
    pairs.map_values(|p: (Seq<u8>, Seq<u8>)| (decode_utf8(p.0), decode_utf8(p.1)))
}

/// The character sequences held by a vector of text pairs.
pub open spec fn texts_view(v: Seq<(String, String)>) -> Seq<(Seq<char>, Seq<char>)> {
    v.map_values(|p: (String, String)| (p.0@, p.1@))
}

/// Relies on `core::str::from_utf8`: it returns `Ok` exactly when the
/// bytes are valid UTF-8, and then the characters of the returned string
/// are their decoding.
#[verifier::external_body]
fn bytes_to_string(b: &[u8]) -> (r: Option<String>)
    ensures
        r is Some <==> valid_utf8(b@),
        r matches Some(s) ==> s@ == decode_utf8(b@),
{
    match core::str::from_utf8(b) {
        Ok(s) => Some(s.to_owned()),
        Err(_) => None,
    }
}

/// Reports whether the buffer contains a NUL byte.
fn contains_nul(b: &[u8]) -> (r: bool)
    ensures
        r == b@.contains(0u8),
{
    let n = b.len();
    let mut i: usize = 0;
    while i < n
        invariant
            n == b@.len(),
            i <= n,
            forall|k: int| 0 <= k < i ==> b@[k] != 0u8,
        decreases n - i,
    {
        if b[i] == 0 {
            proof {
                assert(b@[i as int] == 0u8);
            }
            return true;
        }
        i = i + 1;
    }
    proof {
        assert(!b@.contains(0u8));
    }
    false
}

/// Converts one decoded raw pair into text, rejecting NUL bytes and
/// invalid UTF-8.
pub fn to_text_pair(k: &Vec<u8>, v: &Vec<u8>) -> (r: Option<(String, String)>)
    ensures
        r is Some <==> pair_text_ok(k@, v@),
        r matches Some(t) ==> t.0@ == decode_utf8(k@) && t.1@ == decode_utf8(v@),
{
    if contains_nul(k.as_slice()) || contains_nul(v.as_slice()) {
        return None;
    }
    let ks = match bytes_to_string(k.as_slice()) {
        Some(s) => s,
        None => {
            return None;
        },
    };
    let vs = match bytes_to_string(v.as_slice()) {
        Some(s) => s,
        None => {
            return None;
        },
    };
    Some((ks, vs))
}

/// Converts every decoded raw pair into text, or reports that some pair
/// is not clean UTF-8. The first failing pair aborts the conversion.
pub fn to_text_pairs(pairs: &Vec<(Vec<u8>, Vec<u8>)>) -> (r: Option<Vec<(String, String)>>)
    ensures
        r is Some <==> all_pairs_text_ok(pairs_view(pairs@)),
        r matches Some(t) ==> texts_view(t@) == texts_of(pairs_view(pairs@)),
{
    let ghost ps = pairs_view(pairs@);
    let n = pairs.len();
    let mut out: Vec<(String, String)> = Vec::new();
    let mut i: usize = 0;
    while i < n
        invariant
            n == pairs@.len(),
            ps == pairs_view(pairs@),
            i <= n,
            forall|k: int| 0 <= k < i ==> pair_text_ok(ps[k].0, ps[k].1),
            texts_view(out@) =~= texts_of(ps.take(i as int)),
        decreases n - i,
    {
        let ghost prev = out@;
        let pr = &pairs[i];
        match to_text_pair(&pr.0, &pr.1) {
            Some(t) => {
                out.push(t);
                proof {
                    assert(texts_view(out@) =~= texts_of(ps.take(i as int)).push(
                        (decode_utf8(ps[i as int].0), decode_utf8(ps[i as int].1)),
                    ));
                    assert(texts_of(ps.take(i + 1)) =~= texts_of(ps.take(i as int)).push(
                        (decode_utf8(ps[i as int].0), decode_utf8(ps[i as int].1)),
                    ));
                }
            },
            None => {
                proof {
                    assert(!pair_text_ok(ps[i as int].0, ps[i as int].1));
                }
                return None;
            },
        }
        i = i + 1;
    }
    proof {
        assert(ps.take(n as int) =~= ps);
    }
    Some(out)
}

} // verus!
