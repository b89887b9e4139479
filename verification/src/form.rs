//! Structural parsing of a decoded form body into raw key/value pairs.
//!
//! The body is split on `&`; empty segments between consecutive `&` are
//! skipped. Within a segment the first `=` separates key from value; a
//! segment without `=` is a key with an empty value. Percent-decoding is
//! applied independently to the key part and the value part, so a literal
//! `=` or `&` can appear pre-encoded inside either.

use crate::percent::{pdecode, percent_decode_bytes};
use vstd::prelude::*;
use vstd::slice::slice_subrange;

verus! {

/// First index of byte `b` in `s` within `[i, e)`, or `e` when there is none.
pub open spec fn next_byte(s: Seq<u8>, i: int, e: int, b: u8) -> int
    decreases e - i when i <= e
{
    if i >= e {
        e
    } else if s[i] == b {
        i
    } else {
        next_byte(s, i + 1, e, b)
    }
}

/// The first occurrence returned by [`next_byte`] lies in `[i, e]`, nothing
/// before it is `b`, and it points at `b` unless it is `e`.
pub proof fn lemma_next_byte(s: Seq<u8>, i: int, e: int, b: u8)
    requires
        0 <= i <= e,
    ensures
        i <= next_byte(s, i, e, b) <= e,
        forall|k: int| i <= k < next_byte(s, i, e, b) ==> s[k] != b,
        next_byte(s, i, e, b) < e ==> s[next_byte(s, i, e, b)] == b,
    decreases e - i,
{
    if i < e && s[i] != b {
        lemma_next_byte(s, i + 1, e, b);
    }
}

/// When everything in `[i, j)` differs from `b`, and `j` either holds
/// `b` or is the end of the range, the first occurrence is exactly `j`.
pub proof fn lemma_next_byte_at(s: Seq<u8>, i: int, e: int, b: u8, j: int)
    requires
        0 <= i <= j <= e,
        forall|k: int| i <= k < j ==> s[k] != b,
        j < e ==> 0 <= j < s.len() && s[j] == b,
    ensures
        next_byte(s, i, e, b) == j,
{
    lemma_next_byte(s, i, e, b);
    let m = next_byte(s, i, e, b);
    if m < j {
        assert(s[m] == b);
        assert(s[m] != b);
    }
    if j < m {
        assert(s[j] != b);
        assert(s[j] == b);
    }
}

/// The raw pair produced by the segment `s[p..e]`: key and value are the
/// percent-decodings of the parts before and after the first `=`, or the
/// whole segment with an empty value when there is no `=`.
pub open spec fn seg_pair(s: Seq<u8>, p: int, e: int) -> (Seq<u8>, Seq<u8>) {
    let j = next_byte(s, p, e, 0x3d);
    if j < e {
        (pdecode(s.subrange(p, j)), pdecode(s.subrange(j + 1, e)))
    } else {
        (pdecode(s.subrange(p, e)), Seq::empty())
    }
}

/// The raw pairs produced from position `p` onward: one pair for each
/// non-empty segment between `&` separators.
pub open spec fn pairs_from(s: Seq<u8>, p: int) -> Seq<(Seq<u8>, Seq<u8>)>
    decreases s.len() - p + 1 when 0 <= p via pairs_from_decreases
{
    if p >= s.len() {
        Seq::empty()
    } else {
        let e = next_byte(s, p, s.len() as int, 0x26);
        if e == p {
            pairs_from(s, p + 1)
        } else {
            seq![seg_pair(s, p, e)] + pairs_from(s, e + 1)
        }
    }
}

#[via_fn]
proof fn pairs_from_decreases(s: Seq<u8>, p: int) {
    if 0 <= p < s.len() {
        lemma_next_byte(s, p, s.len() as int, 0x26);
    }
}

/// All raw pairs of the decoded body `s`.
pub open spec fn form_pairs(s: Seq<u8>) -> Seq<(Seq<u8>, Seq<u8>)> {
    pairs_from(s, 0)
}

/// The byte sequences held by a vector of raw pairs.
pub open spec fn pairs_view(v: Seq<(Vec<u8>, Vec<u8>)>) -> Seq<(Seq<u8>, Seq<u8>)> {
    v.map_values(|p: (Vec<u8>, Vec<u8>)| (p.0@, p.1@))
}

/// Splits a decoded body into raw key/value pairs, decoding each part.
pub fn parse_raw_form(data: &[u8]) -> (out: Vec<(Vec<u8>, Vec<u8>)>)
    requires
        data@.len() < usize::MAX,
    ensures
        pairs_view(out@) == form_pairs(data@),
{
    let ghost s = data@;
    let n = data.len();
    let mut out: Vec<(Vec<u8>, Vec<u8>)> = Vec::new();
    let mut p: usize = 0;
    while p < n
        invariant
            n == s.len(),
            s == data@,
            n < usize::MAX,
            p <= n + 1,
            pairs_view(out@) + pairs_from(s, p as int) == form_pairs(s),
        decreases n + 1 - p,
    {
        let ghost p0 = p as int;
        // find the end of the current segment
        let mut e: usize = p;
        while e < n && data[e] != 0x26
            invariant
                n == s.len(),
                s == data@,
                p <= e <= n,
                next_byte(s, p as int, n as int, 0x26) == next_byte(s, e as int, n as int, 0x26),
            decreases n - e,
        {
            e = e + 1;
        }
        proof {
            lemma_next_byte(s, p0, n as int, 0x26);
            assert(next_byte(s, p0, n as int, 0x26) == e as int);
        }
        if e == p {
            p = p + 1;
        } else {
            let ghost prev = pairs_view(out@);
            // find the first `=` inside the segment
            let mut j: usize = p;
            while j < e && data[j] != 0x3d
                invariant
                    n == s.len(),
                    s == data@,
                    p <= j <= e <= n,
                    next_byte(s, p as int, e as int, 0x3d) == next_byte(
                        s,
                        j as int,
                        e as int,
                        0x3d,
                    ),
                decreases e - j,
            {
                j = j + 1;
            }
            proof {
                lemma_next_byte(s, p0, e as int, 0x3d);
                assert(next_byte(s, p0, e as int, 0x3d) == j as int);
            }
            let pair: (Vec<u8>, Vec<u8>) = if j < e {
                let key = percent_decode_bytes(slice_subrange(data, p, j));
                let val = percent_decode_bytes(slice_subrange(data, j + 1, e));
                (key, val)
            } else {
                let key = percent_decode_bytes(slice_subrange(data, p, e));
                (key, Vec::new())
            };
            proof {
                assert((pair.0@, pair.1@) == seg_pair(s, p0, e as int));
            }
            out.push(pair);
            p = e + 1;
            proof {
                assert(pairs_view(out@) =~= prev + seq![seg_pair(s, p0, e as int)]);
                assert(pairs_from(s, p0) == seq![seg_pair(s, p0, e as int)] + pairs_from(
                    s,
                    p as int,
                ));
                assert((prev + seq![seg_pair(s, p0, e as int)]) + pairs_from(s, p as int) =~= prev
                    + (seq![seg_pair(s, p0, e as int)] + pairs_from(s, p as int)));
            }
        }
    }
    proof {
        assert(pairs_view(out@) + Seq::<(Seq<u8>, Seq<u8>)>::empty() =~= pairs_view(out@));
    }
    out
}

/// True when either member of a raw pair holds a NUL byte.
pub open spec fn pair_has_nul(pr: (Seq<u8>, Seq<u8>)) -> bool {
    pr.0.contains(0u8) || pr.1.contains(0u8)
}

/// A NUL byte anywhere in the body from position `p` on lands in a
/// parsed field: NUL is neither a separator nor a hex digit, so the
/// splitter keeps it inside some segment and decoding keeps it in the
/// pair.
pub proof fn lemma_nul_reaches_pair(s: Seq<u8>, p: int, k: int)
    requires
        0 <= p <= k < s.len(),
        s[k] == 0,
    ensures
        exists|i: int|
            0 <= i < pairs_from(s, p).len() && #[trigger] pair_has_nul(pairs_from(s, p)[i]),
    decreases s.len() - p + 1,
{
    let n = s.len() as int;
    lemma_next_byte(s, p, n, 0x26);
    let e = next_byte(s, p, n, 0x26);
    if e == p {
        lemma_nul_reaches_pair(s, p + 1, k);
        let i1 = choose|i: int|
            0 <= i < pairs_from(s, p + 1).len() && #[trigger] pair_has_nul(pairs_from(s, p + 1)[i]);
        assert(pairs_from(s, p) == pairs_from(s, p + 1));
        assert(0 <= i1 < pairs_from(s, p).len());
        assert(pair_has_nul(pairs_from(s, p)[i1]));
            } else {
        let pr = seg_pair(s, p, e);
        let rest = pairs_from(s, e + 1);
        assert(pairs_from(s, p) == seq![pr] + rest);
        if k < e {
            lemma_next_byte(s, p, e, 0x3d);
            let j = next_byte(s, p, e, 0x3d);
            if j < e {
                if k < j {
                    let part = s.subrange(p, j);
                    assert(part[k - p] == 0u8);
                    crate::percent::lemma_pdecode_keeps_nul(part, 0, k - p);
                    assert(pr.0.contains(0u8));
                } else {
                    assert(k != j);
                    let part = s.subrange(j + 1, e);
                    assert(part[k - j - 1] == 0u8);
                    crate::percent::lemma_pdecode_keeps_nul(part, 0, k - j - 1);
                    assert(pr.1.contains(0u8));
                }
            } else {
                let part = s.subrange(p, e);
                assert(part[k - p] == 0u8);
                crate::percent::lemma_pdecode_keeps_nul(part, 0, k - p);
                assert(pr.0.contains(0u8));
            }
            assert(pairs_from(s, p)[0] == pr);
            assert(0 < pairs_from(s, p).len());
            assert(pair_has_nul(pairs_from(s, p)[0]));
        } else {
            assert(k != e);
            lemma_nul_reaches_pair(s, e + 1, k);
            let i0 = choose|i: int|
                0 <= i < pairs_from(s, e + 1).len() && #[trigger] pair_has_nul(
                    pairs_from(s, e + 1)[i],
                );
            assert(0 <= i0 + 1 < pairs_from(s, p).len());
            assert(pairs_from(s, p)[i0 + 1] == rest[i0]);
            assert(pair_has_nul(pairs_from(s, p)[i0 + 1]));
        }
    }
}

/// The value of the last pair whose key is `key`, or `None` when no pair
/// has that key: the documented duplicate-key policy is that the last
/// value wins.
pub open spec fn lookup_raw(pairs: Seq<(Seq<u8>, Seq<u8>)>, key: Seq<u8>) -> Option<Seq<u8>>
    decreases pairs.len(),
{
    if pairs.len() == 0 {
        None
    } else if pairs.last().0 == key {
        Some(pairs.last().1)
    } else {
        lookup_raw(pairs.drop_last(), key)
    }
}

} // verus!
