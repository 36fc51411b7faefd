//! Two-bit codes for nucleotides and the packing of a window of bases into
//! one `u64`, most significant base first.
use vstd::prelude::*;

use crate::pow::{lemma_pow4_31, lemma_pow4_32, lemma_pow4_monotone, pow4};

verus! {

/// The longest window that fits in 64 bits at two bits per base.
pub const MAX_K: usize = 32;

/// ASCII upper case of a byte; every other byte is kept.
pub open spec fn upper(b: u8) -> u8 {
    if 97 <= b && b <= 122 {
        (b - 32) as u8
    } else {
        b
    }
}

/// The upper case of every byte of `s`.
pub open spec fn upper_seq(s: Seq<u8>) -> Seq<u8> {
    s.map_values(|b: u8| upper(b))
}

/// The code of a base, case-insensitively: A, C, G, T are 0, 1, 2, 3.
pub open spec fn base_code(b: u8) -> Option<u64> {
    let u = upper(b);
    if u == 65 {
        Some(0)
    } else if u == 67 {
        Some(1)
    } else if u == 71 {
        Some(2)
    } else if u == 84 {
        Some(3)
    } else {
        None
    }
}

/// The upper-case base that a two-bit code stands for.
pub open spec fn code_base(c: nat) -> u8 {
    if c == 0 {
        65
    } else if c == 1 {
        67
    } else if c == 2 {
        71
    } else {
        84
    }
}

/// Every byte of `s` is one of A, C, G, T in either case.
pub open spec fn all_bases(s: Seq<u8>) -> bool {
    forall|i: int| 0 <= i < s.len() ==> (#[trigger] base_code(s[i])).is_some()
}

/// A window that can be encoded: at most 32 bases, all of them A, C, G, T.
pub open spec fn encodable(s: Seq<u8>) -> bool {
    s.len() <= MAX_K && all_bases(s)
}

/// The packed value of a window of bases: two bits per base, the first base
/// in the most significant place.
pub open spec fn encode(s: Seq<u8>) -> nat
    decreases s.len(),
{
    if s.len() == 0 {
        0
    } else {
        encode(s.drop_last()) * 4 + base_code(s.last()).unwrap() as nat
    }
}

/// The `k` bases that the packed value `code` holds, the most significant first.
pub open spec fn decode(code: nat, k: nat) -> Seq<u8>
    decreases k,
{
    if k == 0 {
        Seq::empty()
    } else {
        decode(code / 4, (k - 1) as nat).push(code_base(code % 4))
    }
}

/// Maps a nucleotide to its two-bit code, ignoring case; `None` for any byte
/// other than A, C, G, T.
pub fn nucleotide_to_bits(n: u8) -> (r: Option<u64>)
    ensures
        r == base_code(n),
        r matches Some(c) ==> c < 4,
{
    let u: u8 = if 97 <= n && n <= 122 {
        n - 32
    } else {
        n
    };
    match u {
        65 => Some(0),
        67 => Some(1),
        71 => Some(2),
        84 => Some(3),
        _ => None,
    }
}

proof fn lemma_encode_bound(s: Seq<u8>)
    requires
        all_bases(s),
    ensures
        encode(s) < pow4(s.len()),
    decreases s.len(),
{
    if s.len() > 0 {
        let t = s.drop_last();
        assert(all_bases(t)) by {
            assert forall|i: int| 0 <= i < t.len() implies (#[trigger] base_code(t[i])).is_some() by {
                assert(t[i] == s[i]);
            }
        }
        lemma_encode_bound(t);
        assert(base_code(s[s.len() - 1]).is_some());
        assert(encode(s) < pow4(s.len())) by (nonlinear_arith)
            requires
                encode(s) == encode(t) * 4 + base_code(s.last()).unwrap() as nat,
                base_code(s.last()).unwrap() < 4,
                encode(t) < pow4(t.len()),
                pow4(s.len()) == 4 * pow4(t.len()),
        ;
    }
}

/// Packs a window of bases into a `u64`; `None` where the window is longer
/// than 32 bases or holds a byte other than A, C, G, T.
pub fn kmer_to_u64(sequence: &[u8]) -> (r: Option<u64>)
    ensures
        r.is_some() == encodable(sequence@),
        r matches Some(c) ==> c as nat == encode(sequence@),
{
    if sequence.len() > MAX_K {
        return None;
    }
    let mut encoded: u64 = 0;
    let mut i: usize = 0;
    while i < sequence.len()
        invariant
            i <= sequence.len() <= MAX_K,
            all_bases(sequence@.subrange(0, i as int)),
            encoded as nat == encode(sequence@.subrange(0, i as int)),
            encoded < pow4(i as nat),
        decreases sequence.len() - i,
    {
        let code = match nucleotide_to_bits(sequence[i]) {
            Some(c) => c,
            None => {
                assert(!all_bases(sequence@));
                return None;
            },
        };
        let ghost prev = sequence@.subrange(0, i as int);
        let ghost next = sequence@.subrange(0, i + 1);
        proof {
            lemma_pow4_monotone(i as nat, 31);
            lemma_pow4_31();
            assert(next.drop_last() =~= prev);
            assert(next.last() == sequence@[i as int]);
            assert forall|j: int| 0 <= j < next.len() implies (#[trigger] base_code(next[j])).is_some() by {
                if j < i {
                    assert(next[j] == prev[j]);
                }
            }
            assert((encoded << 2) | code == encoded * 4 + code) by (bit_vector)
                requires
                    encoded < 0x4000_0000_0000_0000,
                    code < 4,
            ;
        }
        encoded = (encoded << 2) | code;
        i += 1;
    }
    assert(sequence@.subrange(0, i as int) =~= sequence@);
    Some(encoded)
}

/// The upper-case base for a two-bit code.
pub fn bits_to_nucleotide(c: u64) -> (r: u8)
    requires
        c < 4,
    ensures
        r == code_base(c as nat),
{
    if c == 0 {
        65
    } else if c == 1 {
        67
    } else if c == 2 {
        71
    } else {
        84
    }
}

/// Unpacks the `k` bases that `code` holds, the most significant first.
pub fn u64_to_kmer(code: u64, k: usize) -> (r: Vec<u8>)
    requires
        k <= MAX_K,
    ensures
        r@ == decode(code as nat, k as nat),
    decreases k,
{
    if k == 0 {
        Vec::new()
    } else {
        let mut v = u64_to_kmer(code / 4, k - 1);
        v.push(bits_to_nucleotide(code % 4));
        v
    }
}

/// Decoding the packed value of an encodable window gives back its bases in
/// upper case: packing loses nothing but the case.
pub proof fn lemma_round_trip(s: Seq<u8>)
    requires
        encodable(s),
    ensures
        decode(encode(s), s.len()) == upper_seq(s),
    decreases s.len(),
{
    if s.len() == 0 {
        assert(upper_seq(s) =~= Seq::<u8>::empty());
    } else {
        let t = s.drop_last();
        assert(encodable(t)) by {
            assert forall|i: int| 0 <= i < t.len() implies (#[trigger] base_code(t[i])).is_some() by {
                assert(t[i] == s[i]);
            }
        }
        lemma_round_trip(t);
        let c = base_code(s.last()).unwrap() as nat;
        assert(base_code(s[s.len() - 1]).is_some());
        let e = encode(t);
        assert((e * 4 + c) / 4 == e && (e * 4 + c) % 4 == c) by (nonlinear_arith)
            requires
                c < 4,
        ;
        assert(code_base(c) == upper(s.last()));
        assert(upper_seq(s) =~= upper_seq(t).push(upper(s.last())));
    }
}

/// Why a window length is refused.
#[derive(Clone, Copy, Debug, PartialEq, Eq, Structural)]
pub enum KmerSizeError {
    /// A window must hold at least one base.
    Zero,
    /// A window longer than 32 bases does not fit in 64 bits.
    TooLarge,
}

/// Accepts a window length from 1 to 32.
pub fn check_kmer_size(k: usize) -> (r: Result<usize, KmerSizeError>)
    ensures
        r == Ok::<usize, KmerSizeError>(k) <==> 1 <= k <= MAX_K,
        r == Err::<usize, KmerSizeError>(KmerSizeError::TooLarge) <==> k > MAX_K,
        r == Err::<usize, KmerSizeError>(KmerSizeError::Zero) <==> k == 0,
{
    if k > MAX_K {
        Err(KmerSizeError::TooLarge)
    } else if k == 0 {
        Err(KmerSizeError::Zero)
    } else {
        Ok(k)
    }
}

/// The packed value of an encodable window fits in 64 bits.
pub proof fn lemma_encode_fits(s: Seq<u8>)
    requires
        encodable(s),
    ensures
        encode(s) <= u64::MAX,
{
    lemma_encode_bound(s);
    lemma_pow4_monotone(s.len(), 32);
    lemma_pow4_32();
}

/// Windows with the same bases, case aside, pack to the same value.
pub proof fn lemma_encode_ignores_case(a: Seq<u8>, b: Seq<u8>)
    requires
        all_bases(a),
        all_bases(b),
        upper_seq(a) == upper_seq(b),
    ensures
        encode(a) == encode(b),
    decreases a.len(),
{
    assert(a.len() == upper_seq(a).len());
    if a.len() > 0 {
        let (ta, tb) = (a.drop_last(), b.drop_last());
        assert(upper_seq(ta) =~= upper_seq(a).drop_last());
        assert(upper_seq(tb) =~= upper_seq(b).drop_last());
        assert(all_bases(ta)) by {
            assert forall|i: int| 0 <= i < ta.len() implies (#[trigger] base_code(ta[i])).is_some() by {
                assert(ta[i] == a[i]);
            }
        }
        assert(all_bases(tb)) by {
            assert forall|i: int| 0 <= i < tb.len() implies (#[trigger] base_code(tb[i])).is_some() by {
                assert(tb[i] == b[i]);
            }
        }
        lemma_encode_ignores_case(ta, tb);
        assert(upper_seq(a)[a.len() - 1] == upper_seq(b)[b.len() - 1]);
    }
}

/// Encodable windows of one length that pack to the same value hold the same
/// bases, case aside.
pub proof fn lemma_encode_injective(a: Seq<u8>, b: Seq<u8>)
    requires
        encodable(a),
        encodable(b),
        a.len() == b.len(),
        encode(a) == encode(b),
    ensures
        upper_seq(a) == upper_seq(b),
{
    lemma_round_trip(a);
    lemma_round_trip(b);
}

} // verus!
