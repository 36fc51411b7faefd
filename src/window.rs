//! Sliding windows over one sequence: how many there are, how many can be
//! encoded, and the set of packed k-mers among them.
use vstd::prelude::*;
use vstd::slice::slice_subrange;

use dashmap::DashSet;

use crate::codec::{
    MAX_K, all_bases, base_code, encodable, encode, kmer_to_u64, lemma_encode_fits,
    lemma_encode_ignores_case, lemma_encode_injective, upper_seq,
};
use crate::kmer_set::{insert_kmer, kmer_contents, new_kmer_set};

verus! {

/// The number of windows of length `k` in a sequence of length `len`.
pub open spec fn window_count(len: nat, k: nat) -> nat {
    if len >= k {
        (len - k + 1) as nat
    } else {
        0
    }
}

/// The window of length `k` that starts at position `i`.
pub open spec fn window(s: Seq<u8>, k: nat, i: int) -> Seq<u8> {
    s.subrange(i, i + k)
}

/// How many of the first `n` windows can be encoded.
pub open spec fn valid_upto(s: Seq<u8>, k: nat, n: nat) -> nat
    decreases n,
{
    if n == 0 {
        0
    } else {
        valid_upto(s, k, (n - 1) as nat) + if encodable(window(s, k, n - 1)) {
            1nat
        } else {
            0nat
        }
    }
}

/// How many windows of length `k` in `s` can be encoded.
pub open spec fn valid_count(s: Seq<u8>, k: nat) -> nat {
    valid_upto(s, k, window_count(s.len(), k))
}

/// The packed values of the encodable windows among the first `n`.
pub open spec fn kmers_upto(s: Seq<u8>, k: nat, n: nat) -> Set<u64>
    decreases n,
{
    if n == 0 {
        Set::empty()
    } else {
        let w = window(s, k, n - 1);
        if encodable(w) {
            kmers_upto(s, k, (n - 1) as nat).insert(encode(w) as u64)
        } else {
            kmers_upto(s, k, (n - 1) as nat)
        }
    }
}

/// The distinct packed k-mers of `s`.
pub open spec fn kmers_of(s: Seq<u8>, k: nat) -> Set<u64> {
    kmers_upto(s, k, window_count(s.len(), k))
}

/// The three counters of one sequence, or of many added up.
#[derive(Clone, Copy, Debug, PartialEq, Eq, Structural)]
pub struct WindowCounts {
    pub nucleotides: usize,
    pub windows: usize,
    pub valid: usize,
}

/// The counters that a sequence `s` gives for windows of length `k`.
pub open spec fn counts_match(c: WindowCounts, s: Seq<u8>, k: nat) -> bool {
    &&& c.nucleotides == s.len()
    &&& c.windows == window_count(s.len(), k)
    &&& c.valid == valid_count(s, k)
}

/// The counters of one sequence together with its distinct k-mers.
pub struct SequenceScan {
    pub counts: WindowCounts,
    pub kmers: DashSet<u64>,
}

/// The set of k-mers so far is finite and no larger than the number of
/// encodable windows so far.
pub proof fn lemma_kmers_upto_len(s: Seq<u8>, k: nat, n: nat)
    ensures
        kmers_upto(s, k, n).finite(),
        kmers_upto(s, k, n).len() <= valid_upto(s, k, n),
        valid_upto(s, k, n) <= n,
    decreases n,
{
    if n > 0 {
        lemma_kmers_upto_len(s, k, (n - 1) as nat);
    }
}

/// What a run has seen: the three counters and the distinct packed k-mers.
pub struct Tally {
    pub nucleotides: nat,
    pub windows: nat,
    pub valid: nat,
    pub kmers: Set<u64>,
}

/// The tally of one sequence for windows of length `k`.
pub open spec fn sequence_tally(s: Seq<u8>, k: nat) -> Tally {
    Tally {
        nucleotides: s.len(),
        windows: window_count(s.len(), k),
        valid: valid_count(s, k),
        kmers: kmers_of(s, k),
    }
}

impl View for SequenceScan {
    type V = Tally;

    open spec fn view(&self) -> Tally {
        Tally {
            nucleotides: self.counts.nucleotides as nat,
            windows: self.counts.windows as nat,
            valid: self.counts.valid as nat,
            kmers: kmer_contents(self.kmers),
        }
    }
}

/// The bounds that every tally of whole sequences meets.
pub open spec fn tally_bounded(t: Tally) -> bool {
    &&& t.kmers.finite()
    &&& t.kmers.len() <= t.valid
    &&& t.valid <= t.windows
    &&& t.windows <= t.nucleotides
}

/// A single sequence's tally meets the bounds.
pub proof fn lemma_sequence_tally_bounded(s: Seq<u8>, k: nat)
    requires
        k >= 1,
    ensures
        tally_bounded(sequence_tally(s, k)),
{
    lemma_kmers_upto_len(s, k, window_count(s.len(), k));
}

/// Counts the nucleotides, the windows of length `k`, and the windows that
/// can be encoded, in one sequence.
pub fn count_windows(seq: &[u8], k: usize) -> (r: WindowCounts)
    requires
        k >= 1,
    ensures
        counts_match(r, seq@, k as nat),
{
    let len = seq.len();
    let n: usize = if len >= k {
        seq.len() - k + 1
    } else {
        0
    };
    let mut valid: usize = 0;
    let mut i: usize = 0;
    while i < n
        invariant
            i <= n,
            n == window_count(seq@.len(), k as nat),
            n > 0 ==> n + k == seq@.len() + 1,
            seq@.len() <= usize::MAX,
            valid == valid_upto(seq@, k as nat, i as nat),
        decreases n - i,
    {
        proof {
            lemma_kmers_upto_len(seq@, k as nat, i as nat);
        }
        let w = slice_subrange(seq, i, i + k);
        assert(w@ == window(seq@, k as nat, i as int));
        if kmer_to_u64(w).is_some() {
            valid += 1;
        }
        i += 1;
    }
    WindowCounts { nucleotides: seq.len(), windows: n, valid }
}

/// Counts one sequence as `count_windows` does, and gathers the distinct
/// packed values of its encodable windows in a set of its own.
pub fn scan_sequence(seq: &[u8], k: usize) -> (r: SequenceScan)
    requires
        k >= 1,
    ensures
        counts_match(r.counts, seq@, k as nat),
        r@ == sequence_tally(seq@, k as nat),
        tally_bounded(r@),
{
    let len = seq.len();
    let n: usize = if len >= k {
        seq.len() - k + 1
    } else {
        0
    };
    let mut kmers = new_kmer_set();
    let mut valid: usize = 0;
    let mut i: usize = 0;
    while i < n
        invariant
            i <= n,
            n == window_count(seq@.len(), k as nat),
            n > 0 ==> n + k == seq@.len() + 1,
            seq@.len() <= usize::MAX,
            valid == valid_upto(seq@, k as nat, i as nat),
            kmer_contents(kmers) == kmers_upto(seq@, k as nat, i as nat),
        decreases n - i,
    {
        proof {
            lemma_kmers_upto_len(seq@, k as nat, i as nat);
        }
        let w = slice_subrange(seq, i, i + k);
        assert(w@ == window(seq@, k as nat, i as int));
        match kmer_to_u64(w) {
            Some(code) => {
                insert_kmer(&mut kmers, code);
                valid += 1;
            },
            None => {},
        }
        i += 1;
    }
    proof {
        lemma_sequence_tally_bounded(seq@, k as nat);
    }
    SequenceScan { counts: WindowCounts { nucleotides: seq.len(), windows: n, valid }, kmers }
}

proof fn lemma_valid_upto_all(s: Seq<u8>, k: nat, n: nat)
    requires
        1 <= k <= MAX_K,
        all_bases(s),
        n <= window_count(s.len(), k),
    ensures
        valid_upto(s, k, n) == n,
    decreases n,
{
    if n > 0 {
        lemma_valid_upto_all(s, k, (n - 1) as nat);
        let w = window(s, k, n - 1);
        assert forall|i: int| 0 <= i < w.len() implies (#[trigger] base_code(w[i])).is_some() by {
            assert(w[i] == s[n - 1 + i]);
        }
    }
}

/// In a sequence of bases only, with `k` from 1 to 32, every window can be
/// encoded: the valid windows are all the windows.
pub proof fn lemma_all_windows_valid(s: Seq<u8>, k: nat)
    requires
        1 <= k <= MAX_K,
        all_bases(s),
    ensures
        valid_count(s, k) == window_count(s.len(), k),
{
    lemma_valid_upto_all(s, k, window_count(s.len(), k));
}

/// Some byte of `w` is not a base.
pub open spec fn holds_non_base(w: Seq<u8>) -> bool {
    exists|j: int| 0 <= j < w.len() && (#[trigger] base_code(w[j])).is_none()
}

proof fn lemma_valid_upto_none(s: Seq<u8>, k: nat, n: nat)
    requires
        n <= window_count(s.len(), k),
        forall|i: int|
            0 <= i < window_count(s.len(), k) ==> #[trigger] holds_non_base(window(s, k, i)),
    ensures
        valid_upto(s, k, n) == 0,
    decreases n,
{
    if n > 0 {
        lemma_valid_upto_none(s, k, (n - 1) as nat);
        let i = n - 1;
        let w = window(s, k, i);
        assert(holds_non_base(w));
        let j = choose|j: int| 0 <= j < w.len() && (#[trigger] base_code(w[j])).is_none();
        assert(!all_bases(w));
    }
}

/// Where every window holds a byte that is no base, no window is valid,
/// though there are windows wherever the sequence is at least `k` long.
pub proof fn lemma_no_window_valid(s: Seq<u8>, k: nat)
    requires
        1 <= k <= s.len(),
        forall|i: int|
            0 <= i < window_count(s.len(), k) ==> #[trigger] holds_non_base(window(s, k, i)),
    ensures
        valid_count(s, k) == 0,
        window_count(s.len(), k) > 0,
{
    lemma_valid_upto_none(s, k, window_count(s.len(), k));
}

/// No two encodable windows among the first `n` hold the same bases, case
/// aside.
pub open spec fn distinct_upto(s: Seq<u8>, k: nat, n: nat) -> bool {
    forall|i: int, j: int|
        #![trigger window(s, k, i), window(s, k, j)]
        0 <= i < j < n && encodable(window(s, k, i)) && encodable(window(s, k, j)) ==> upper_seq(
            window(s, k, i),
        ) != upper_seq(window(s, k, j))
}

proof fn lemma_kmers_upto_member(s: Seq<u8>, k: nat, n: nat, x: u64)
    ensures
        kmers_upto(s, k, n).contains(x) <==> exists|j: int|
            0 <= j < n && encodable(#[trigger] window(s, k, j)) && encode(window(s, k, j)) as u64
                == x,
    decreases n,
{
    if n > 0 {
        lemma_kmers_upto_member(s, k, (n - 1) as nat, x);
        let m = n - 1;
        if kmers_upto(s, k, n).contains(x) && !kmers_upto(s, k, (n - 1) as nat).contains(x) {
            assert(encodable(window(s, k, m)) && encode(window(s, k, m)) as u64 == x);
        }
    }
}

proof fn lemma_distinct_upto(s: Seq<u8>, k: nat, n: nat)
    requires
        n <= window_count(s.len(), k),
    ensures
        kmers_upto(s, k, n).len() == valid_upto(s, k, n) <==> distinct_upto(s, k, n),
    decreases n,
{
    if n > 0 {
        let m = (n - 1) as nat;
        lemma_distinct_upto(s, k, m);
        lemma_kmers_upto_len(s, k, m);
        let wm = window(s, k, m as int);
        if !encodable(wm) {
            assert(distinct_upto(s, k, m) ==> distinct_upto(s, k, n));
        } else {
            let e = encode(wm) as u64;
            lemma_kmers_upto_member(s, k, m, e);
            lemma_encode_fits(wm);
            if kmers_upto(s, k, m).contains(e) {
                let j = choose|j: int|
                    0 <= j < m && encodable(#[trigger] window(s, k, j)) && encode(window(s, k, j))
                        as u64 == e;
                lemma_encode_fits(window(s, k, j));
                lemma_encode_injective(window(s, k, j), wm);
                assert(!distinct_upto(s, k, n));
            } else {
                assert(distinct_upto(s, k, m) ==> distinct_upto(s, k, n)) by {
                    if distinct_upto(s, k, m) {
                        assert forall|i: int, j: int|
                            #![trigger window(s, k, i), window(s, k, j)]
                            0 <= i < j < n && encodable(window(s, k, i)) && encodable(
                                window(s, k, j),
                            ) implies upper_seq(window(s, k, i)) != upper_seq(window(s, k, j)) by {
                            if j == m && upper_seq(window(s, k, i)) == upper_seq(wm) {
                                lemma_encode_ignores_case(window(s, k, i), wm);
                            }
                        }
                    }
                }
            }
        }
    }
}

/// The distinct k-mers of a sequence never outnumber its valid windows, and
/// they are as many exactly when no two valid windows hold the same bases,
/// case aside.
pub proof fn lemma_distinct_vs_valid(s: Seq<u8>, k: nat)
    ensures
        kmers_of(s, k).len() <= valid_count(s, k),
        kmers_of(s, k).len() == valid_count(s, k) <==> distinct_upto(
            s,
            k,
            window_count(s.len(), k),
        ),
{
    lemma_kmers_upto_len(s, k, window_count(s.len(), k));
    lemma_distinct_upto(s, k, window_count(s.len(), k));
}

} // verus!
