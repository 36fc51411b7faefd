//! The aggregate over many sequences: three counters added up and the union
//! of the per-sequence k-mer sets, merged once per sequence or per work unit.
use vstd::prelude::*;

use dashmap::DashSet;

use crate::kmer_set::{
    MAX_RESERVE, insert_kmer, kmer_contents, kmer_set_len, kmer_set_values, kmer_set_with_capacity,
};
use crate::window::{
    SequenceScan, Tally, WindowCounts, count_windows, lemma_sequence_tally_bounded, scan_sequence,
    sequence_tally, tally_bounded,
};

verus! {

/// Two tallies taken together: counters add up, k-mer sets unite.
pub open spec fn combine(a: Tally, b: Tally) -> Tally {
    Tally {
        nucleotides: a.nucleotides + b.nucleotides,
        windows: a.windows + b.windows,
        valid: a.valid + b.valid,
        kmers: a.kmers.union(b.kmers),
    }
}

/// The tally of nothing.
pub open spec fn empty_tally() -> Tally {
    Tally { nucleotides: 0, windows: 0, valid: 0, kmers: Set::empty() }
}

/// The tally of a list of sequences, each taken whole.
pub open spec fn records_tally(rs: Seq<Seq<u8>>, k: nat) -> Tally
    decreases rs.len(),
{
    if rs.len() == 0 {
        empty_tally()
    } else {
        combine(records_tally(rs.drop_last(), k), sequence_tally(rs.last(), k))
    }
}

/// The total length of a list of sequences.
pub open spec fn total_len(rs: Seq<Seq<u8>>) -> nat
    decreases rs.len(),
{
    if rs.len() == 0 {
        0
    } else {
        total_len(rs.drop_last()) + rs.last().len()
    }
}

/// The contents of a list of byte vectors.
pub open spec fn records_view(rs: Seq<Vec<u8>>) -> Seq<Seq<u8>> {
    rs.map_values(|r: Vec<u8>| r@)
}

impl WindowCounts {
    /// The counters with nothing counted.
    pub fn new() -> (r: WindowCounts)
        ensures
            r.nucleotides == 0 && r.windows == 0 && r.valid == 0,
    {
        WindowCounts { nucleotides: 0, windows: 0, valid: 0 }
    }

    /// Adds the counters of `other` to these.
    pub fn add(&mut self, other: WindowCounts)
        requires
            old(self).nucleotides + other.nucleotides <= usize::MAX,
            old(self).windows + other.windows <= usize::MAX,
            old(self).valid + other.valid <= usize::MAX,
        ensures
            final(self).nucleotides == old(self).nucleotides + other.nucleotides,
            final(self).windows == old(self).windows + other.windows,
            final(self).valid == old(self).valid + other.valid,
    {
        self.nucleotides = self.nucleotides + other.nucleotides;
        self.windows = self.windows + other.windows;
        self.valid = self.valid + other.valid;
    }

    /// The report of a count-only run: no distinct count.
    pub fn report(&self) -> (r: Report)
        ensures
            r.nucleotides == self.nucleotides,
            r.windows == self.windows,
            r.valid == self.valid,
            r.distinct.is_none(),
    {
        Report {
            nucleotides: self.nucleotides,
            windows: self.windows,
            valid: self.valid,
            distinct: None,
        }
    }
}

/// Taking two tallies together keeps the bounds.
pub proof fn lemma_combine_bounded(a: Tally, b: Tally)
    requires
        tally_bounded(a),
        tally_bounded(b),
    ensures
        tally_bounded(combine(a, b)),
{
    vstd::set_lib::lemma_len_union(a.kmers, b.kmers);
}

/// The aggregate of a run: the counters and the shared set of k-mers.
pub struct KmerCounter {
    pub counts: WindowCounts,
    pub kmers: DashSet<u64>,
}

impl View for KmerCounter {
    type V = Tally;

    open spec fn view(&self) -> Tally {
        Tally {
            nucleotides: self.counts.nucleotides as nat,
            windows: self.counts.windows as nat,
            valid: self.counts.valid as nat,
            kmers: kmer_contents(self.kmers),
        }
    }
}

/// What a run reports: the three counters, and the number of distinct
/// k-mers unless only counting was asked for.
#[derive(Clone, Copy, Debug, PartialEq, Eq, Structural)]
pub struct Report {
    pub nucleotides: usize,
    pub windows: usize,
    pub valid: usize,
    pub distinct: Option<usize>,
}

impl KmerCounter {
    /// Every tally that the counter holds meets the bounds.
    pub open spec fn wf(&self) -> bool {
        tally_bounded(self@)
    }

    /// An empty counter whose set is made with room for `reserve` k-mers.
    pub fn new(reserve: usize) -> (r: KmerCounter)
        requires
            reserve <= MAX_RESERVE,
        ensures
            r.wf(),
            r@ == empty_tally(),
    {
        KmerCounter { counts: WindowCounts::new(), kmers: kmer_set_with_capacity(reserve) }
    }

    /// Adds the counters of one scanned sequence and merges its k-mers into
    /// the shared set.
    pub fn merge(&mut self, scan: SequenceScan)
        requires
            old(self).wf(),
            tally_bounded(scan@),
            old(self).counts.nucleotides + scan.counts.nucleotides <= usize::MAX,
        ensures
            final(self).wf(),
            final(self)@ == combine(old(self)@, scan@),
    {
        let ghost before = kmer_contents(self.kmers);
        let values = kmer_set_values(&scan.kmers);
        let mut i: usize = 0;
        while i < values.len()
            invariant
                i <= values@.len(),
                kmer_contents(self.kmers) == before.union(values@.subrange(0, i as int).to_set()),
                self.counts == old(self).counts,
                before == kmer_contents(old(self).kmers),
            decreases values@.len() - i,
        {
            let ghost prefix = values@.subrange(0, i as int);
            insert_kmer(&mut self.kmers, values[i]);
            proof {
                let next = values@.subrange(0, i + 1);
                assert(next =~= prefix.push(values@[i as int]));
                assert(next.to_set() =~= prefix.to_set().insert(values@[i as int])) by {
                    prefix.lemma_push_to_set_commute(values@[i as int]);
                }
                assert(kmer_contents(self.kmers) =~= before.union(next.to_set()));
            }
            i += 1;
        }
        assert(values@.subrange(0, values@.len() as int) =~= values@);
        self.counts.add(scan.counts);
        proof {
            lemma_combine_bounded(old(self)@, scan@);
        }
    }

    /// Adds the counters of another counter and merges its k-mers into the
    /// shared set.
    pub fn absorb(&mut self, other: KmerCounter)
        requires
            old(self).wf(),
            other.wf(),
            old(self).counts.nucleotides + other.counts.nucleotides <= usize::MAX,
        ensures
            final(self).wf(),
            final(self)@ == combine(old(self)@, other@),
    {
        self.merge(SequenceScan { counts: other.counts, kmers: other.kmers });
    }

    /// The number of distinct k-mers merged so far.
    pub fn distinct_kmers(&self) -> (r: usize)
        ensures
            r == self@.kmers.len(),
    {
        kmer_set_len(&self.kmers)
    }

    /// The report of a full run.
    pub fn report(&self) -> (r: Report)
        ensures
            r.nucleotides == self.counts.nucleotides,
            r.windows == self.counts.windows,
            r.valid == self.counts.valid,
            r.distinct == Some(self@.kmers.len() as usize),
    {
        Report {
            nucleotides: self.counts.nucleotides,
            windows: self.counts.windows,
            valid: self.counts.valid,
            distinct: Some(self.distinct_kmers()),
        }
    }
}

/// A prefix of a list of sequences is no longer in total than the list.
pub proof fn lemma_total_len_prefix(rs: Seq<Seq<u8>>, i: int)
    requires
        0 <= i <= rs.len(),
    ensures
        total_len(rs.subrange(0, i)) <= total_len(rs),
    decreases rs.len() - i,
{
    if i < rs.len() {
        assert(rs.subrange(0, i + 1).drop_last() =~= rs.subrange(0, i));
        lemma_total_len_prefix(rs, i + 1);
    } else {
        assert(rs.subrange(0, i) =~= rs);
    }
}

/// Total lengths add up over a concatenation.
pub proof fn lemma_total_len_concat(xs: Seq<Seq<u8>>, ys: Seq<Seq<u8>>)
    ensures
        total_len(xs + ys) == total_len(xs) + total_len(ys),
    decreases ys.len(),
{
    if ys.len() == 0 {
        assert(xs + ys =~= xs);
    } else {
        assert((xs + ys).drop_last() =~= xs + ys.drop_last());
        lemma_total_len_concat(xs, ys.drop_last());
    }
}

/// A run of consecutive sequences is no longer in total than the list.
pub proof fn lemma_total_len_range(rs: Seq<Seq<u8>>, start: int, end: int)
    requires
        0 <= start <= end <= rs.len(),
    ensures
        total_len(rs.subrange(start, end)) <= total_len(rs),
        total_len(rs.subrange(0, end)) == total_len(rs.subrange(0, start)) + total_len(
            rs.subrange(start, end),
        ),
{
    assert(rs.subrange(0, end) =~= rs.subrange(0, start) + rs.subrange(start, end));
    lemma_total_len_concat(rs.subrange(0, start), rs.subrange(start, end));
    lemma_total_len_prefix(rs, end);
}

/// Scans the sequences from `start` up to `end` in turn and merges each into
/// one counter of their own, whose set is made with room for `reserve` k-mers.
pub fn count_range(records: &Vec<Vec<u8>>, start: usize, end: usize, k: usize, reserve: usize) -> (r:
    KmerCounter)
    requires
        k >= 1,
        reserve <= MAX_RESERVE,
        start <= end <= records@.len(),
        total_len(records_view(records@).subrange(start as int, end as int)) <= usize::MAX,
    ensures
        r.wf(),
        r@ == records_tally(records_view(records@).subrange(start as int, end as int), k as nat),
{
    let ghost rs = records_view(records@);
    let ghost unit = rs.subrange(start as int, end as int);
    let mut counter = KmerCounter::new(reserve);
    let mut i: usize = start;
    assert(unit.subrange(0, 0) =~= rs.subrange(start as int, start as int));
    while i < end
        invariant
            start <= i <= end <= records@.len(),
            k >= 1,
            rs == records_view(records@),
            unit == rs.subrange(start as int, end as int),
            total_len(unit) <= usize::MAX,
            counter.wf(),
            counter@ == records_tally(rs.subrange(start as int, i as int), k as nat),
            counter.counts.nucleotides == total_len(rs.subrange(start as int, i as int)),
        decreases end - i,
    {
        let scan = scan_sequence(records[i].as_slice(), k);
        proof {
            let next = rs.subrange(start as int, i + 1);
            assert(next.drop_last() =~= rs.subrange(start as int, i as int));
            assert(next.last() == records@[i as int]@);
            assert(unit.subrange(0, i + 1 - start) =~= next);
            lemma_total_len_prefix(unit, i + 1 - start);
        }
        counter.merge(scan);
        i += 1;
    }
    counter
}

/// Scans every sequence in turn and merges each into one counter whose set
/// is made with room for `reserve` k-mers.
pub fn count_kmers(records: &Vec<Vec<u8>>, k: usize, reserve: usize) -> (r: KmerCounter)
    requires
        k >= 1,
        reserve <= MAX_RESERVE,
        total_len(records_view(records@)) <= usize::MAX,
    ensures
        r.wf(),
        r@ == records_tally(records_view(records@), k as nat),
{
    assert(records_view(records@).subrange(0, records@.len() as int) =~= records_view(records@));
    count_range(records, 0, records.len(), k, reserve)
}

/// The units that split `n` items into consecutive runs of `size`, the last
/// run holding what is left.
pub open spec fn units_cover(units: Seq<(usize, usize)>, n: nat, size: nat) -> bool {
    &&& n == 0 <==> units.len() == 0
    &&& units.len() > 0 ==> units[0].0 == 0 && units.last().1 == n
    &&& forall|u: int|
        0 <= u < units.len() ==> #[trigger] units[u].0 < units[u].1 && units[u].1 <= n
            && units[u].1 - units[u].0 <= size
    &&& forall|u: int|
        0 <= u < units.len() - 1 ==> #[trigger] units[u].1 == units[u + 1].0 && units[u].1
            - units[u].0 == size
}

/// Splits `n` records into work units of `size` records each, the last one
/// holding what is left; each unit is a pair of start and end positions.
pub fn partition_units(n: usize, size: usize) -> (r: Vec<(usize, usize)>)
    requires
        size >= 1,
    ensures
        units_cover(r@, n as nat, size as nat),
{
    let mut units: Vec<(usize, usize)> = Vec::new();
    let mut start: usize = 0;
    while start < n
        invariant
            start <= n,
            size >= 1,
            start == 0 <==> units@.len() == 0,
            units@.len() > 0 ==> units@[0].0 == 0 && units@.last().1 == start,
            forall|u: int|
                0 <= u < units@.len() ==> #[trigger] units@[u].0 < units@[u].1 && units@[u].1
                    <= start && units@[u].1 - units@[u].0 <= size,
            forall|u: int|
                0 <= u < units@.len() - 1 ==> #[trigger] units@[u].1 == units@[u + 1].0
                    && units@[u].1 - units@[u].0 == size,
            units@.len() > 0 && start < n ==> units@.last().1 - units@.last().0 == size,
        decreases n - start,
    {
        let end: usize = if n - start > size {
            start + size
        } else {
            n
        };
        units.push((start, end));
        start = end;
    }
    units
}

/// The nucleotides of a tally of whole sequences are their total length.
pub proof fn lemma_tally_nucleotides(rs: Seq<Seq<u8>>, k: nat)
    ensures
        records_tally(rs, k).nucleotides == total_len(rs),
    decreases rs.len(),
{
    if rs.len() > 0 {
        lemma_tally_nucleotides(rs.drop_last(), k);
    }
}

proof fn lemma_unit_step(rs: Seq<Seq<u8>>, start: int, end: int, k: nat)
    requires
        0 <= start <= end <= rs.len(),
    ensures
        records_tally(rs.subrange(0, end), k) == combine(
            records_tally(rs.subrange(0, start), k),
            records_tally(rs.subrange(start, end), k),
        ),
        total_len(rs.subrange(start, end)) <= total_len(rs),
        total_len(rs.subrange(0, end)) <= total_len(rs),
        total_len(rs.subrange(0, end)) == total_len(rs.subrange(0, start)) + total_len(
            rs.subrange(start, end),
        ),
{
    lemma_total_len_range(rs, start, end);
    lemma_total_len_range(rs, 0, end);
    lemma_records_split(rs.subrange(0, start), rs.subrange(start, end), k);
    assert(rs.subrange(0, start) + rs.subrange(start, end) =~= rs.subrange(0, end));
}

/// Counts the records unit by unit, each unit with a set of its own, and
/// merges the units into one counter whose set is made with room for
/// `reserve` k-mers.
pub fn count_kmers_by_units(records: &Vec<Vec<u8>>, k: usize, reserve: usize, unit_size: usize) -> (r:
    KmerCounter)
    requires
        k >= 1,
        unit_size >= 1,
        reserve <= MAX_RESERVE,
        total_len(records_view(records@)) <= usize::MAX,
    ensures
        r.wf(),
        r@ == records_tally(records_view(records@), k as nat),
{
    let ghost rs = records_view(records@);
    let units = partition_units(records.len(), unit_size);
    let mut counter = KmerCounter::new(reserve);
    let mut u: usize = 0;
    while u < units.len()
        invariant
            u <= units@.len(),
            k >= 1,
            rs == records_view(records@),
            rs.len() == records@.len(),
            total_len(rs) <= usize::MAX,
            units_cover(units@, records@.len() as nat, unit_size as nat),
            counter.wf(),
            u < units@.len() ==> counter@ == records_tally(rs.subrange(0, units@[u as int].0 as int), k as nat),
            u == units@.len() ==> counter@ == records_tally(rs, k as nat),
        decreases units@.len() - u,
    {
        let (start, end) = units[u];
        proof {
            assert(units@[u as int].0 < units@[u as int].1);
            if u + 1 < units@.len() {
                assert(units@[u as int].1 == units@[u + 1].0);
            } else {
                assert(units@[u as int].1 == records@.len());
            }
            lemma_unit_step(rs, start as int, end as int, k as nat);
            lemma_tally_nucleotides(rs.subrange(0, start as int), k as nat);
            lemma_tally_nucleotides(rs.subrange(start as int, end as int), k as nat);
            if u == 0 {
                assert(rs.subrange(0, 0) =~= Seq::<Seq<u8>>::empty());
            }
        }
        let unit = count_range(records, start, end, k, 0);
        counter.absorb(unit);
        proof {
            if u + 1 == units@.len() {
                assert(rs.subrange(0, end as int) =~= rs);
            }
        }
        u += 1;
    }
    proof {
        if units@.len() == 0 {
            assert(rs =~= Seq::<Seq<u8>>::empty());
        }
    }
    counter
}

/// Counts every sequence in turn, with no set of k-mers.
pub fn count_only(records: &Vec<Vec<u8>>, k: usize) -> (r: WindowCounts)
    requires
        k >= 1,
        total_len(records_view(records@)) <= usize::MAX,
    ensures
        r.nucleotides == records_tally(records_view(records@), k as nat).nucleotides,
        r.windows == records_tally(records_view(records@), k as nat).windows,
        r.valid == records_tally(records_view(records@), k as nat).valid,
{
    let ghost rs = records_view(records@);
    let mut counts = WindowCounts::new();
    let mut i: usize = 0;
    while i < records.len()
        invariant
            i <= records@.len(),
            k >= 1,
            rs == records_view(records@),
            total_len(rs) <= usize::MAX,
            tally_bounded(records_tally(rs.subrange(0, i as int), k as nat)),
            counts.nucleotides == records_tally(rs.subrange(0, i as int), k as nat).nucleotides,
            counts.windows == records_tally(rs.subrange(0, i as int), k as nat).windows,
            counts.valid == records_tally(rs.subrange(0, i as int), k as nat).valid,
            counts.nucleotides == total_len(rs.subrange(0, i as int)),
        decreases records@.len() - i,
    {
        let c = count_windows(records[i].as_slice(), k);
        proof {
            let next = rs.subrange(0, i + 1);
            assert(next.drop_last() =~= rs.subrange(0, i as int));
            assert(next.last() == records@[i as int]@);
            lemma_sequence_tally_bounded(records@[i as int]@, k as nat);
            lemma_combine_bounded(
                records_tally(rs.subrange(0, i as int), k as nat),
                sequence_tally(records@[i as int]@, k as nat),
            );
            lemma_total_len_prefix(rs, i + 1);
        }
        counts.add(c);
        i += 1;
    }
    assert(rs.subrange(0, i as int) =~= rs);
    counts
}

/// Taking two tallies together does not depend on their order.
pub proof fn lemma_combine_commutes(a: Tally, b: Tally)
    ensures
        combine(a, b) == combine(b, a),
{
    assert(a.kmers.union(b.kmers) =~= b.kmers.union(a.kmers));
}

/// Taking tallies together does not depend on how they are grouped.
pub proof fn lemma_combine_associates(a: Tally, b: Tally, c: Tally)
    ensures
        combine(combine(a, b), c) == combine(a, combine(b, c)),
{
    assert(a.kmers.union(b.kmers).union(c.kmers) =~= a.kmers.union(b.kmers.union(c.kmers)));
}

/// Merging two scans into a counter gives the same tally in either order:
/// the result of a run does not depend on which worker finishes first.
pub proof fn lemma_merge_order(t: Tally, a: Tally, b: Tally)
    ensures
        combine(combine(t, a), b) == combine(combine(t, b), a),
{
    lemma_combine_associates(t, a, b);
    lemma_combine_associates(t, b, a);
    lemma_combine_commutes(a, b);
}

/// Splitting a list of sequences into two units, tallying each and taking the
/// two tallies together gives the tally of the whole list.
pub proof fn lemma_records_split(xs: Seq<Seq<u8>>, ys: Seq<Seq<u8>>, k: nat)
    ensures
        records_tally(xs + ys, k) == combine(records_tally(xs, k), records_tally(ys, k)),
    decreases ys.len(),
{
    let t = records_tally(xs, k);
    if ys.len() == 0 {
        assert(xs + ys =~= xs);
        assert(t.kmers.union(Set::empty()) =~= t.kmers);
    } else {
        let zs = ys.drop_last();
        assert((xs + ys).drop_last() =~= xs + zs);
        assert((xs + ys).last() == ys.last());
        lemma_records_split(xs, zs, k);
        lemma_combine_associates(t, records_tally(zs, k), sequence_tally(ys.last(), k));
    }
}

} // verus!
