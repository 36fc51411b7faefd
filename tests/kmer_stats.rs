use kmer_stats::codec::{
    bits_to_nucleotide, check_kmer_size, kmer_to_u64, nucleotide_to_bits, u64_to_kmer,
    KmerSizeError,
};
use kmer_stats::counter::{
    count_kmers, count_kmers_by_units, count_only, count_range, partition_units, KmerCounter,
    Report,
};
use kmer_stats::fasta::{fasta_sequences, SequenceAssembler};
use kmer_stats::window::{count_windows, scan_sequence};

fn records(list: &[&str]) -> Vec<Vec<u8>> {
    list.iter().map(|s| s.as_bytes().to_vec()).collect()
}

#[test]
fn base_codes() {
    assert_eq!(nucleotide_to_bits(b'A'), Some(0));
    assert_eq!(nucleotide_to_bits(b'C'), Some(1));
    assert_eq!(nucleotide_to_bits(b'G'), Some(2));
    assert_eq!(nucleotide_to_bits(b'T'), Some(3));
    assert_eq!(nucleotide_to_bits(b'g'), Some(2));
    assert_eq!(nucleotide_to_bits(b't'), Some(3));
    assert_eq!(nucleotide_to_bits(b'N'), None);
    assert_eq!(nucleotide_to_bits(b'>'), None);
    assert_eq!(bits_to_nucleotide(1), b'C');
}

#[test]
fn packs_most_significant_first() {
    assert_eq!(kmer_to_u64(b"ACGT"), Some(0b00_01_10_11));
    assert_eq!(kmer_to_u64(b"TA"), Some(0b11_00));
    assert_eq!(kmer_to_u64(b"acgt"), Some(27));
    assert_eq!(kmer_to_u64(b""), Some(0));
    assert_eq!(kmer_to_u64(&[b'T'; 32]), Some(u64::MAX));
}

#[test]
fn refuses_ambiguous_and_long_windows() {
    assert_eq!(kmer_to_u64(b"ACGN"), None);
    assert_eq!(kmer_to_u64(&[b'A'; 33]), None);
}

#[test]
fn decoding_reverses_encoding() {
    for w in ["ACGT", "acgtTTGA", "G", "TTTTTTTTTTTTTTTTTTTTTTTTTTTTTTTT"] {
        let code = kmer_to_u64(w.as_bytes()).unwrap();
        assert_eq!(u64_to_kmer(code, w.len()), w.to_uppercase().into_bytes());
    }
    assert_eq!(u64_to_kmer(27, 4), b"ACGT".to_vec());
    assert_eq!(u64_to_kmer(27, 6), b"AAACGT".to_vec());
}

#[test]
fn kmer_size_is_checked() {
    assert_eq!(check_kmer_size(33), Err(KmerSizeError::TooLarge));
    assert_eq!(check_kmer_size(0), Err(KmerSizeError::Zero));
    assert_eq!(check_kmer_size(32), Ok(32));
    assert_eq!(check_kmer_size(1), Ok(1));
}

#[test]
fn counts_one_sequence() {
    let c = count_windows(b"ACGTACGT", 4);
    assert_eq!((c.nucleotides, c.windows, c.valid), (8, 5, 5));
    let short = count_windows(b"ACG", 4);
    assert_eq!((short.nucleotides, short.windows, short.valid), (3, 0, 0));
    let exact = count_windows(b"ACGT", 4);
    assert_eq!((exact.windows, exact.valid), (1, 1));
}

#[test]
fn scenario_all_valid() {
    let r = count_kmers(&records(&["ACGTACGT"]), 4, 16).report();
    assert_eq!(
        r,
        Report { nucleotides: 8, windows: 5, valid: 5, distinct: Some(4) }
    );
}

#[test]
fn scenario_ambiguous_base() {
    let r = count_kmers(&records(&["ACGNACGT"]), 4, 16).report();
    assert_eq!(r.windows, 5);
    assert_eq!(r.valid, 1);
    assert_eq!(r.distinct, Some(1));
}

#[test]
fn count_only_reports_no_distinct() {
    let recs = records(&["ACGTACGT", "NNNN"]);
    let r = count_only(&recs, 4).report();
    assert_eq!(r, Report { nucleotides: 12, windows: 6, valid: 5, distinct: None });
    assert_eq!(count_only(&Vec::new(), 3).report().distinct, None);
}

#[test]
fn bases_only_means_every_window_valid() {
    for k in [1usize, 3, 7, 32] {
        let seq = b"ACGTTGCAACGTTGCAACGTTGCAACGTTGCAACGTTGCA";
        let c = count_windows(seq, k);
        assert_eq!(c.windows, seq.len() - k + 1);
        assert_eq!(c.valid, c.windows);
    }
}

#[test]
fn invalid_in_every_window_means_none_valid() {
    let c = count_windows(b"ANAANAANA", 3);
    assert_eq!(c.windows, 7);
    assert_eq!(c.valid, 0);
    let d = count_windows(b"NNNNN", 2);
    assert_eq!((d.windows, d.valid), (4, 0));
}

#[test]
fn distinct_never_exceeds_valid() {
    let r = count_kmers(&records(&["AAAAAA"]), 2, 0).report();
    assert_eq!((r.valid, r.distinct), (5, Some(1)));
    let r2 = count_kmers(&records(&["ACGTAC"]), 3, 0).report();
    assert_eq!((r2.valid, r2.distinct), (4, Some(4)));
}

#[test]
fn case_does_not_matter_for_distinct() {
    let r = count_kmers(&records(&["ACGT", "acgt"]), 4, 0).report();
    assert_eq!((r.valid, r.distinct), (2, Some(1)));
}

#[test]
fn several_records_are_counted_apart() {
    let r = count_kmers(&records(&["ACGT", "ACGT", "GG", ""]), 3, 8).report();
    assert_eq!(r, Report { nucleotides: 10, windows: 4, valid: 4, distinct: Some(2) });
}

#[test]
fn merge_order_does_not_matter() {
    let a = b"ACGTNACGGT".to_vec();
    let b = b"TTGACAAC".to_vec();
    let mut first = KmerCounter::new(0);
    first.merge(scan_sequence(&a, 3));
    first.merge(scan_sequence(&b, 3));
    let mut second = KmerCounter::new(0);
    second.merge(scan_sequence(&b, 3));
    second.merge(scan_sequence(&a, 3));
    assert_eq!(first.report(), second.report());
    assert_eq!(first.distinct_kmers(), 10);
    let forward = count_kmers(&vec![a.clone(), b.clone()], 3, 0).report();
    let backward = count_kmers(&vec![b, a], 3, 0).report();
    assert_eq!(forward, backward);
    assert_eq!(forward, first.report());
}

#[test]
fn repeated_runs_agree() {
    let recs = records(&["GATTACAGATTACA"]);
    assert_eq!(count_kmers(&recs, 5, 4).report(), count_kmers(&recs, 5, 4).report());
}

#[test]
fn scan_set_holds_distinct_windows() {
    let s = scan_sequence(b"ACGTACGT", 4);
    assert_eq!(s.kmers.len(), 4);
    assert!(s.kmers.contains(&27));
    assert_eq!((s.counts.windows, s.counts.valid), (5, 5));
}

fn lines(text: &str) -> Vec<Vec<u8>> {
    text.split('\n').map(|l| l.as_bytes().to_vec()).collect()
}

#[test]
fn scenario_all_valid_from_text() {
    let seqs = fasta_sequences(&lines(">seq1\nACGTACGT\n"));
    assert_eq!(seqs, vec![b"ACGTACGT".to_vec()]);
    let r = count_kmers(&seqs, 4, 16).report();
    assert_eq!(r, Report { nucleotides: 8, windows: 5, valid: 5, distinct: Some(4) });
}

#[test]
fn scenario_ambiguous_base_from_text() {
    let seqs = fasta_sequences(&lines(">s\nACGNACGT\n"));
    let r = count_kmers(&seqs, 4, 16).report();
    assert_eq!((r.windows, r.valid, r.distinct), (5, 1, Some(1)));
}

#[test]
fn assembles_multi_line_records() {
    let text = ">a first\nacgt\n  GGnn \r\n>b\n>c\nTT\nt\n";
    let seqs = fasta_sequences(&lines(text));
    assert_eq!(seqs, vec![b"ACGTGGNN".to_vec(), b"TTT".to_vec()]);
    assert!(fasta_sequences(&lines("")).is_empty());
    assert!(fasta_sequences(&lines(">only\n>headers")).is_empty());
    assert_eq!(fasta_sequences(&lines("AC\nGT")), vec![b"ACGT".to_vec()]);
}

#[test]
fn assembler_closes_on_header() {
    let mut a = SequenceAssembler::new();
    assert_eq!(a.push_line(b">x"), None);
    assert_eq!(a.push_line(b" ac "), None);
    assert_eq!(a.current, b"AC".to_vec());
    assert_eq!(a.push_line(b"\tgT"), None);
    assert_eq!(a.push_line(b">y"), Some(b"ACGT".to_vec()));
    assert!(a.current.is_empty());
    assert_eq!(a.push_line(b"   "), None);
    assert_eq!(a.finish(), None);
    assert_eq!(a.push_line(b"n"), None);
    assert_eq!(a.finish(), Some(b"N".to_vec()));
}

#[test]
fn units_split_records() {
    assert_eq!(partition_units(10, 4), vec![(0, 4), (4, 8), (8, 10)]);
    assert_eq!(partition_units(8, 4), vec![(0, 4), (4, 8)]);
    assert_eq!(partition_units(3, 5), vec![(0, 3)]);
    assert!(partition_units(0, 2).is_empty());
}

#[test]
fn units_give_the_whole_tally() {
    let recs = records(&["ACGTAC", "NNACG", "GGGTTT", "ACG", "TTTAAACCC", "A"]);
    let whole = count_kmers(&recs, 3, 0).report();
    for size in [1usize, 2, 4, 6, 10] {
        assert_eq!(count_kmers_by_units(&recs, 3, 0, size).report(), whole);
    }
    let mut merged = KmerCounter::new(0);
    merged.absorb(count_range(&recs, 3, 6, 3, 0));
    merged.absorb(count_range(&recs, 0, 3, 3, 0));
    assert_eq!(merged.report(), whole);
    assert_eq!(count_range(&recs, 2, 2, 3, 0).report(), Report { nucleotides: 0, windows: 0, valid: 0, distinct: Some(0) });
}
