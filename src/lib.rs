//! Summary statistics over DNA sequences: nucleotide totals, sliding k-mer
//! windows, valid windows and the distinct k-mers among them.
mod pow;

pub mod codec;
pub mod kmer_set;
pub mod window;
pub mod counter;
pub mod fasta;
