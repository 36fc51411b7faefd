//! Assembly of FASTA lines into whole sequences: a line that starts with `>`
//! closes the sequence before it, every other line is trimmed, put in upper
//! case and appended to the open sequence.
use vstd::prelude::*;

use crate::codec::{upper, upper_seq};

verus! {

/// The byte that starts a header line.
pub const HEADER_MARK: u8 = 62;

/// ASCII whitespace: space, tab, line feed, form feed, carriage return.
pub open spec fn is_space(b: u8) -> bool {
    b == 32 || b == 9 || b == 10 || b == 12 || b == 13
}

/// `s` without its leading whitespace.
pub open spec fn trim_start(s: Seq<u8>) -> Seq<u8>
    decreases s.len(),
{
    if s.len() > 0 && is_space(s[0]) {
        trim_start(s.drop_first())
    } else {
        s
    }
}

/// `s` without its trailing whitespace.
pub open spec fn trim_end(s: Seq<u8>) -> Seq<u8>
    decreases s.len(),
{
    if s.len() > 0 && is_space(s.last()) {
        trim_end(s.drop_last())
    } else {
        s
    }
}

/// A line that starts a new record.
pub open spec fn is_header(line: Seq<u8>) -> bool {
    line.len() > 0 && line[0] == HEADER_MARK
}

/// The bases that a data line adds to the open sequence.
pub open spec fn line_bases(line: Seq<u8>) -> Seq<u8> {
    upper_seq(trim_end(trim_start(line)))
}

/// The open sequence after one more line.
pub open spec fn next_open(open: Seq<u8>, line: Seq<u8>) -> Seq<u8> {
    if is_header(line) {
        Seq::empty()
    } else {
        open + line_bases(line)
    }
}

/// The sequence that one more line closes, if any: a header closes the open
/// sequence unless it is empty.
pub open spec fn closed_by(open: Seq<u8>, line: Seq<u8>) -> Option<Seq<u8>> {
    if is_header(line) && open.len() > 0 {
        Some(open)
    } else {
        None
    }
}

/// The open sequence after all of `lines`.
pub open spec fn open_after(lines: Seq<Seq<u8>>) -> Seq<u8>
    decreases lines.len(),
{
    if lines.len() == 0 {
        Seq::empty()
    } else {
        next_open(open_after(lines.drop_last()), lines.last())
    }
}

/// The sequences that `lines` close, in order; the one still open is not
/// among them.
pub open spec fn closed_after(lines: Seq<Seq<u8>>) -> Seq<Seq<u8>>
    decreases lines.len(),
{
    if lines.len() == 0 {
        Seq::empty()
    } else {
        let done = closed_after(lines.drop_last());
        match closed_by(open_after(lines.drop_last()), lines.last()) {
            Some(s) => done.push(s),
            None => done,
        }
    }
}

/// Every non-empty sequence of a FASTA text given as lines, in order.
pub open spec fn fasta_records(lines: Seq<Seq<u8>>) -> Seq<Seq<u8>> {
    if open_after(lines).len() > 0 {
        closed_after(lines).push(open_after(lines))
    } else {
        closed_after(lines)
    }
}

/// The upper case of one byte.
fn upper_byte(b: u8) -> (r: u8)
    ensures
        r == upper(b),
{
    if 97 <= b && b <= 122 {
        b - 32
    } else {
        b
    }
}

fn is_space_byte(b: u8) -> (r: bool)
    ensures
        r == is_space(b),
{
    b == 32 || b == 9 || b == 10 || b == 12 || b == 13
}

/// The sequence being assembled from the lines of one record.
pub struct SequenceAssembler {
    pub current: Vec<u8>,
}

impl SequenceAssembler {
    /// An assembler with no sequence open.
    pub fn new() -> (r: SequenceAssembler)
        ensures
            r.current@ == Seq::<u8>::empty(),
    {
        SequenceAssembler { current: Vec::new() }
    }

    /// Takes one line: a header hands back the sequence it closes, if that is
    /// not empty; a data line is trimmed, put in upper case and appended.
    pub fn push_line(&mut self, line: &[u8]) -> (r: Option<Vec<u8>>)
        ensures
            final(self).current@ == next_open(old(self).current@, line@),
            r matches Some(v) ==> closed_by(old(self).current@, line@) == Some(v@),
            r is None ==> closed_by(old(self).current@, line@) is None,
    {
        if line.len() > 0 && line[0] == HEADER_MARK {
            self.finish()
        } else {
            let len = line.len();
            let mut start: usize = 0;
            assert(line@.subrange(0, len as int) =~= line@);
            while start < len && is_space_byte(line[start])
                invariant
                    start <= len == line@.len(),
                    trim_start(line@) == trim_start(line@.subrange(start as int, len as int)),
                decreases len - start,
            {
                let ghost rest = line@.subrange(start as int, len as int);
                assert(rest.drop_first() =~= line@.subrange(start + 1, len as int));
                start += 1;
            }
            let ghost front = line@.subrange(start as int, len as int);
            assert(trim_start(front) == front);
            let mut end: usize = len;
            while end > start && is_space_byte(line[end - 1])
                invariant
                    start <= end <= len == line@.len(),
                    trim_end(front) == trim_end(line@.subrange(start as int, end as int)),
                    front == line@.subrange(start as int, len as int),
                decreases end - start,
            {
                let ghost rest = line@.subrange(start as int, end as int);
                assert(rest.drop_last() =~= line@.subrange(start as int, end - 1));
                end -= 1;
            }
            let ghost bases = line@.subrange(start as int, end as int);
            assert(trim_end(bases) == bases);
            let ghost before = self.current@;
            let mut i: usize = start;
            while i < end
                invariant
                    start <= i <= end <= line@.len(),
                    self.current@ == before + upper_seq(line@.subrange(start as int, i as int)),
                decreases end - i,
            {
                self.current.push(upper_byte(line[i]));
                assert(upper_seq(line@.subrange(start as int, i + 1)) =~= upper_seq(
                    line@.subrange(start as int, i as int),
                ).push(upper(line@[i as int])));
                i += 1;
            }
            assert(self.current@ =~= before + line_bases(line@));
            None
        }
    }

    /// Closes the open sequence and hands it back, unless it is empty.
    pub fn finish(&mut self) -> (r: Option<Vec<u8>>)
        ensures
            final(self).current@ == Seq::<u8>::empty(),
            r matches Some(v) ==> v@ == old(self).current@ && v@.len() > 0,
            r is None <==> old(self).current@.len() == 0,
    {
        let mut out: Vec<u8> = Vec::new();
        std::mem::swap(&mut out, &mut self.current);
        if out.len() > 0 {
            Some(out)
        } else {
            None
        }
    }
}

/// Assembles the lines of a FASTA text into its non-empty sequences.
pub fn fasta_sequences(lines: &Vec<Vec<u8>>) -> (r: Vec<Vec<u8>>)
    ensures
        r@.map_values(|v: Vec<u8>| v@) == fasta_records(lines@.map_values(|l: Vec<u8>| l@)),
{
    let ghost ls = lines@.map_values(|l: Vec<u8>| l@);
    let mut out: Vec<Vec<u8>> = Vec::new();
    let mut assembler = SequenceAssembler::new();
    let mut i: usize = 0;
    while i < lines.len()
        invariant
            i <= lines@.len(),
            ls == lines@.map_values(|l: Vec<u8>| l@),
            out@.map_values(|v: Vec<u8>| v@) == closed_after(ls.subrange(0, i as int)),
            assembler.current@ == open_after(ls.subrange(0, i as int)),
        decreases lines@.len() - i,
    {
        let ghost prev = ls.subrange(0, i as int);
        let ghost out_before = out@;
        let closed = assembler.push_line(lines[i].as_slice());
        proof {
            let next = ls.subrange(0, i + 1);
            assert(next.drop_last() =~= prev);
            assert(next.last() == lines@[i as int]@);
        }
        match closed {
            Some(s) => {
                out.push(s);
                assert(out@.map_values(|v: Vec<u8>| v@) =~= out_before.map_values(|v: Vec<u8>| v@).push(
                    out@[out@.len() - 1]@,
                ));
            },
            None => {},
        }
        i += 1;
    }
    assert(ls.subrange(0, i as int) =~= ls);
    let ghost out_before = out@;
    match assembler.finish() {
        Some(s) => {
            out.push(s);
            assert(out@.map_values(|v: Vec<u8>| v@) =~= out_before.map_values(|v: Vec<u8>| v@).push(
                out@[out@.len() - 1]@,
            ));
        },
        None => {},
    }
    out
}

} // verus!
