//! The reader-side reblocker: a hold buffer fed by physical reads, from which
//! complete delimiter-terminated records are carved.
//!
//! A `Reblocker` owns the hold buffer described by the stream model in
//! `records`: after every `push_chunk` the buffer is exactly the leftover of
//! everything fed so far, and the records handed out so far are exactly the
//! complete records of that stream — whatever the read granularity was.

use vstd::prelude::*;
use vstd::slice::slice_to_vec;
use crate::scanner::{
    match_at, scan_from, first_match, find_bytes_from, lemma_scan_from_skip,
    lemma_match_in_prefix,
};
use crate::records::{
    complete_records, leftover, split_records, split_point, has_delimiter,
    lemma_no_delimiter_no_match, lemma_no_match_no_delimiter,
};

verus! {

/// The scanner state carried across physical reads: the delimiter and the
/// hold buffer (the partial record still awaiting a delimiter).
pub struct Reblocker {
    /// The configured delimiter; non-empty, fixed after construction.
    pub delim: Vec<u8>,
    /// The hold buffer; never contains a full delimiter occurrence.
    pub held: Vec<u8>,
}

impl Reblocker {
    /// The delimiter is non-empty and the hold buffer is fully scanned: no
    /// delimiter occurrence hides in it.
    pub open spec fn wf(self) -> bool {
        &&& self.delim@.len() >= 1
        &&& !has_delimiter(self.held@, self.delim@)
    }

    /// A fresh reblocker with an empty hold buffer.
    pub fn new(delimiter: &[u8]) -> (r: Reblocker)
        requires
            delimiter@.len() >= 1,
        ensures
            r.wf(),
            r.delim@ == delimiter@,
            r.held@ == Seq::<u8>::empty(),
    {
        proof {
            assert(scan_from(Seq::<u8>::empty(), delimiter@, 0) == 0);
        }
        Reblocker { delim: slice_to_vec(delimiter), held: Vec::new() }
    }

    /// Feed one physical read. Returns the complete records now carved out of
    /// the hold buffer extended by `chunk`, in input order, each ending with
    /// the delimiter; the delimiter-free tail stays behind as the new hold
    /// buffer. The scan resumes just before the old buffer end, so bytes
    /// already ruled out are not searched again.
    pub fn push_chunk(&mut self, chunk: &[u8]) -> (recs: Vec<Vec<u8>>)
        requires
            old(self).wf(),
        ensures
            final(self).wf(),
            final(self).delim@ == old(self).delim@,
            recs@.map_values(|r: Vec<u8>| r@)
                == complete_records(old(self).held@ + chunk@, old(self).delim@),
            final(self).held@ == leftover(old(self).held@ + chunk@, old(self).delim@),
    {
        let ghost d = old(self).delim@;
        let ghost total = old(self).held@ + chunk@;
        let old_len = self.held.len();
        let mut tail = slice_to_vec(chunk);
        self.held.append(&mut tail);
        assert(self.held@ == total);

        let dlen = self.delim.len();
        let mut start: usize = if old_len >= dlen { old_len - dlen + 1 } else { 0 };
        proof {
            lemma_no_delimiter_no_match(old(self).held@, d);
            assert forall|j: int| 0 <= j < start implies !match_at(self.held@, d, j) by {
                assert(j + d.len() <= old_len);
                lemma_match_in_prefix(old(self).held@, chunk@, d, j);
            }
        }

        let mut recs: Vec<Vec<u8>> = Vec::new();
        proof {
            assert(recs@.map_values(|r: Vec<u8>| r@) =~= Seq::<Seq<u8>>::empty());
            assert(Seq::<Seq<u8>>::empty() + complete_records(self.held@, d)
                =~= complete_records(self.held@, d));
        }
        loop
            invariant
                d == old(self).delim@,
                total == old(self).held@ + chunk@,
                self.delim@ == d,
                d.len() >= 1,
                dlen == d.len(),
                start <= self.held@.len(),
                forall|j: int| 0 <= j < start ==> !match_at(self.held@, d, j),
                complete_records(total, d)
                    == recs@.map_values(|r: Vec<u8>| r@) + complete_records(self.held@, d),
                leftover(total, d) == leftover(self.held@, d),
            decreases self.held@.len(),
        {
            match find_bytes_from(self.held.as_slice(), &self.delim, start) {
                None => {
                    proof {
                        lemma_no_match_no_delimiter(self.held@, d);
                        assert(complete_records(self.held@, d) == Seq::<Seq<u8>>::empty());
                        assert(leftover(self.held@, d) == self.held@);
                        assert(recs@.map_values(|r: Vec<u8>| r@) + Seq::<Seq<u8>>::empty()
                            =~= recs@.map_values(|r: Vec<u8>| r@));
                    }
                    return recs;
                },
                Some(off) => {
                    let ghost prev = self.held@;
                    let ghost old_recs = recs@;
                    proof {
                        lemma_scan_from_skip(prev, d, 0, start as nat);
                        assert(first_match(prev, d) == off);
                        assert(off + d.len() <= prev.len());
                        assert(split_point(prev, d) == off + d.len());
                        assert(has_delimiter(prev, d));
                    }
                    let hlen = self.held.len();
                    let sp = off + dlen;
                    let mut rest = self.held.split_off(sp);
                    core::mem::swap(&mut self.held, &mut rest);
                    recs.push(rest);
                    start = 0;
                    proof {
                        assert(rest@ == prev.take(sp as int));
                        assert(self.held@ == prev.skip(sp as int));
                        assert(complete_records(prev, d)
                            == seq![prev.take(sp as int)] + complete_records(self.held@, d));
                        assert(leftover(prev, d) == leftover(self.held@, d));
                        assert(recs@.map_values(|r: Vec<u8>| r@)
                            =~= old_recs.map_values(|r: Vec<u8>| r@).push(prev.take(sp as int)));
                        assert(old_recs.map_values(|r: Vec<u8>| r@).push(prev.take(sp as int))
                            + complete_records(self.held@, d)
                            =~= old_recs.map_values(|r: Vec<u8>| r@)
                            + (seq![prev.take(sp as int)] + complete_records(self.held@, d)));
                    }
                },
            }
        }
    }

    /// End of stream: hand out the hold buffer as the final, delimiter-less
    /// record when it is non-empty; the buffer is empty afterwards.
    pub fn finish(&mut self) -> (r: Option<Vec<u8>>)
        requires
            old(self).wf(),
        ensures
            final(self).wf(),
            final(self).delim@ == old(self).delim@,
            final(self).held@ == Seq::<u8>::empty(),
            match r {
                Some(v) => v@ == old(self).held@ && old(self).held@.len() > 0,
                None => old(self).held@.len() == 0,
            },
    {
        proof {
            assert(scan_from(Seq::<u8>::empty(), old(self).delim@, 0) == 0);
        }
        if self.held.len() == 0 {
            proof {
                assert(self.held@ =~= Seq::<u8>::empty());
            }
            None
        } else {
            let mut out: Vec<u8> = Vec::new();
            core::mem::swap(&mut self.held, &mut out);
            Some(out)
        }
    }
}

/// Split one whole in-memory stream into its records: the complete records in
/// order, then the final delimiter-less record when the stream does not end
/// with the delimiter.
pub fn split_stream(input: &[u8], delimiter: &[u8]) -> (recs: Vec<Vec<u8>>)
    requires
        delimiter@.len() >= 1,
    ensures
        recs@.map_values(|r: Vec<u8>| r@) == split_records(input@, delimiter@),
{
    let mut rb = Reblocker::new(delimiter);
    let ghost d = delimiter@;
    let mut recs = rb.push_chunk(input);
    proof {
        assert(Seq::<u8>::empty() + input@ =~= input@);
    }
    let last = rb.finish();
    match last {
        Some(v) => {
            let ghost old_recs = recs@;
            recs.push(v);
            proof {
                assert(recs@.map_values(|r: Vec<u8>| r@)
                    =~= old_recs.map_values(|r: Vec<u8>| r@).push(leftover(input@, d)));
            }
        },
        None => {},
    }
    recs
}

} // verus!
