//! The whole core, run on one in-memory stream: physical reads feed the
//! reblocker, completed records pass through the coordinator's bounded FIFO
//! with backpressure (a full queue is drained before reading goes on), and the
//! drained records are concatenated in arrival order.
//!
//! `pump` is the round-trip law made executable: however the input is cut
//! into reads and whatever the queue geometry, the bytes that come out are
//! exactly the bytes that went in — no loss, no duplication, no reordering.

use vstd::prelude::*;
use crate::coordinator::Coordinator;
use crate::reblock::Reblocker;
use crate::records::{
    concat_all, complete_records, leftover, lemma_records_leftover_concat,
    lemma_concat_all_push, lemma_concat_take_step,
};
use crate::watermark::Config;

verus! {

/// Move one record into the queue, draining the oldest queued record into
/// `out` first when the queue is full. The bytes in flight are conserved:
/// afterwards, `out` plus the queue holds what it held before, with `rec`'s
/// bytes at the logical tail.
fn enqueue_record(coord: &mut Coordinator, out: &mut Vec<u8>, rec: Vec<u8>)
    requires
        old(coord).wf(),
    ensures
        final(coord).wf(),
        final(coord).cfg == old(coord).cfg,
        final(coord).input_done == old(coord).input_done,
        final(out)@ + concat_all(final(coord).records())
            == old(out)@ + concat_all(old(coord).records()) + rec@,
{
    let ghost q0 = coord.records();
    match coord.enqueue(rec) {
        Ok(()) => {
            proof {
                lemma_concat_all_push(q0, rec@);
                assert(out@ + (concat_all(q0) + rec@)
                    =~= out@ + concat_all(q0) + rec@);
            }
        },
        Err(back) => {
            // the queue is at capacity; make room by draining the head
            let head = coord.dequeue();
            match head {
                Some(mut v) => {
                    let ghost q1 = coord.records();
                    proof {
                        assert(q0.len() > 0);
                        assert(concat_all(q0) == q0[0] + concat_all(q0.skip(1)));
                        assert(q0.drop_first() =~= q0.skip(1));
                    }
                    out.append(&mut v);
                    match coord.enqueue(back) {
                        Ok(()) => {
                            proof {
                                lemma_concat_all_push(q1, back@);
                                assert(out@ + (concat_all(q1) + back@)
                                    =~= out@ + concat_all(q1) + back@);
                                assert((old(out)@ + q0[0]) + concat_all(q0.skip(1))
                                    =~= old(out)@ + (q0[0] + concat_all(q0.skip(1))));
                            }
                        },
                        Err(_) => {
                            // a dequeue just freed a slot, so this cannot fail
                            proof {
                                assert(false);
                            }
                        },
                    }
                },
                None => {
                    // a full queue with capacity at least one is non-empty
                    proof {
                        assert(false);
                    }
                },
            }
        },
    }
}

/// Run the core on one stream already cut into physical reads: reblock the
/// chunks into records, pass every record through the bounded FIFO under the
/// watermark coordinator, and emit the drained records in order. The output
/// is byte-identical to the input, whatever the read granularity and the
/// queue geometry.
pub fn pump(chunks: &Vec<Vec<u8>>, delimiter: &[u8], cfg: Config) -> (out: Vec<u8>)
    requires
        delimiter@.len() >= 1,
        cfg.wf(),
        cfg.buffer_lines <= usize::MAX / 2,
    ensures
        out@ == concat_all(chunks@.map_values(|c: Vec<u8>| c@)),
{
    let ghost cviews = chunks@.map_values(|c: Vec<u8>| c@);
    let mut rb = Reblocker::new(delimiter);
    let mut coord = Coordinator::new(cfg);
    let mut out: Vec<u8> = Vec::new();
    proof {
        assert(out@ + concat_all(coord.records()) + rb.held@
            =~= concat_all(cviews.take(0)));
    }
    let mut i: usize = 0;
    while i < chunks.len()
        invariant
            rb.wf(),
            coord.wf(),
            coord.cfg == cfg,
            rb.delim@ == delimiter@,
            delimiter@.len() >= 1,
            i <= chunks@.len(),
            cviews == chunks@.map_values(|c: Vec<u8>| c@),
            out@ + concat_all(coord.records()) + rb.held@ == concat_all(cviews.take(i as int)),
        decreases chunks@.len() - i,
    {
        let ghost held0 = rb.held@;
        let ghost out0 = out@;
        let ghost q0 = coord.records();
        let mut recs = rb.push_chunk(chunks[i].as_slice());
        proof {
            let chv = cviews[i as int];
            let rviews = recs@.map_values(|r: Vec<u8>| r@);
            lemma_records_leftover_concat(held0 + chv, delimiter@);
            lemma_concat_take_step(cviews, i as int);
            assert(concat_all(rviews) + rb.held@ == held0 + chv);
            assert(out@ + concat_all(coord.records()) + concat_all(rviews) + rb.held@
                =~= (out@ + concat_all(coord.records())) + (concat_all(rviews) + rb.held@));
            assert((out@ + concat_all(coord.records())) + (held0 + chv)
                =~= (out@ + concat_all(coord.records()) + held0) + chv);
        }
        while recs.len() > 0
            invariant
                rb.wf(),
                coord.wf(),
                coord.cfg == cfg,
                rb.delim@ == delimiter@,
                out@ + concat_all(coord.records())
                    + concat_all(recs@.map_values(|r: Vec<u8>| r@)) + rb.held@
                    == concat_all(cviews.take(i + 1)),
            decreases recs@.len(),
        {
            let ghost rviews = recs@.map_values(|r: Vec<u8>| r@);
            let rec = recs.remove(0);
            proof {
                assert(recs@.map_values(|r: Vec<u8>| r@) =~= rviews.skip(1));
                assert(concat_all(rviews) == rviews[0] + concat_all(rviews.skip(1)));
            }
            let ghost outq0 = out@ + concat_all(coord.records());
            enqueue_record(&mut coord, &mut out, rec);
            proof {
                assert(out@ + concat_all(coord.records()) == outq0 + rviews[0]);
                assert((outq0 + rviews[0]) + (concat_all(rviews.skip(1)) + rb.held@)
                    =~= outq0 + ((rviews[0] + concat_all(rviews.skip(1))) + rb.held@));
                assert(outq0 + concat_all(rviews) + rb.held@
                    =~= outq0 + (concat_all(rviews) + rb.held@));
                assert(out@ + concat_all(coord.records())
                    + concat_all(recs@.map_values(|r: Vec<u8>| r@)) + rb.held@
                    =~= (outq0 + rviews[0]) + (concat_all(rviews.skip(1)) + rb.held@));
            }
        }
        proof {
            assert(concat_all(recs@.map_values(|r: Vec<u8>| r@)) == Seq::<u8>::empty()) by {
                assert(recs@.map_values(|r: Vec<u8>| r@).len() == 0);
            }
            assert(out@ + concat_all(coord.records()) + Seq::<u8>::empty() + rb.held@
                =~= out@ + concat_all(coord.records()) + rb.held@);
        }
        i += 1;
    }
    proof {
        assert(cviews.take(i as int) =~= cviews);
    }
    // end of stream: the hold buffer, if non-empty, is the final record
    let ghost held_end = rb.held@;
    match rb.finish() {
        Some(last) => {
            enqueue_record(&mut coord, &mut out, last);
        },
        None => {
            proof {
                assert(held_end =~= Seq::<u8>::empty());
                assert(out@ + concat_all(coord.records()) + Seq::<u8>::empty()
                    =~= out@ + concat_all(coord.records()));
            }
        },
    }
    // drain: the writer empties the queue in FIFO order
    loop
        invariant
            coord.wf(),
            cviews == chunks@.map_values(|c: Vec<u8>| c@),
            out@ + concat_all(coord.records()) == concat_all(cviews),
        decreases coord.records().len(),
    {
        let ghost q0 = coord.records();
        match coord.dequeue() {
            Some(mut v) => {
                let ghost out0 = out@;
                proof {
                    assert(concat_all(q0) == q0[0] + concat_all(q0.skip(1)));
                    assert(q0.drop_first() =~= q0.skip(1));
                }
                out.append(&mut v);
                proof {
                    assert((out0 + q0[0]) + concat_all(q0.skip(1))
                        =~= out0 + (q0[0] + concat_all(q0.skip(1))));
                }
            },
            None => {
                proof {
                    assert(concat_all(coord.records()) == Seq::<u8>::empty());
                    assert(out@ + Seq::<u8>::empty() =~= out@);
                }
                return out;
            },
        }
    }
}

} // verus!
