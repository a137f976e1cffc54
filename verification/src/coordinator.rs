//! The watermark coordinator: owner of the bounded record queue and of the
//! read/write gates.
//!
//! Records enter at the tail and leave at the head — strict FIFO, so output
//! order is exactly input order. After every queue size change both gates are
//! re-derived by the hysteresis rules in `watermark`. The coordinator also
//! tracks whether the input side has ended, and reports the terminal state:
//! input exhausted and queue drained.

use vstd::prelude::*;
use crossbeam::queue::ArrayQueue;
use crate::queue_ext::{
    queue_contents, queue_capacity, queue_new, queue_push, queue_pop, queue_len,
};
use crate::watermark::{Config, next_reading, next_writing};

verus! {

/// The shared state the main loop coordinates: the bounded FIFO of completed
/// records, the two gates, and whether the input has ended.
pub struct Coordinator {
    /// The validated queue geometry.
    pub cfg: Config,
    /// The bounded FIFO of completed records, oldest first.
    pub queue: ArrayQueue<Vec<u8>>,
    /// The reader may enqueue more records.
    pub reading: bool,
    /// The writer should keep draining.
    pub writing: bool,
    /// The input side has delivered its end marker; no records follow.
    pub input_done: bool,
    /// The input side ended with an error: read no further, but let the
    /// writer flush what is already queued.
    pub read_failed: bool,
    /// The output side failed: stop reading at once and discard what remains.
    pub write_failed: bool,
}

impl Coordinator {
    /// The records currently queued, oldest first.
    pub open spec fn records(self) -> Seq<Seq<u8>> {
        queue_contents(self.queue)
    }

    /// The geometry is valid, the queue was built to it, and the fill never
    /// exceeds the capacity.
    pub open spec fn wf(self) -> bool {
        &&& self.cfg.wf()
        &&& queue_capacity(self.queue) == self.cfg.buffer_lines as nat
        &&& self.records().len() <= self.cfg.buffer_lines as nat
    }

    /// A coordinator over an empty queue: filling begins before draining, so
    /// reading starts enabled and writing disabled.
    pub fn new(cfg: Config) -> (c: Coordinator)
        requires
            cfg.wf(),
            cfg.buffer_lines <= usize::MAX / 2,
        ensures
            c.wf(),
            c.cfg == cfg,
            c.records() == Seq::<Seq<u8>>::empty(),
            c.reading,
            !c.writing,
            !c.input_done,
            !c.read_failed,
            !c.write_failed,
    {
        Coordinator {
            cfg,
            queue: queue_new(cfg.buffer_lines),
            reading: true,
            writing: false,
            input_done: false,
            read_failed: false,
            write_failed: false,
        }
    }

    /// The end and failure markers are unchanged between two states.
    pub open spec fn same_markers(pre: Coordinator, post: Coordinator) -> bool {
        &&& post.input_done == pre.input_done
        &&& post.read_failed == pre.read_failed
        &&& post.write_failed == pre.write_failed
    }

    /// Re-derive both gates from the current queue length.
    fn refresh_gates(&mut self)
        requires
            old(self).wf(),
        ensures
            final(self).wf(),
            final(self).cfg == old(self).cfg,
            final(self).records() == old(self).records(),
            Coordinator::same_markers(*old(self), *final(self)),
            final(self).reading
                == next_reading(old(self).cfg, old(self).reading, old(self).records().len()),
            final(self).writing
                == next_writing(old(self).cfg, old(self).writing, old(self).records().len()),
    {
        let len = queue_len(&self.queue);
        self.writing = if len == 0 {
            false
        } else if len >= self.cfg.high_wm {
            true
        } else {
            self.writing
        };
        self.reading = if len >= self.cfg.buffer_lines {
            false
        } else if len <= self.cfg.low_wm {
            true
        } else {
            self.reading
        };
    }

    /// Accept one completed record from the reader. It joins the tail of the
    /// FIFO unless the queue is full, in which case it comes back unchanged;
    /// both gates are re-derived afterwards.
    pub fn enqueue(&mut self, rec: Vec<u8>) -> (r: Result<(), Vec<u8>>)
        requires
            old(self).wf(),
        ensures
            final(self).wf(),
            final(self).cfg == old(self).cfg,
            Coordinator::same_markers(*old(self), *final(self)),
            old(self).records().len() < old(self).cfg.buffer_lines as nat ==> r is Ok,
            r is Ok ==> final(self).records() == old(self).records().push(rec@),
            r is Err ==> final(self).records() == old(self).records()
                && old(self).records().len() == old(self).cfg.buffer_lines as nat,
            r matches Err(w) ==> w@ == rec@,
            final(self).reading
                == next_reading(old(self).cfg, old(self).reading, final(self).records().len()),
            final(self).writing
                == next_writing(old(self).cfg, old(self).writing, final(self).records().len()),
    {
        let r = queue_push(&mut self.queue, rec);
        self.refresh_gates();
        r
    }

    /// Hand the oldest queued record to the writer, if any; both gates are
    /// re-derived afterwards. FIFO: the record returned is the first of the
    /// queued sequence, and the rest keep their order.
    pub fn dequeue(&mut self) -> (r: Option<Vec<u8>>)
        requires
            old(self).wf(),
        ensures
            final(self).wf(),
            final(self).cfg == old(self).cfg,
            Coordinator::same_markers(*old(self), *final(self)),
            old(self).records().len() == 0 <==> r is None,
            r is None ==> final(self).records() == old(self).records(),
            r matches Some(v) ==> v@ == old(self).records()[0]
                && final(self).records() == old(self).records().drop_first(),
            final(self).reading
                == next_reading(old(self).cfg, old(self).reading, final(self).records().len()),
            final(self).writing
                == next_writing(old(self).cfg, old(self).writing, final(self).records().len()),
    {
        let r = queue_pop(&mut self.queue);
        self.refresh_gates();
        r
    }

    /// Note the input side's end marker: no further records will arrive.
    pub fn note_input_end(&mut self)
        requires
            old(self).wf(),
        ensures
            final(self).wf(),
            final(self).cfg == old(self).cfg,
            final(self).records() == old(self).records(),
            final(self).reading == old(self).reading,
            final(self).writing == old(self).writing,
            final(self).input_done,
            final(self).read_failed == old(self).read_failed,
            final(self).write_failed == old(self).write_failed,
    {
        self.input_done = true;
    }

    /// Note an end marker carrying a read error: drain no further input, but
    /// let the writer flush what is already queued before the run exits with
    /// the error.
    pub fn note_read_error(&mut self)
        requires
            old(self).wf(),
        ensures
            final(self).wf(),
            final(self).cfg == old(self).cfg,
            final(self).records() == old(self).records(),
            final(self).reading == old(self).reading,
            final(self).writing == old(self).writing,
            final(self).input_done == old(self).input_done,
            final(self).read_failed,
            final(self).write_failed == old(self).write_failed,
    {
        self.read_failed = true;
    }

    /// Note a write error: stop reading at once; what remains queued is
    /// discarded and the run exits with the error.
    pub fn note_write_error(&mut self)
        requires
            old(self).wf(),
        ensures
            final(self).wf(),
            final(self).cfg == old(self).cfg,
            final(self).records() == old(self).records(),
            final(self).reading == old(self).reading,
            final(self).writing == old(self).writing,
            final(self).input_done == old(self).input_done,
            final(self).read_failed == old(self).read_failed,
            final(self).write_failed,
    {
        self.write_failed = true;
    }

    /// The number of records currently queued.
    pub fn queued(&self) -> (n: usize)
        ensures
            n as nat == self.records().len(),
    {
        queue_len(&self.queue)
    }

    /// The reader should pull more bytes: reading is gated on, the input has
    /// not ended, and neither side has failed.
    pub fn will_read(&self) -> (b: bool)
        ensures
            b == (self.reading && !self.input_done && !self.read_failed && !self.write_failed),
    {
        self.reading && !self.input_done && !self.read_failed && !self.write_failed
    }

    /// The writer should drain: the writing gate is on, or the input side is
    /// finished (exhausted or failed) and records remain to flush. After a
    /// write error nothing more is sent.
    pub fn will_write(&self) -> (b: bool)
        ensures
            b == (!self.write_failed && (self.writing
                || ((self.input_done || self.read_failed) && self.records().len() > 0))),
    {
        if self.write_failed {
            false
        } else if self.writing {
            true
        } else if self.input_done || self.read_failed {
            self.queued() > 0
        } else {
            false
        }
    }

    /// The terminal state: the run may exit. Cleanly, when the input is
    /// exhausted and every queued record has been written out; with an error,
    /// when a read error's drain has finished or a write error has struck.
    pub fn is_finished(&self) -> (b: bool)
        requires
            self.wf(),
        ensures
            b == (self.write_failed
                || ((self.input_done || self.read_failed) && self.records().len() == 0)),
    {
        self.write_failed || ((self.input_done || self.read_failed) && self.queued() == 0)
    }
}

} // verus!
