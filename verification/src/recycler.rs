//! The buffer recycler: a bounded pool of emptied byte buffers, reused to
//! keep the hot read path from allocating for every record.
//!
//! Its one correctness-critical promise: a buffer handed out is always empty.
//! The pool bound only caps memory; a release beyond it simply drops the
//! buffer.

use vstd::prelude::*;

verus! {

/// A bounded pool of empty, reusable byte buffers.
pub struct Recycler {
    /// The pooled buffers; every one is empty.
    pub pool: Vec<Vec<u8>>,
    /// The most buffers the pool retains.
    pub limit: usize,
}

impl Recycler {
    /// The pool respects its bound and holds only empty buffers.
    pub open spec fn wf(self) -> bool {
        &&& self.pool@.len() <= self.limit
        &&& forall|i: int| 0 <= i < self.pool@.len() ==> self.pool@[i]@.len() == 0
    }

    /// An empty pool that will retain at most `limit` buffers.
    pub fn new(limit: usize) -> (r: Recycler)
        ensures
            r.wf(),
            r.limit == limit,
            r.pool@.len() == 0,
    {
        Recycler { pool: Vec::new(), limit }
    }

    /// Hand out an empty buffer: a pooled one when available, else a fresh
    /// allocation.
    pub fn acquire(&mut self) -> (buf: Vec<u8>)
        requires
            old(self).wf(),
        ensures
            final(self).wf(),
            final(self).limit == old(self).limit,
            buf@.len() == 0,
            final(self).pool@.len()
                == if old(self).pool@.len() > 0 { old(self).pool@.len() - 1 } else { 0 },
    {
        match self.pool.pop() {
            Some(buf) => buf,
            None => Vec::new(),
        }
    }

    /// Take a finished buffer back: its contents are cleared and it rejoins
    /// the pool, unless the pool is full, in which case it is dropped.
    pub fn release(&mut self, buf: Vec<u8>)
        requires
            old(self).wf(),
        ensures
            final(self).wf(),
            final(self).limit == old(self).limit,
            final(self).pool@.len()
                == if old(self).pool@.len() < old(self).limit {
                    old(self).pool@.len() + 1
                } else {
                    old(self).pool@.len()
                },
    {
        let mut buf = buf;
        if self.pool.len() < self.limit {
            buf.clear();
            self.pool.push(buf);
        }
    }
}

} // verus!
