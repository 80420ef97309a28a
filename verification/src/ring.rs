//! A fixed-size circular byte buffer with a reader, a writer, and a
//! watermark.  A push may land only while the writer sits below the
//! watermark; a pop drains until the reader catches the writer.  The
//! watermark is fixed at construction and never raised afterwards, so a
//! fresh ring refuses every push — the contracts state exactly that.

use vstd::prelude::*;

verus! {

/// A circular byte buffer with one reader and one writer position.
#[derive(Debug)]
pub struct Ring {
    data: Vec<u8>,
    size: usize,
    reader: usize,
    writer: usize,
    // the last place a push may reach; writes cannot go to or above this
    watermark: usize,
}

impl Ring {
    /// The stored bytes, in slot order.
    pub closed spec fn buf(self) -> Seq<u8> {
        self.data@
    }

    /// The number of slots.
    pub closed spec fn capacity(self) -> int {
        self.size as int
    }

    /// The slot the next pop reads.
    pub closed spec fn reader_pos(self) -> int {
        self.reader as int
    }

    /// The slot the next push writes.
    pub closed spec fn writer_pos(self) -> int {
        self.writer as int
    }

    /// The first slot pushes may not reach.
    pub closed spec fn watermark_pos(self) -> int {
        self.watermark as int
    }

    /// Positions stay inside the slots (or at zero for an empty ring), and
    /// the watermark never exceeds the capacity.
    pub open spec fn wf(self) -> bool {
        &&& self.buf().len() == self.capacity()
        &&& (self.reader_pos() < self.capacity() || (self.capacity() == 0 && self.reader_pos()
            == 0))
        &&& (self.writer_pos() < self.capacity() || (self.capacity() == 0 && self.writer_pos()
            == 0))
        &&& self.watermark_pos() <= self.capacity()
    }

    /// A fresh ring of `size` zeroed slots, all positions at the start.
    pub fn new(size: usize) -> (r: Ring)
        ensures
            r.wf(),
            r.capacity() == size,
            r.buf() == Seq::new(size as nat, |i: int| 0u8),
            r.reader_pos() == 0,
            r.writer_pos() == 0,
            r.watermark_pos() == 0,
    {
        Ring { data: vec![0u8; size], size, reader: 0, writer: 0, watermark: 0 }
    }

    /// Store `value` at the writer and advance it — but only while the
    /// writer sits below the watermark; otherwise nothing changes.
    pub fn push(&mut self, value: u8)
        requires
            old(self).wf(),
        ensures
            final(self).wf(),
            ({
                let w = old(self).writer_pos();
                let m = old(self).watermark_pos();
                let c = old(self).capacity();
                &&& (w < m ==> final(self).buf() == old(self).buf().update(w, value))
                &&& (w < m ==> final(self).writer_pos() == (w + 1) % c)
                &&& (w < m ==> final(self).reader_pos() == old(self).reader_pos())
                &&& (w < m ==> final(self).watermark_pos() == m)
                &&& (w < m ==> final(self).capacity() == c)
                &&& (w >= m ==> *final(self) == *old(self))
            }),
    {
        let writer = self.writer;
        let watermark = self.watermark;
        if writer < watermark {
            self.data[writer] = value;
            self.writer = (writer + 1) % self.size;
        }
    }

    /// Read the slot under the reader and advance it; an empty ring — the
    /// reader having caught the writer — yields nothing and stays put.
    pub fn pop(&mut self) -> (r: Option<u8>)
        requires
            old(self).wf(),
        ensures
            final(self).wf(),
            ({
                let rd = old(self).reader_pos();
                let w = old(self).writer_pos();
                let c = old(self).capacity();
                &&& (rd == w ==> r is None && *final(self) == *old(self))
                &&& (rd != w ==> r == Some(old(self).buf()[rd]))
                &&& (rd != w ==> final(self).reader_pos() == (rd + 1) % c)
                &&& (rd != w ==> final(self).buf() == old(self).buf())
                &&& (rd != w ==> final(self).writer_pos() == w)
                &&& (rd != w ==> final(self).watermark_pos() == old(self).watermark_pos())
                &&& (rd != w ==> final(self).capacity() == c)
            }),
    {
        let reader = self.reader;
        if reader == self.writer {
            return None;
        }
        let value = self.data[reader];
        self.reader = (reader + 1) % self.size;
        Some(value)
    }
}

} // verus!
