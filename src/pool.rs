//! A pool of fixed-size byte buffers with a checkout and return discipline.
use vstd::prelude::*;
use crate::AcceptError;

verus! {

/// A byte buffer; `start..end` is the part that holds data.
pub struct Buffer {
    pub data: Vec<u8>,
    pub start: usize,
    pub end: usize,
}

impl Buffer {
    /// Empties the buffer without zeroing its bytes.
    pub fn reset(&mut self)
        ensures
            final(self).data == old(self).data,
            final(self).start == 0,
            final(self).end == 0,
    {
        self.start = 0;
        self.end = 0;
    }
}

/// At most `max_buffers` buffers of `buffer_size` bytes. Buffers handed back
/// are kept for reuse.
pub struct Pool {
    pub free: Vec<Buffer>,
    /// buffers currently checked out
    pub in_use: usize,
    /// buffers allocated so far
    pub created: usize,
    pub max_buffers: usize,
    pub buffer_size: usize,
}

impl Pool {
    pub open spec fn wf(self) -> bool {
        &&& self.created <= self.max_buffers
        &&& self.in_use + self.free@.len() == self.created
        &&& forall|i: int| 0 <= i < self.free@.len() ==> (#[trigger] self.free@[i]).data@.len() == self.buffer_size
    }

    /// Buffers that can still be checked out.
    pub open spec fn available(self) -> int {
        self.max_buffers - self.in_use
    }

    pub fn with_capacity(max_buffers: usize, buffer_size: usize) -> (r: Pool)
        ensures
            r.wf(),
            r.in_use == 0,
            r.max_buffers == max_buffers,
            r.buffer_size == buffer_size,
    {
        Pool { free: Vec::new(), in_use: 0, created: 0, max_buffers, buffer_size }
    }

    /// Number of buffers that can still be checked out.
    pub fn available_buffers(&self) -> (r: usize)
        requires
            self.wf(),
        ensures
            r == self.available(),
    {
        self.max_buffers - self.in_use
    }

    /// Hands out an empty buffer of `buffer_size` bytes; fails with
    /// `BufferCapacityReached` when `max_buffers` are out.
    pub fn checkout(&mut self) -> (r: Result<Buffer, AcceptError>)
        requires
            old(self).wf(),
        ensures
            final(self).wf(),
            final(self).max_buffers == old(self).max_buffers,
            final(self).buffer_size == old(self).buffer_size,
            r is Err <==> old(self).in_use == old(self).max_buffers,
            r is Err ==> r == Err::<Buffer, AcceptError>(AcceptError::BufferCapacityReached) && final(self).in_use
                == old(self).in_use,
            r matches Ok(b) ==> final(self).in_use == old(self).in_use + 1 && b.data@.len() == old(self).buffer_size
                && b.start == 0 && b.end == 0,
    {
        if self.in_use == self.max_buffers {
            return Err(AcceptError::BufferCapacityReached);
        }
        match self.free.pop() {
            Some(b) => {
                self.in_use = self.in_use + 1;
                let mut b = b;
                b.reset();
                Ok(b)
            },
            None => {
                self.in_use = self.in_use + 1;
                self.created = self.created + 1;
                Ok(Buffer { data: vec![0u8; self.buffer_size], start: 0, end: 0 })
            },
        }
    }

    /// Takes a buffer back; it is emptied, not zeroed.
    pub fn checkin(&mut self, buffer: Buffer)
        requires
            old(self).wf(),
            old(self).in_use > 0,
            buffer.data@.len() == old(self).buffer_size,
        ensures
            final(self).wf(),
            final(self).max_buffers == old(self).max_buffers,
            final(self).buffer_size == old(self).buffer_size,
            final(self).in_use == old(self).in_use - 1,
    {
        let mut buffer = buffer;
        buffer.reset();
        self.free.push(buffer);
        self.in_use = self.in_use - 1;
    }
}

} // verus!
