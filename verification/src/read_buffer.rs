//! A sliding buffer of recently read data: the bytes held, the file offset where they start,
//! and how many of them have been consumed.

use vstd::prelude::*;
use vstd::slice::{slice_subrange, slice_to_vec};

verus! {

pub struct ReadBuffer {
    pub buffer: Vec<u8>,
    pub start_offset: u64,
    pub consumed: u64,
}

impl ReadBuffer {
    pub fn new(start_offset: u64) -> (r: Self)
        ensures
            r.buffer@.len() == 0,
            r.start_offset == start_offset,
            r.consumed == 0,
    {
        ReadBuffer { buffer: Vec::new(), start_offset, consumed: 0 }
    }

    /// Bytes held and not consumed yet.
    pub fn remaining(&self) -> (r: u64)
        requires
            self.buffer@.len() <= u64::MAX,
            self.buffer@.len() >= self.consumed,
        ensures
            r == self.buffer@.len() - self.consumed,
    {
        self.buffer.len() as u64 - self.consumed
    }

    /// File offset of the first byte held.
    pub fn start(&self) -> (r: u64)
        ensures
            r == self.start_offset,
    {
        self.start_offset
    }

    /// File offset after the last byte held.
    pub fn end(&self) -> (r: u64)
        requires
            self.buffer@.len() <= u64::MAX,
            self.start_offset + self.buffer@.len() <= u64::MAX,
        ensures
            r == self.start_offset + self.buffer@.len(),
    {
        self.start_offset + self.buffer.len() as u64
    }

    /// File offset of the next byte to read.
    pub fn pos(&self) -> (r: u64)
        requires
            self.buffer@.len() <= u64::MAX,
            self.buffer@.len() >= self.consumed,
            self.start_offset + self.consumed <= u64::MAX,
        ensures
            r == self.start_offset + self.consumed,
    {
        self.start_offset + self.consumed
    }

    /// Bytes held.
    pub fn len(&self) -> (r: usize)
        ensures
            r == self.buffer@.len(),
    {
        self.buffer.len()
    }

    /// The bytes held and not consumed yet.
    pub fn get_buffer(&self) -> (r: &[u8])
        requires
            self.consumed as usize <= self.buffer@.len(),
        ensures
            r@ == self.buffer@.skip((self.consumed as usize) as int),
    {
        let r = slice_subrange(self.buffer.as_slice(), self.consumed as usize, self.buffer.len());
        proof {
            assert(r@ =~= self.buffer@.skip((self.consumed as usize) as int));
        }
        r
    }

    /// Mark `amt` more bytes as read.
    pub fn consume(&mut self, amt: u64)
        requires
            old(self).consumed + amt <= u64::MAX,
        ensures
            final(self).consumed == old(self).consumed + amt,
            final(self).buffer == old(self).buffer,
            final(self).start_offset == old(self).start_offset,
    {
        self.consumed = self.consumed + amt;
    }

    /// Append `data` to the bytes held.
    pub fn extend(&mut self, data: Vec<u8>)
        ensures
            final(self).buffer@ == old(self).buffer@ + data@,
            final(self).start_offset == old(self).start_offset,
            final(self).consumed == old(self).consumed,
    {
        let mut data = data;
        self.buffer.append(&mut data);
    }

    /// Drop the first `amt` bytes, all of them consumed already.
    pub fn discard_front(&mut self, amt: u64)
        requires
            amt as usize <= old(self).buffer@.len(),
            amt <= old(self).consumed,
            old(self).start_offset + amt <= u64::MAX,
        ensures
            final(self).buffer@ == old(self).buffer@.skip((amt as usize) as int),
            final(self).start_offset == old(self).start_offset + amt,
            final(self).consumed == old(self).consumed - amt,
            // The read position and the bytes not yet read stay as they were.
            final(self).start_offset + final(self).consumed == old(self).start_offset + old(self).consumed,
            amt as usize == amt && old(self).consumed <= old(self).buffer@.len() ==> final(self).buffer@.skip(final(self).consumed as int) == old(self).buffer@.skip(
                old(self).consumed as int,
            ),
    {
        let rest = slice_subrange(self.buffer.as_slice(), amt as usize, self.buffer.len());
        self.buffer = slice_to_vec(rest);
        proof {
            assert(self.buffer@ =~= old(self).buffer@.skip((amt as usize) as int));
        }
        self.start_offset = self.start_offset + amt;
        self.consumed = self.consumed - amt;
        proof {
            if amt as usize == amt && old(self).consumed <= old(self).buffer@.len() {
                assert(self.buffer@.skip(self.consumed as int) =~= old(self).buffer@.skip(old(self).consumed as int));
            }
        }
    }

    /// Move the read position to the file offset `pos` if the buffer holds it; returns
    /// whether it did.
    pub fn seek_to(&mut self, pos: u64) -> (r: bool)
        requires
            old(self).buffer@.len() <= u64::MAX,
            old(self).start_offset + old(self).buffer@.len() <= u64::MAX,
        ensures
            r == (old(self).start_offset <= pos < old(self).start_offset + old(self).buffer@.len()),
            r ==> final(self).consumed == pos - old(self).start_offset,
            !r ==> final(self).consumed == old(self).consumed,
            final(self).buffer == old(self).buffer,
            final(self).start_offset == old(self).start_offset,
    {
        if self.start() <= pos && pos < self.end() {
            self.consumed = pos - self.start();
            true
        } else {
            false
        }
    }
}

} // verus!
