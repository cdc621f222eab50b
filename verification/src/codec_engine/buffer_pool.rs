//! A pool of byte buffers that are allocated once and handed out by index.

use super::bytes_buf::buffer_bytes;
use super::error::{CodecError, CodecErrorView};
use bytes::BytesMut;
use vstd::prelude::*;

verus! {

/// The indices `0` to `size - 1`, in rising order.
pub open spec fn indices_up_to(size: nat) -> Seq<usize> {
    Seq::new(size, |i: int| i as usize)
}

/// A fixed number of buffers and the list of those that are free. A buffer
/// is handed out from the end of the free list, and is no longer free
/// until its index is returned.
pub struct FixBufferPool {
    buffers: Vec<BytesMut>,
    available_indices: Vec<usize>,
}

impl FixBufferPool {
    /// What each buffer of the pool holds.
    pub closed spec fn contents(&self) -> Seq<Seq<u8>> {
        Seq::new(self.buffers@.len(), |i: int| buffer_bytes(self.buffers@[i]))
    }

    /// The indices of the free buffers; the last of them is handed out next.
    pub closed spec fn available(&self) -> Seq<usize> {
        self.available_indices@
    }

    /// Whether every free index is the index of a buffer, and none is free
    /// twice.
    pub open spec fn well_formed(&self) -> bool {
        &&& forall|i: int|
            0 <= i < self.available().len() ==> (#[trigger] self.available()[i])
                < self.contents().len()
        &&& self.available().no_duplicates()
    }

    /// Tells whether the buffer with the given index is free.
    fn is_free(&self, buffer_index: usize) -> (free: bool)
        ensures
            free == self.available().contains(buffer_index),
    {
        let mut i: usize = 0;
        while i < self.available_indices.len()
            invariant
                i <= self.available_indices@.len(),
                forall|j: int| 0 <= j < i ==> self.available_indices@[j] != buffer_index,
            decreases self.available_indices@.len() - i,
        {
            if self.available_indices[i] == buffer_index {
                return true;
            }
            i = i + 1;
        }
        false
    }

    /// A pool of `size` empty buffers, each with room for `buffer_size`
    /// bytes. All of them are free.
    pub fn new(size: usize, buffer_size: usize) -> (pool: FixBufferPool)
        requires
            buffer_size <= isize::MAX,
        ensures
            pool.well_formed(),
            pool.contents() == Seq::new(size as nat, |i: int| Seq::<u8>::empty()),
            pool.available() == indices_up_to(size as nat),
    {
        let mut buffers: Vec<BytesMut> = Vec::new();
        let mut available_indices: Vec<usize> = Vec::new();
        let mut i: usize = 0;
        while i < size
            invariant
                i <= size,
                buffer_size <= isize::MAX,
                buffers@.len() == i,
                available_indices@ == indices_up_to(i as nat),
                forall|j: int| 0 <= j < i ==> buffer_bytes(#[trigger] buffers@[j]) == Seq::<
                    u8,
                >::empty(),
            decreases size - i,
        {
            buffers.push(BytesMut::with_capacity(buffer_size));
            available_indices.push(i);
            proof {
                assert(available_indices@ =~= indices_up_to((i + 1) as nat));
            }
            i = i + 1;
        }
        let pool = FixBufferPool { buffers, available_indices };
        proof {
            assert(pool.contents() =~= Seq::new(size as nat, |i: int| Seq::<u8>::empty()));
        }
        pool
    }

    /// Hands out the free buffer that was returned last. With no free buffer
    /// the pool is exhausted, which the caller can recover from.
    pub fn get_buffer(&mut self) -> (r: Result<&mut BytesMut, CodecError>)
        requires
            old(self).well_formed(),
        ensures
            final(self).well_formed(),
            match r {
                Ok(buf) => {
                    let index = old(self).available().last() as int;
                    &&& old(self).available().len() > 0
                    &&& final(self).available() == old(self).available().drop_last()
                    &&& !final(self).available().contains(old(self).available().last())
                    &&& buffer_bytes(*buf) == old(self).contents()[index]
                    &&& final(self).contents() == old(self).contents().update(
                        index,
                        buffer_bytes(*final(buf)),
                    )
                },
                Err(e) => {
                    &&& old(self).available().len() == 0
                    &&& e@ == CodecErrorView::BufferPoolExhausted
                    &&& final(self).available() == old(self).available()
                    &&& final(self).contents() == old(self).contents()
                },
            },
    {
        match self.available_indices.pop() {
            Some(index) => Ok(&mut self.buffers[index]),
            None => Err(CodecError::BufferPoolExhausted),
        }
    }

    /// Whether `buffer_index` is the index of a buffer that is handed out.
    pub open spec fn handed_out(&self, buffer_index: usize) -> bool {
        buffer_index < self.contents().len() && !self.available().contains(buffer_index)
    }

    /// Takes a buffer back: it is emptied and its index is free again. An
    /// index that is none of the pool's, or that is free already, changes
    /// nothing.
    pub fn return_buffer(&mut self, buffer_index: usize)
        requires
            old(self).well_formed(),
        ensures
            final(self).well_formed(),
            old(self).handed_out(buffer_index) ==> {
                &&& final(self).contents() == old(self).contents().update(
                    buffer_index as int,
                    Seq::<u8>::empty(),
                )
                &&& final(self).available() == old(self).available().push(buffer_index)
            },
            !old(self).handed_out(buffer_index) ==> {
                &&& final(self).contents() == old(self).contents()
                &&& final(self).available() == old(self).available()
            },
    {
        if buffer_index < self.buffers.len() && !self.is_free(buffer_index) {
            self.buffers[buffer_index].clear();
            self.available_indices.push(buffer_index);
            proof {
                assert(self.contents() =~= old(self).contents().update(
                    buffer_index as int,
                    Seq::<u8>::empty(),
                ));
                assert forall|i: int| 0 <= i < self.available().len() implies (
                #[trigger] self.available()[i]) < self.contents().len() by {
                    if i < old(self).available().len() {
                        assert(self.available()[i] == old(self).available()[i]);
                    }
                }
            }
        }
    }
}

} // verus!
