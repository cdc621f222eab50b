//! What the network layer decides and keeps: its errors, its pool of read
//! buffers, and what a read or a free slot means. The sockets themselves
//! belong to the program around the library.

use crate::codec_engine::buffer_pool::indices_up_to;
use crate::codec_engine::bytes_buf::{buffer_bytes, buffer_slice, frozen_bytes};
use bytes::{Bytes, BytesMut};
use vstd::prelude::*;

verus! {

/// The number of buffers of a default pool.
pub const DEFAULT_POOL_SIZE: usize = 256;

/// The room of each buffer of a default pool, in bytes.
pub const DEFAULT_BUFFER_SIZE: usize = 8192;

/// An error of the network layer.
#[derive(Debug, PartialEq, Eq)]
pub enum NetworkError {
    /// The transport failed; the text is the system's.
    Io(String),
    /// A connection could not be had; the text says why.
    ConnectionError(String),
    /// An address could not be read; the text says why.
    AddrParse(String),
    /// Every buffer of a pool is handed out.
    BufferPoolExhausted,
}

/// The bytes that a read of `bytes_read` bytes added to a buffer that now
/// holds `held`: the last `bytes_read` of them, or all where fewer are held.
pub open spec fn newly_read(held: Seq<u8>, bytes_read: nat) -> Seq<u8> {
    if bytes_read <= held.len() {
        held.subrange(held.len() - bytes_read, held.len() as int)
    } else {
        held
    }
}

/// What a read that appended `bytes_read` bytes to `buffer` hands to the
/// caller: nothing at the end of the stream, else a frozen copy of the new
/// bytes. The buffer itself is left as it is.
pub fn read_snapshot(bytes_read: usize, buffer: &BytesMut) -> (r: Option<Bytes>)
    ensures
        match r {
            Some(snapshot) => bytes_read > 0 && frozen_bytes(snapshot) == newly_read(
                buffer_bytes(*buffer),
                bytes_read as nat,
            ),
            None => bytes_read == 0,
        },
{
    if bytes_read == 0 {
        return None;
    }
    let mut copy = buffer.clone();
    let held = buffer_slice(buffer).len();
    if bytes_read < held {
        let _ = copy.split_to(held - bytes_read);
    }
    proof {
        assert(buffer_bytes(copy) =~= newly_read(buffer_bytes(*buffer), bytes_read as nat));
    }
    Some(copy.freeze())
}

/// The first slot that is not taken, if there is one.
pub fn first_free_slot(taken: &[bool]) -> (r: Option<usize>)
    ensures
        match r {
            Some(slot) => slot < taken@.len() && !taken@[slot as int] && forall|j: int|
                0 <= j < slot ==> taken@[j],
            None => forall|j: int| 0 <= j < taken@.len() ==> taken@[j],
        },
{
    let mut i: usize = 0;
    while i < taken.len()
        invariant
            i <= taken.len(),
            forall|j: int| 0 <= j < i ==> taken@[j],
        decreases taken.len() - i,
    {
        if !taken[i] {
            return Some(i);
        }
        i = i + 1;
    }
    None
}

/// A fixed number of read buffers and the list of those that are free. A
/// buffer is handed out empty, from the end of the free list, and is no
/// longer free until its index is returned.
pub struct NetworkBufferPool {
    buffers: Vec<BytesMut>,
    available_indices: Vec<usize>,
}

impl NetworkBufferPool {
    /// What each buffer of the pool holds.
    pub closed spec fn contents(&self) -> Seq<Seq<u8>> {
        Seq::new(self.buffers@.len(), |i: int| buffer_bytes(self.buffers@[i]))
    }

    /// The indices of the free buffers; the last of them is handed out next.
    pub closed spec fn available(&self) -> Seq<usize> {
        self.available_indices@
    }

    /// Whether every free index is the index of a buffer, and none is free
    /// twice.
    pub open spec fn well_formed(&self) -> bool {
        &&& forall|i: int|
            0 <= i < self.available().len() ==> (#[trigger] self.available()[i])
                < self.contents().len()
        &&& self.available().no_duplicates()
    }

    /// Tells whether the buffer with the given index is free.
    fn is_free(&self, buffer_index: usize) -> (free: bool)
        ensures
            free == self.available().contains(buffer_index),
    {
        let mut i: usize = 0;
        while i < self.available_indices.len()
            invariant
                i <= self.available_indices@.len(),
                forall|j: int| 0 <= j < i ==> self.available_indices@[j] != buffer_index,
            decreases self.available_indices@.len() - i,
        {
            if self.available_indices[i] == buffer_index {
                return true;
            }
            i = i + 1;
        }
        false
    }

    /// A pool of `size` empty buffers, each with room for `buffer_size`
    /// bytes. All of them are free.
    pub fn new(size: usize, buffer_size: usize) -> (pool: NetworkBufferPool)
        requires
            buffer_size <= isize::MAX,
        ensures
            pool.well_formed(),
            pool.contents() == Seq::new(size as nat, |i: int| Seq::<u8>::empty()),
            pool.available() == indices_up_to(size as nat),
    {
        let mut buffers: Vec<BytesMut> = Vec::new();
        let mut available_indices: Vec<usize> = Vec::new();
        let mut i: usize = 0;
        while i < size
            invariant
                i <= size,
                buffer_size <= isize::MAX,
                buffers@.len() == i,
                available_indices@ == indices_up_to(i as nat),
                forall|j: int| 0 <= j < i ==> buffer_bytes(#[trigger] buffers@[j]) == Seq::<
                    u8,
                >::empty(),
            decreases size - i,
        {
            buffers.push(BytesMut::with_capacity(buffer_size));
            available_indices.push(i);
            proof {
                assert(available_indices@ =~= indices_up_to((i + 1) as nat));
            }
            i = i + 1;
        }
        let pool = NetworkBufferPool { buffers, available_indices };
        proof {
            assert(pool.contents() =~= Seq::new(size as nat, |i: int| Seq::<u8>::empty()));
        }
        pool
    }

    /// A pool of 256 buffers of 8192 bytes.
    pub fn default() -> (pool: NetworkBufferPool)
        ensures
            pool.well_formed(),
            pool.contents() == Seq::new(256, |i: int| Seq::<u8>::empty()),
            pool.available() == indices_up_to(256),
    {
        NetworkBufferPool::new(DEFAULT_POOL_SIZE, DEFAULT_BUFFER_SIZE)
    }

    /// Hands out the free buffer that was returned last, emptied, with its
    /// index. With no free buffer the pool is exhausted, which the caller
    /// can recover from.
    pub fn get_buffer(&mut self) -> (r: Result<(usize, &mut BytesMut), NetworkError>)
        requires
            old(self).well_formed(),
        ensures
            final(self).well_formed(),
            match r {
                Ok((index, buf)) => {
                    &&& old(self).available().len() > 0
                    &&& index == old(self).available().last()
                    &&& final(self).available() == old(self).available().drop_last()
                    &&& !final(self).available().contains(index)
                    &&& buffer_bytes(*buf) == Seq::<u8>::empty()
                    &&& final(self).contents() == old(self).contents().update(
                        index as int,
                        buffer_bytes(*final(buf)),
                    )
                },
                Err(e) => {
                    &&& old(self).available().len() == 0
                    &&& e == NetworkError::BufferPoolExhausted
                    &&& final(self).available() == old(self).available()
                    &&& final(self).contents() == old(self).contents()
                },
            },
    {
        match self.available_indices.pop() {
            Some(index) => {
                self.buffers[index].clear();
                Ok((index, &mut self.buffers[index]))
            },
            None => Err(NetworkError::BufferPoolExhausted),
        }
    }

    /// Whether `buffer_index` is the index of a buffer that is handed out.
    pub open spec fn handed_out(&self, buffer_index: usize) -> bool {
        buffer_index < self.contents().len() && !self.available().contains(buffer_index)
    }

    /// Takes a buffer back: its index is free again. An index that is none
    /// of the pool's, or that is free already, changes nothing.
    pub fn return_buffer(&mut self, buffer_index: usize)
        requires
            old(self).well_formed(),
        ensures
            final(self).well_formed(),
            final(self).contents() == old(self).contents(),
            final(self).available() == if old(self).handed_out(buffer_index) {
                old(self).available().push(buffer_index)
            } else {
                old(self).available()
            },
    {
        if buffer_index < self.buffers.len() && !self.is_free(buffer_index) {
            self.available_indices.push(buffer_index);
            proof {
                assert forall|i: int| 0 <= i < self.available().len() implies (
                #[trigger] self.available()[i]) < self.contents().len() by {
                    if i < old(self).available().len() {
                        assert(self.available()[i] == old(self).available()[i]);
                    }
                }
            }
        }
    }

    /// The buffer with the given index, free or not, if the pool has one.
    pub fn get_buffer_by_index(&mut self, index: usize) -> (r: Option<&mut BytesMut>)
        ensures
            final(self).available() == old(self).available(),
            match r {
                Some(buf) => {
                    &&& index < old(self).contents().len()
                    &&& buffer_bytes(*buf) == old(self).contents()[index as int]
                    &&& final(self).contents() == old(self).contents().update(
                        index as int,
                        buffer_bytes(*final(buf)),
                    )
                },
                None => {
                    &&& index >= old(self).contents().len()
                    &&& final(self).contents() == old(self).contents()
                },
            },
    {
        if index < self.buffers.len() {
            Some(&mut self.buffers[index])
        } else {
            None
        }
    }
}

/// The keeper of a connection's read buffers.
pub struct TcpConnectionManager {
    buffer_pool: NetworkBufferPool,
}

impl TcpConnectionManager {
    /// The pool of read buffers.
    pub closed spec fn pool(&self) -> NetworkBufferPool {
        self.buffer_pool
    }

    /// A manager with a default pool: 256 free buffers of 8192 bytes.
    pub fn new() -> (manager: TcpConnectionManager)
        ensures
            manager.pool().well_formed(),
            manager.pool().contents() == Seq::new(256, |i: int| Seq::<u8>::empty()),
            manager.pool().available() == indices_up_to(256),
    {
        TcpConnectionManager { buffer_pool: NetworkBufferPool::default() }
    }

    /// Hands out a free buffer of the pool, emptied, with its index.
    pub fn get_buffer(&mut self) -> (r: Result<(usize, &mut BytesMut), NetworkError>)
        requires
            old(self).pool().well_formed(),
        ensures
            final(self).pool().well_formed(),
            match r {
                Ok((index, buf)) => {
                    &&& old(self).pool().available().len() > 0
                    &&& index == old(self).pool().available().last()
                    &&& final(self).pool().available() == old(self).pool().available().drop_last()
                    &&& !final(self).pool().available().contains(index)
                    &&& buffer_bytes(*buf) == Seq::<u8>::empty()
                    &&& final(self).pool().contents() == old(self).pool().contents().update(
                        index as int,
                        buffer_bytes(*final(buf)),
                    )
                },
                Err(e) => {
                    &&& old(self).pool().available().len() == 0
                    &&& e == NetworkError::BufferPoolExhausted
                    &&& final(self).pool().available() == old(self).pool().available()
                    &&& final(self).pool().contents() == old(self).pool().contents()
                },
            },
    {
        self.buffer_pool.get_buffer()
    }

    /// Takes a buffer of the pool back.
    pub fn return_buffer(&mut self, buffer_index: usize)
        requires
            old(self).pool().well_formed(),
        ensures
            final(self).pool().well_formed(),
            final(self).pool().contents() == old(self).pool().contents(),
            final(self).pool().available() == if old(self).pool().handed_out(buffer_index) {
                old(self).pool().available().push(buffer_index)
            } else {
                old(self).pool().available()
            },
    {
        self.buffer_pool.return_buffer(buffer_index);
    }
}

} // verus!
