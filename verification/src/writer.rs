//! The bounded log writer, verified over an in-memory file.
//!
//! `MemFile` models the open log file — its byte contents and a write
//! cursor — with the operations the write path needs: query the cursor,
//! collapse a prefix, seek to end-of-file, append. `BoundedLogWriter`
//! composes the capacity policy with those operations: before each append it
//! collapses from the head exactly what `decide` demands, clamped to what the
//! file holds, so that the file length stays bounded across any sequence of
//! writes.

use crate::policy::{decide, effective_capacity, spec_decide, spec_effective_capacity};
use vstd::prelude::*;

verus! {

/// An in-memory file: its byte contents and the write cursor.
pub struct MemFile {
    /// The bytes the file holds.
    pub data: Vec<u8>,
    /// The cursor at which the next write lands.
    pub pos: usize,
}

impl MemFile {
    /// A fresh, empty file with the cursor at its start.
    pub fn empty() -> (f: MemFile)
        ensures
            f.data@ == Seq::<u8>::empty(),
            f.pos == 0,
    {
        MemFile { data: Vec::new(), pos: 0 }
    }

    /// Where the cursor currently stands.
    pub fn stream_position(&self) -> (p: usize)
        ensures
            p == self.pos,
    {
        self.pos
    }

    /// How many bytes the file currently holds.
    pub fn len(&self) -> (l: usize)
        ensures
            l == self.data@.len(),
    {
        self.data.len()
    }

    /// Remove the byte range `[0, target)` from the file: every later byte
    /// shifts down by `target` and the file shrinks by that amount. The
    /// cursor is left where it was; after a collapse the caller must seek to
    /// end-of-file before it appends again.
    pub fn collapse_prefix(&mut self, target: usize)
        requires
            target <= old(self).data@.len(),
        ensures
            final(self).data@ == old(self).data@.skip(target as int),
            final(self).pos == old(self).pos,
    {
        let tail: Vec<u8> = self.data.split_off(target);
        proof {
            assert(tail@ =~= old(self).data@.skip(target as int));
        }
        self.data = tail;
    }

    /// Move the cursor to end-of-file.
    pub fn seek_end(&mut self)
        ensures
            final(self).data@ == old(self).data@,
            final(self).pos == old(self).data@.len(),
    {
        self.pos = self.data.len();
    }

    /// Append the whole chunk at the cursor, which must stand at
    /// end-of-file; the cursor follows the new end.
    pub fn write_all(&mut self, chunk: &[u8])
        requires
            old(self).pos == old(self).data@.len(),
            old(self).data@.len() + chunk@.len() <= usize::MAX,
        ensures
            final(self).data@ == old(self).data@ + chunk@,
            final(self).pos == final(self).data@.len(),
    {
        let mut extra: Vec<u8> = vstd::slice::slice_to_vec(chunk);
        self.data.append(&mut extra);
        self.pos = self.data.len();
    }
}

/// How many bytes one write collapses from the head of a file of `file_len`
/// bytes: the policy's target, clamped so that no more is collapsed than the
/// file holds.
pub open spec fn spec_collapse_amount(
    file_len: int,
    chunk_length: int,
    capacity: int,
    block_size: int,
) -> int {
    let target = spec_decide(file_len, chunk_length, capacity, block_size);
    if target <= file_len {
        target
    } else {
        file_len
    }
}

/// The file contents after one write: the clamped collapse taken off the
/// head, then the chunk appended.
pub open spec fn spec_write(
    data: Seq<u8>,
    chunk: Seq<u8>,
    capacity: int,
    block_size: int,
) -> Seq<u8> {
    data.skip(spec_collapse_amount(data.len() as int, chunk.len() as int, capacity, block_size))
        + chunk
}

/// The bounded log sink: an owned file, the enforced capacity and the
/// filesystem block size, constant for the writer's lifetime.
pub struct BoundedLogWriter {
    /// The file the writer owns exclusively.
    pub file: MemFile,
    /// The enforced capacity: a multiple of `block_size`, at least two blocks.
    pub capacity: usize,
    /// The filesystem's allocation granularity; collapse offsets align to it.
    pub block_size: usize,
}

impl BoundedLogWriter {
    /// The writer's invariant: a positive block size, a capacity of at least
    /// two whole blocks, and the cursor at end-of-file between writes.
    pub open spec fn wf(&self) -> bool {
        &&& 0 < self.block_size
        &&& self.capacity as int % self.block_size as int == 0
        &&& 2 * self.block_size as int <= self.capacity as int
        &&& self.file.pos == self.file.data@.len()
    }

    /// A writer over a fresh, empty file, enforcing the effective capacity
    /// that `requested_capacity` rounds to.
    pub fn new(requested_capacity: usize, block_size: usize) -> (w: BoundedLogWriter)
        requires
            0 < block_size,
            2 * block_size <= usize::MAX,
        ensures
            w.wf(),
            w.block_size == block_size,
            w.capacity == spec_effective_capacity(requested_capacity as int, block_size as int),
            w.file.data@ == Seq::<u8>::empty(),
    {
        let capacity: usize = effective_capacity(requested_capacity, block_size);
        BoundedLogWriter { file: MemFile::empty(), capacity, block_size }
    }

    /// Write one chunk: ask the policy how much of the head must go, collapse
    /// that amount — clamped to the file's length, the whole file in the
    /// degenerate case — seek to end-of-file, and append the chunk. The new
    /// contents are exactly `spec_write` of the old, and the file never ends
    /// longer than the capacity or the chunk itself, whichever is larger.
    pub fn write(&mut self, chunk: &[u8])
        requires
            old(self).wf(),
            old(self).file.data@.len() + chunk@.len() <= usize::MAX,
        ensures
            final(self).wf(),
            final(self).capacity == old(self).capacity,
            final(self).block_size == old(self).block_size,
            final(self).file.data@ == spec_write(
                old(self).file.data@,
                chunk@,
                old(self).capacity as int,
                old(self).block_size as int,
            ),
            final(self).file.data@.len() <= vstd::math::max(
                old(self).capacity as int,
                chunk@.len() as int,
            ),
    {
        let position: usize = self.file.stream_position();
        let target: usize = decide(position, chunk.len(), self.capacity, self.block_size);
        if target > 0 {
            let file_len: usize = self.file.len();
            let clamped: usize = if target > file_len {
                file_len
            } else {
                target
            };
            self.file.collapse_prefix(clamped);
            self.file.seek_end();
        }
        self.file.write_all(chunk);
    }
}

/// The collapse is always clamped: whatever the policy asks for, one write
/// removes no more bytes from the head than the file currently holds, even
/// in the degenerate case of a chunk that alone exceeds the capacity.
pub proof fn lemma_collapse_amount_clamped(
    file_len: int,
    chunk_length: int,
    capacity: int,
    block_size: int,
)
    requires
        0 <= file_len,
        0 <= chunk_length,
        0 < block_size,
        0 < capacity,
    ensures
        0 <= spec_collapse_amount(file_len, chunk_length, capacity, block_size) <= file_len,
{
    if file_len + chunk_length > capacity {
        crate::policy::lemma_round_up_to_block(
            file_len + chunk_length - capacity,
            block_size,
        );
    }
}

/// No sequence of writes grows the file without bound: one write leaves the
/// file no longer than the capacity or the chunk itself, whichever is
/// larger.
pub proof fn lemma_write_len_bounded(
    data: Seq<u8>,
    chunk: Seq<u8>,
    capacity: int,
    block_size: int,
)
    requires
        0 < block_size,
        0 < capacity,
    ensures
        spec_write(data, chunk, capacity, block_size).len() <= vstd::math::max(
            capacity,
            chunk.len() as int,
        ),
{
    let file_len = data.len() as int;
    let chunk_length = chunk.len() as int;
    lemma_collapse_amount_clamped(file_len, chunk_length, capacity, block_size);
    if file_len + chunk_length > capacity {
        crate::policy::lemma_round_up_to_block(
            file_len + chunk_length - capacity,
            block_size,
        );
    }
}

/// As long as every chunk is at most the capacity, the file length never
/// exceeds the capacity after any write: the transient overshoot a large
/// file carries is resolved by the very next write.
pub proof fn lemma_write_len_within_capacity(
    data: Seq<u8>,
    chunk: Seq<u8>,
    capacity: int,
    block_size: int,
)
    requires
        0 < block_size,
        0 < capacity,
        chunk.len() <= capacity,
    ensures
        spec_write(data, chunk, capacity, block_size).len() <= capacity,
{
    lemma_write_len_bounded(data, chunk, capacity, block_size);
}

} // verus!
