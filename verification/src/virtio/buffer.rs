//! The disk cache: a few buffers, each holding one aligned window of a
//! disk. Reads and writes go through the buffer that holds their place;
//! when none does, the least recently used buffer is given the window.
//! Every access stamps its buffer with a rising counter.

use vstd::prelude::*;
use crate::memory::block::Block;

verus! {

/// Bytes of a buffer's window: 4 MiB.
pub const BUFFER_SIZE: usize = 4194304;
/// How many buffers the cache has.
pub const CACHE_SIZE: usize = 4;

/// A buffer: the window `[idx, idx + size)` of disk `block_idx`, its
/// bytes, when it was used last, and whether it holds unwritten changes.
#[derive(Debug)]
pub struct Buffer {
    pub cnt: usize,
    pub block_idx: usize,
    pub idx: usize,
    pub size: usize,
    pub addr: Block<u8>,
    pub is_write: bool,
}

/// `a` or `b`, whichever is smaller.
pub open spec fn min(a: int, b: int) -> int {
    if a < b {
        a
    } else {
        b
    }
}

impl Buffer {
    /// The bytes are the window's and the window fits in the address space.
    pub open spec fn wf(&self) -> bool {
        &&& self.addr.wf()
        &&& self.addr.size == self.size
        &&& self.idx + self.size <= usize::MAX
    }

    /// An unused buffer for the window at `idx`, all zero.
    pub fn new(idx: usize) -> (r: Self)
        requires
            idx + BUFFER_SIZE <= usize::MAX,
        ensures
            r.wf(),
            r.cnt == 0,
            r.block_idx == 0,
            r.idx == idx,
            r.size == BUFFER_SIZE,
            !r.is_write,
            r.addr@ == Seq::new(BUFFER_SIZE as nat, |i: int| 0u8),
    {
        let b = Block::new(BUFFER_SIZE, 0u8);
        Self { cnt: 0, block_idx: 0, idx, size: BUFFER_SIZE, addr: b, is_write: false }
    }

    /// Whether the window holds disk place `idx`.
    pub fn is_contain(&self, idx: usize) -> (r: bool)
        requires
            self.idx + self.size <= usize::MAX,
        ensures
            r == (self.idx <= idx && self.idx + self.size > idx),
    {
        self.idx <= idx && self.idx + self.size > idx
    }

    /// The bytes from disk place `idx` to the end of the window.
    pub fn copy_len(&self, idx: usize) -> (r: usize)
        requires
            self.idx + self.size <= usize::MAX,
            idx <= self.idx + self.size,
        ensures
            r == self.idx + self.size - idx,
    {
        self.idx + self.size - idx
    }

    /// Gives the buffer the window of disk `block_idx` that holds `idx`,
    /// with the bytes `data` read from it.
    pub fn refresh(&mut self, block_idx: usize, idx: usize, data: Block<u8>)
        requires
            old(self).wf(),
            data.wf(),
            data.size == old(self).size,
            idx / BUFFER_SIZE * BUFFER_SIZE + old(self).size <= usize::MAX,
        ensures
            final(self).wf(),
            final(self).block_idx == block_idx,
            final(self).idx == idx / BUFFER_SIZE * BUFFER_SIZE,
            final(self).addr@ == data@,
            final(self).size == old(self).size,
            final(self).cnt == old(self).cnt,
            final(self).is_write == old(self).is_write,
    {
        let idx = idx / BUFFER_SIZE * BUFFER_SIZE;
        self.block_idx = block_idx;
        self.idx = idx;
        self.addr = data;
    }

    /// Copies, from disk place `idx` on, `len` bytes (or up to the end of
    /// the window) into `target` from `offset`; the buffer is stamped with
    /// the next count.
    pub fn copy_to(&mut self, idx: usize, target: &mut Block<u8>, offset: usize, len: usize, counter: &mut usize)
        requires
            old(self).wf(),
            old(target).wf(),
            old(self).idx <= idx < old(self).idx + old(self).size,
            offset + min(old(self).idx + old(self).size - idx, len as int) <= old(target).size,
            *old(counter) < usize::MAX,
        ensures
            final(self).wf(),
            *final(counter) == *old(counter) + 1,
            final(self).cnt == *final(counter),
            final(self).addr == old(self).addr,
            final(self).idx == old(self).idx,
            final(self).size == old(self).size,
            final(self).block_idx == old(self).block_idx,
            final(self).is_write == old(self).is_write,
            final(target).wf(),
            final(target).size == old(target).size,
            final(target)@ == Seq::new(
                old(target).size as nat,
                |i: int|
                    if offset <= i < offset + min(old(self).idx + old(self).size - idx, len as int) {
                        old(self).addr@[idx - old(self).idx + (i - offset)]
                    } else {
                        old(target)@[i]
                    },
            ),
    {
        *counter = *counter + 1;
        self.cnt = *counter;
        let rest = self.idx + self.size - idx;
        let size = if rest < len {
            rest
        } else {
            len
        };
        let st = idx - self.idx;
        let mut k: usize = 0;
        while k < size
            invariant
                self.wf(),
                self.addr == old(self).addr,
                self.idx == old(self).idx,
                self.size == old(self).size,
                target.wf(),
                target.size == old(target).size,
                old(target)@.len() == old(target).size,
                self.cnt == *counter,
                *counter == *old(counter) + 1,
                self.block_idx == old(self).block_idx,
                self.is_write == old(self).is_write,
                st == idx - self.idx,
                size == min(self.idx + self.size - idx, len as int),
                st + size <= self.size,
                offset + size <= target.size,
                k <= size,
                forall|i: int|
                    0 <= i < target.size ==> #[trigger] target@[i] == if offset <= i < offset + k {
                        self.addr@[st + (i - offset)]
                    } else {
                        old(target)@[i]
                    },
            decreases size - k,
        {
            let v = self.addr.data[st + k];
            let ghost t0 = target@;
            target.data.set(offset + k, v);
            proof {
                assert(target@ == t0.update(offset + k, v));
                assert forall|i: int|
                    0 <= i < target.size implies #[trigger] target@[i] == if offset <= i < offset + k + 1 {
                        self.addr@[st + (i - offset)]
                    } else {
                        old(target)@[i]
                    } by {
                    if i != offset + k {
                        assert(target@[i] == t0[i]);
                    }
                }
            }
            k = k + 1;
        }
        proof {
            assert(target@ =~= Seq::new(
                old(target).size as nat,
                |i: int|
                    if offset <= i < offset + min(old(self).idx + old(self).size - idx, len as int) {
                        old(self).addr@[idx - old(self).idx + (i - offset)]
                    } else {
                        old(target)@[i]
                    },
            ));
        }
    }

    /// Copies `len` bytes (or up to the end of the window) from `src` at
    /// `offset` into the window from disk place `idx`; the buffer is
    /// stamped and holds unwritten changes.
    pub fn copy_from(&mut self, idx: usize, src: &Block<u8>, offset: usize, len: usize, counter: &mut usize)
        requires
            old(self).wf(),
            src.wf(),
            old(self).idx <= idx < old(self).idx + old(self).size,
            offset + min(old(self).idx + old(self).size - idx, len as int) <= src.size,
            *old(counter) < usize::MAX,
        ensures
            final(self).wf(),
            *final(counter) == *old(counter) + 1,
            final(self).cnt == *final(counter),
            final(self).is_write,
            final(self).idx == old(self).idx,
            final(self).size == old(self).size,
            final(self).block_idx == old(self).block_idx,
            final(self).addr@ == Seq::new(
                old(self).size as nat,
                |i: int|
                    if idx - old(self).idx <= i < idx - old(self).idx + min(
                        old(self).idx + old(self).size - idx,
                        len as int,
                    ) {
                        src@[offset + (i - (idx - old(self).idx))]
                    } else {
                        old(self).addr@[i]
                    },
            ),
    {
        *counter = *counter + 1;
        self.cnt = *counter;
        let rest = self.idx + self.size - idx;
        let size = if rest < len {
            rest
        } else {
            len
        };
        let st = idx - self.idx;
        let mut k: usize = 0;
        while k < size
            invariant
                self.addr.wf(),
                self.addr.size == old(self).size,
                self.idx == old(self).idx,
                self.size == old(self).size,
                self.idx + self.size <= usize::MAX,
                old(self).addr@.len() == old(self).size,
                self.cnt == *counter,
                *counter == *old(counter) + 1,
                self.block_idx == old(self).block_idx,
                src.wf(),
                st == idx - self.idx,
                size == min(self.idx + self.size - idx, len as int),
                st + size <= self.size,
                offset + size <= src.size,
                k <= size,
                forall|i: int|
                    0 <= i < self.size ==> #[trigger] self.addr@[i] == if st <= i < st + k {
                        src@[offset + (i - st)]
                    } else {
                        old(self).addr@[i]
                    },
            decreases size - k,
        {
            let v = src.data[offset + k];
            let ghost a0 = self.addr@;
            self.addr.data.set(st + k, v);
            proof {
                assert(self.addr@ == a0.update(st + k, v));
                assert forall|i: int|
                    0 <= i < self.size implies #[trigger] self.addr@[i] == if st <= i < st + k + 1 {
                        src@[offset + (i - st)]
                    } else {
                        old(self).addr@[i]
                    } by {
                    if i != st + k {
                        assert(self.addr@[i] == a0[i]);
                    }
                }
            }
            k = k + 1;
        }
        self.is_write = true;
        proof {
            assert(self.addr@ =~= Seq::new(
                old(self).size as nat,
                |i: int|
                    if idx - old(self).idx <= i < idx - old(self).idx + min(
                        old(self).idx + old(self).size - idx,
                        len as int,
                    ) {
                        src@[offset + (i - (idx - old(self).idx))]
                    } else {
                        old(self).addr@[i]
                    },
            ));
        }
    }

    /// Zeroes `len` bytes (or up to the end of the window) from disk place
    /// `idx`; the buffer is stamped and holds unwritten changes.
    pub fn zero(&mut self, idx: usize, len: usize, counter: &mut usize)
        requires
            old(self).wf(),
            old(self).idx <= idx < old(self).idx + old(self).size,
            *old(counter) < usize::MAX,
        ensures
            final(self).wf(),
            *final(counter) == *old(counter) + 1,
            final(self).cnt == *final(counter),
            final(self).is_write,
            final(self).idx == old(self).idx,
            final(self).size == old(self).size,
            final(self).block_idx == old(self).block_idx,
            final(self).addr@ == Seq::new(
                old(self).size as nat,
                |i: int|
                    if idx - old(self).idx <= i < idx - old(self).idx + min(
                        old(self).idx + old(self).size - idx,
                        len as int,
                    ) {
                        0u8
                    } else {
                        old(self).addr@[i]
                    },
            ),
    {
        *counter = *counter + 1;
        self.cnt = *counter;
        let rest = self.idx + self.size - idx;
        let size = if rest < len {
            rest
        } else {
            len
        };
        let st = idx - self.idx;
        self.addr.set(st, 0u8, st + size);
        self.is_write = true;
        proof {
            assert(self.addr@ =~= Seq::new(
                old(self).size as nat,
                |i: int|
                    if idx - old(self).idx <= i < idx - old(self).idx + min(
                        old(self).idx + old(self).size - idx,
                        len as int,
                    ) {
                        0u8
                    } else {
                        old(self).addr@[i]
                    },
            ));
        }
    }

    /// Takes the buffer's unwritten changes: gives the disk, the place and
    /// the length of the write that puts the window on disk, and the
    /// buffer no longer holds unwritten changes; `None` when it holds none.
    pub fn write_down(&mut self) -> (r: Option<(usize, usize, usize)>)
        ensures
            *final(self) == (Buffer { is_write: false, ..*old(self) }),
            r == if old(self).is_write {
                Some((old(self).block_idx, old(self).idx, old(self).size))
            } else {
                None
            },
    {
        if !self.is_write {
            return None;
        }
        self.is_write = false;
        Some((self.block_idx, self.idx, self.size))
    }
}

/// The cache: its buffers and the counter that stamps accesses.
#[derive(Debug)]
pub struct DiskCache {
    pub buffers: Vec<Buffer>,
    pub counter: usize,
}

/// Buffer `i` is the first of the buffers `s` whose window holds disk
/// place `idx`.
pub open spec fn first_holder(s: Seq<Buffer>, idx: usize, i: int) -> bool {
    &&& 0 <= i < s.len()
    &&& s[i].idx <= idx < s[i].idx + s[i].size
    &&& forall|j: int| 0 <= j < i ==> !(#[trigger] s[j].idx <= idx < s[j].idx + s[j].size)
}

/// The writes that put the changed buffers among `s` on disk, in order:
/// disk, place and length of each.
pub open spec fn pending_writes(s: Seq<Buffer>) -> Seq<(usize, usize, usize)>
    decreases s.len(),
{
    if s.len() == 0 {
        Seq::empty()
    } else if s.last().is_write {
        pending_writes(s.drop_last()).push((s.last().block_idx, s.last().idx, s.last().size))
    } else {
        pending_writes(s.drop_last())
    }
}

/// The bytes of buffer `b` after `count` bytes of `src` from `offset`
/// were written at disk place `idx`.
pub open spec fn written(b: Buffer, idx: int, src: Seq<u8>, offset: int, count: int) -> Seq<u8> {
    Seq::new(
        b.size as nat,
        |q: int|
            if idx - b.idx <= q < idx - b.idx + count {
                src[offset + (q - (idx - b.idx))]
            } else {
                b.addr@[q]
            },
    )
}

/// The bytes a read of `count` bytes at disk place `idx` takes from
/// buffer bytes `bytes` of a window starting at `base`.
pub open spec fn read_back(bytes: Seq<u8>, base: int, idx: int, count: int) -> Seq<u8> {
    Seq::new(count as nat, |q: int| bytes[idx - base + q])
}

/// A read gives back what a write put there: after `count` bytes of `src`
/// from `offset` went into a buffer at disk place `idx`, reading `count`
/// bytes there gives those bytes; the bytes of the window outside them
/// are the ones it had.
pub proof fn lemma_read_after_write(b: Buffer, idx: int, src: Seq<u8>, offset: int, count: int)
    requires
        b.idx <= idx,
        count >= 0,
        idx - b.idx + count <= b.size,
        0 <= offset,
        offset + count <= src.len(),
    ensures
        read_back(written(b, idx, src, offset, count), b.idx as int, idx, count) == src.subrange(
            offset,
            offset + count,
        ),
        forall|q: int|
            0 <= q < b.size && !(idx - b.idx <= q < idx - b.idx + count) ==> #[trigger] written(
                b,
                idx,
                src,
                offset,
                count,
            )[q] == b.addr@[q],
{
    assert(read_back(written(b, idx, src, offset, count), b.idx as int, idx, count) =~= src.subrange(
        offset,
        offset + count,
    ));
}

/// `m` is the first of the buffers `s` with the smallest stamp.
pub open spec fn least_used(s: Seq<Buffer>, m: int) -> bool {
    &&& 0 <= m < s.len()
    &&& forall|j: int| 0 <= j < s.len() ==> #[trigger] s[m].cnt <= s[j].cnt
    &&& forall|j: int| 0 <= j < m ==> #[trigger] s[j].cnt > s[m].cnt
}

impl DiskCache {
    /// Every buffer holds together and no stamp is above the counter.
    pub open spec fn wf(&self) -> bool {
        &&& forall|i: int| 0 <= i < self.buffers@.len() ==> #[trigger] self.buffers@[i].wf()
        &&& forall|i: int| 0 <= i < self.buffers@.len() ==> #[trigger] self.buffers@[i].cnt <= self.counter
    }

    /// The first buffer whose window holds disk place `idx`.
    pub fn find_buffer(&self, idx: usize) -> (r: Option<usize>)
        requires
            self.wf(),
        ensures
            match r {
                Some(i) => i < self.buffers@.len() && self.buffers@[i as int].idx <= idx
                    < self.buffers@[i as int].idx + self.buffers@[i as int].size && forall|j: int|
                    0 <= j < i ==> !(#[trigger] self.buffers@[j].idx <= idx < self.buffers@[j].idx
                        + self.buffers@[j].size),
                None => forall|j: int|
                    0 <= j < self.buffers@.len() ==> !(#[trigger] self.buffers@[j].idx <= idx
                        < self.buffers@[j].idx + self.buffers@[j].size),
            },
    {
        let mut i: usize = 0;
        while i < self.buffers.len()
            invariant
                self.wf(),
                i <= self.buffers@.len(),
                forall|j: int|
                    0 <= j < i ==> !(#[trigger] self.buffers@[j].idx <= idx < self.buffers@[j].idx
                        + self.buffers@[j].size),
            decreases self.buffers@.len() - i,
        {
            proof {
                assert(self.buffers@[i as int].wf());
            }
            if self.buffers[i].is_contain(idx) {
                return Some(i);
            }
            i = i + 1;
        }
        None
    }

    /// Gives the least recently used buffer the window of disk
    /// `block_idx` that holds `idx`, with the bytes `data` read from it,
    /// and takes that buffer's stamp off every stamp and the counter.
    /// Gives the buffer's place.
    pub fn new_buffer(&mut self, block_idx: usize, idx: usize, data: Block<u8>) -> (r: usize)
        requires
            old(self).wf(),
            old(self).buffers@.len() > 0,
            data.wf(),
            forall|i: int| 0 <= i < old(self).buffers@.len() ==> #[trigger] old(self).buffers@[i].size == data.size,
            idx / BUFFER_SIZE * BUFFER_SIZE + data.size <= usize::MAX,
        ensures
            final(self).wf(),
            least_used(old(self).buffers@, r as int),
            final(self).counter == old(self).counter - old(self).buffers@[r as int].cnt,
            final(self).buffers@.len() == old(self).buffers@.len(),
            forall|j: int|
                0 <= j < old(self).buffers@.len() ==> {
                    let b0 = old(self).buffers@[j];
                    let b1 = #[trigger] final(self).buffers@[j];
                    &&& b1.cnt == b0.cnt - old(self).buffers@[r as int].cnt
                    &&& b1.size == b0.size
                    &&& b1.is_write == b0.is_write
                    &&& j != r ==> b1.idx == b0.idx && b1.block_idx == b0.block_idx && b1.addr@
                        == b0.addr@
                    &&& j == r ==> b1.idx == idx / BUFFER_SIZE * BUFFER_SIZE && b1.block_idx
                        == block_idx && b1.addr@ == data@
                },
    {
        let ghost b0 = self.buffers@;
        let mut mix: usize = 0;
        let mut i: usize = 0;
        while i < self.buffers.len()
            invariant
                self.buffers@ == b0,
                b0.len() > 0,
                i <= b0.len(),
                mix < b0.len(),
                mix <= i,
                forall|j: int| 0 <= j < i ==> #[trigger] b0[mix as int].cnt <= b0[j].cnt,
                forall|j: int| 0 <= j < mix ==> #[trigger] b0[j].cnt > b0[mix as int].cnt,
            decreases b0.len() - i,
        {
            if self.buffers[i].cnt < self.buffers[mix].cnt {
                mix = i;
            }
            i = i + 1;
        }
        let n = self.buffers[mix].cnt;
        self.counter = self.counter - n;
        proof {
            assert(b0[mix as int].wf());
        }
        self.buffers[mix].refresh(block_idx, idx, data);
        let ghost b1 = self.buffers@;
        let mut k: usize = 0;
        while k < self.buffers.len()
            invariant
                b1.len() == b0.len(),
                self.buffers@.len() == b0.len(),
                self.counter == old(self).counter - n,
                k <= b0.len(),
                mix < b0.len(),
                n == b0[mix as int].cnt,
                forall|j: int| 0 <= j < b0.len() ==> #[trigger] b0[mix as int].cnt <= b0[j].cnt,
                forall|j: int| 0 <= j < b0.len() && j != mix ==> #[trigger] b1[j] == b0[j],
                b1[mix as int].cnt == b0[mix as int].cnt,
                forall|j: int|
                    0 <= j < b0.len() ==> {
                        let c = #[trigger] self.buffers@[j];
                        &&& c.idx == b1[j].idx && c.size == b1[j].size && c.block_idx == b1[j].block_idx
                        &&& c.addr == b1[j].addr && c.is_write == b1[j].is_write
                        &&& c.cnt == if j < k { b1[j].cnt - n } else { b1[j].cnt as int }
                    },
            decreases b0.len() - k,
        {
            let c = self.buffers[k].cnt;
            proof {
                if k != mix {
                    assert(b1[k as int] == b0[k as int]);
                }
            }
            self.buffers[k].cnt = c - n;
            k = k + 1;
        }
        proof {
            assert forall|j: int| 0 <= j < self.buffers@.len() implies #[trigger] self.buffers@[j].wf() by {
                if j != mix {
                    assert(b1[j] == b0[j]);
                    assert(b0[j].wf());
                }
            }
            assert forall|j: int| 0 <= j < self.buffers@.len() implies #[trigger] self.buffers@[j].cnt <= self.counter by {
                assert(b0[j].cnt <= old(self).counter);
                if j != mix {
                    assert(b1[j] == b0[j]);
                }
            }
            assert forall|j: int| 0 <= j < b0.len() && j != mix implies #[trigger] b1[j].addr@ == b0[j].addr@ by {
                assert(b1[j] == b0[j]);
            }
        }
        mix
    }

    /// One step of a read of `len` bytes at disk place `idx` into `buffer`
    /// at `offset`: the first buffer holding `idx` copies what it has of
    /// them, and the count copied is given; `None` when no buffer holds
    /// `idx` (a buffer must be given that window first).
    pub fn read_step(&mut self, idx: usize, buffer: &mut Block<u8>, offset: usize, len: usize) -> (r:
        Option<usize>)
        requires
            old(self).wf(),
            old(buffer).wf(),
            offset + len <= old(buffer).size,
            old(self).counter < usize::MAX,
        ensures
            final(self).wf(),
            final(buffer).wf(),
            final(buffer).size == old(buffer).size,
            match r {
                None => *final(buffer) == *old(buffer) && forall|j: int|
                    0 <= j < old(self).buffers@.len() ==> !(#[trigger] old(self).buffers@[j].idx <= idx
                        < old(self).buffers@[j].idx + old(self).buffers@[j].size),
                Some(count) => exists|i: int|
                    0 <= i < old(self).buffers@.len() && #[trigger] old(self).buffers@[i].idx <= idx
                        < old(self).buffers@[i].idx + old(self).buffers@[i].size && count == min(
                        len as int,
                        old(self).buffers@[i].idx + old(self).buffers@[i].size - idx,
                    ) && final(buffer)@ == Seq::new(
                        old(buffer).size as nat,
                        |q: int|
                            if offset <= q < offset + count {
                                old(self).buffers@[i].addr@[idx - old(self).buffers@[i].idx + (q - offset)]
                            } else {
                                old(buffer)@[q]
                            },
                    ),
            },
    {
        match self.find_buffer(idx) {
            Some(i) => {
                let ghost b0 = self.buffers@;
                proof {
                    assert(b0[i as int].wf());
                }
                let mut counter = self.counter;
                self.buffers[i].copy_to(idx, buffer, offset, len, &mut counter);
                self.counter = counter;
                proof {
                    assert forall|j: int| 0 <= j < self.buffers@.len() implies #[trigger] self.buffers@[j].wf() by {
                        if j != i {
                            assert(self.buffers@[j] == b0[j]);
                        }
                    }
                    assert forall|j: int| 0 <= j < self.buffers@.len() implies #[trigger] self.buffers@[j].cnt <= self.counter by {
                        if j != i {
                            assert(self.buffers@[j] == b0[j]);
                        }
                    }
                }
                let rest = self.buffers[i].copy_len(idx);
                let count = if len < rest {
                    len
                } else {
                    rest
                };
                Some(count)
            },
            None => None,
        }
    }

    /// One step of a write of `len` bytes from `buffer` at `offset` to
    /// disk place `idx`: the first buffer holding `idx` takes what fits of
    /// them, and the count taken is given; `None` when no buffer holds
    /// `idx` (a buffer must be given that window first).
    pub fn write_step(&mut self, idx: usize, buffer: &Block<u8>, offset: usize, len: usize) -> (r: Option<usize>)
        requires
            old(self).wf(),
            buffer.wf(),
            offset + len <= buffer.size,
            old(self).counter < usize::MAX,
        ensures
            final(self).wf(),
            final(self).buffers@.len() == old(self).buffers@.len(),
            match r {
                None => *final(self) == *old(self) && forall|j: int|
                    0 <= j < old(self).buffers@.len() ==> !(#[trigger] old(self).buffers@[j].idx <= idx
                        < old(self).buffers@[j].idx + old(self).buffers@[j].size),
                Some(count) => exists|i: int|
                    #[trigger] first_holder(old(self).buffers@, idx, i) && {
                        let b0 = old(self).buffers@[i];
                        let b1 = final(self).buffers@[i];
                        &&& count == min(len as int, b0.idx + b0.size - idx)
                        &&& final(self).counter == old(self).counter + 1
                        &&& b1 == Buffer { cnt: final(self).counter, is_write: true, addr: b1.addr, ..b0 }
                        &&& b1.addr@ == written(b0, idx as int, buffer@, offset as int, count as int)
                        &&& forall|j: int|
                            0 <= j < old(self).buffers@.len() && j != i ==> #[trigger] final(self).buffers@[j]
                                == old(self).buffers@[j]
                    },
            },
    {
        match self.find_buffer(idx) {
            Some(i) => {
                let ghost b0 = self.buffers@;
                proof {
                    assert(b0[i as int].wf());
                }
                let mut counter = self.counter;
                self.buffers[i].copy_from(idx, buffer, offset, len, &mut counter);
                self.counter = counter;
                proof {
                    assert forall|j: int| 0 <= j < self.buffers@.len() implies #[trigger] self.buffers@[j].wf() by {
                        if j != i {
                            assert(self.buffers@[j] == b0[j]);
                        }
                    }
                    assert forall|j: int| 0 <= j < self.buffers@.len() implies #[trigger] self.buffers@[j].cnt <= self.counter by {
                        if j != i {
                            assert(self.buffers@[j] == b0[j]);
                        }
                    }
                    assert(first_holder(b0, idx, i as int));
                }
                let rest = self.buffers[i].copy_len(idx);
                let count = if len < rest {
                    len
                } else {
                    rest
                };
                Some(count)
            },
            None => None,
        }
    }

    /// One step of zeroing `len` bytes at disk place `idx`: the first
    /// buffer holding `idx` zeroes what it has of them, and the count
    /// zeroed is given; `None` when no buffer holds `idx`.
    pub fn zero_step(&mut self, idx: usize, len: usize) -> (r: Option<usize>)
        requires
            old(self).wf(),
            old(self).counter < usize::MAX,
        ensures
            final(self).wf(),
            final(self).buffers@.len() == old(self).buffers@.len(),
            match r {
                None => *final(self) == *old(self) && forall|j: int|
                    0 <= j < old(self).buffers@.len() ==> !(#[trigger] old(self).buffers@[j].idx <= idx
                        < old(self).buffers@[j].idx + old(self).buffers@[j].size),
                Some(count) => exists|i: int|
                    #[trigger] first_holder(old(self).buffers@, idx, i) && {
                        let b0 = old(self).buffers@[i];
                        let b1 = final(self).buffers@[i];
                        &&& count == min(len as int, b0.idx + b0.size - idx)
                        &&& final(self).counter == old(self).counter + 1
                        &&& b1 == Buffer { cnt: final(self).counter, is_write: true, addr: b1.addr, ..b0 }
                        &&& b1.addr@ == Seq::new(
                            b0.size as nat,
                            |q: int|
                                if idx - b0.idx <= q < idx - b0.idx + count {
                                    0u8
                                } else {
                                    b0.addr@[q]
                                },
                        )
                        &&& forall|j: int|
                            0 <= j < old(self).buffers@.len() && j != i ==> #[trigger] final(self).buffers@[j]
                                == old(self).buffers@[j]
                    },
            },
    {
        match self.find_buffer(idx) {
            Some(i) => {
                let ghost b0 = self.buffers@;
                proof {
                    assert(b0[i as int].wf());
                }
                let mut counter = self.counter;
                self.buffers[i].zero(idx, len, &mut counter);
                self.counter = counter;
                proof {
                    assert forall|j: int| 0 <= j < self.buffers@.len() implies #[trigger] self.buffers@[j].wf() by {
                        if j != i {
                            assert(self.buffers@[j] == b0[j]);
                        }
                    }
                    assert forall|j: int| 0 <= j < self.buffers@.len() implies #[trigger] self.buffers@[j].cnt <= self.counter by {
                        if j != i {
                            assert(self.buffers@[j] == b0[j]);
                        }
                    }
                    assert(first_holder(b0, idx, i as int));
                }
                let rest = self.buffers[i].copy_len(idx);
                let count = if len < rest {
                    len
                } else {
                    rest
                };
                Some(count)
            },
            None => None,
        }
    }

    /// Takes the unwritten changes of every buffer, in order: gives the
    /// writes that put them on disk, and no buffer holds unwritten changes
    /// any more.
    pub fn write_down(&mut self) -> (r: Vec<(usize, usize, usize)>)
        requires
            old(self).wf(),
        ensures
            final(self).wf(),
            final(self).counter == old(self).counter,
            final(self).buffers@.len() == old(self).buffers@.len(),
            forall|j: int|
                0 <= j < old(self).buffers@.len() ==> #[trigger] final(self).buffers@[j] == (Buffer {
                    is_write: false,
                    ..old(self).buffers@[j]
                }),
            r@ == pending_writes(old(self).buffers@),
    {
        let ghost b0 = self.buffers@;
        let mut out: Vec<(usize, usize, usize)> = Vec::new();
        let mut k: usize = 0;
        while k < self.buffers.len()
            invariant
                k <= b0.len(),
                self.buffers@.len() == b0.len(),
                self.counter == old(self).counter,
                forall|j: int|
                    0 <= j < b0.len() ==> #[trigger] self.buffers@[j] == if j < k {
                        Buffer { is_write: false, ..b0[j] }
                    } else {
                        b0[j]
                    },
                out@ == pending_writes(b0.subrange(0, k as int)),
            decreases b0.len() - k,
        {
            proof {
                assert(b0.subrange(0, k + 1).drop_last() =~= b0.subrange(0, k as int));
                assert(b0.subrange(0, k + 1).last() == b0[k as int]);
            }
            let ghost before = self.buffers@;
            match self.buffers[k].write_down() {
                Some(w) => {
                    out.push(w);
                },
                None => {},
            }
            proof {
                assert forall|j: int| 0 <= j < b0.len() && j != k implies #[trigger] self.buffers@[j] == before[j] by {}
            }
            k = k + 1;
        }
        proof {
            assert(b0.subrange(0, b0.len() as int) =~= b0);
            assert forall|j: int| 0 <= j < self.buffers@.len() implies #[trigger] self.buffers@[j].wf() by {
                assert(b0[j].wf());
            }
            assert forall|j: int| 0 <= j < self.buffers@.len() implies #[trigger] self.buffers@[j].cnt <= self.counter by {
                assert(b0[j].cnt <= old(self).counter);
            }
        }
        out
    }
}

} // verus!
