//! The virtio split queue: a ring of descriptors, the ring of available
//! descriptor heads that the driver fills, and the ring of used elements
//! that the device fills.

use vstd::prelude::*;

verus! {

pub const VIRTIO_BLK_T_IN: u32 = 0;
pub const VIRTIO_BLK_T_OUT: u32 = 1;
pub const VIRTIO_BLK_T_FLUSH: u32 = 4;
pub const VIRTIO_BLK_T_DISCARD: u32 = 11;
pub const VIRTIO_BLK_T_WRITE_ZEROES: u32 = 13;
pub const VIRTIO_BLK_F_RO: u32 = 5;
/// Slots in each ring.
pub const VIRTIO_RING_SIZE: usize = 128;
pub const VIRTIO_F_RING_EVENT_IDX: u32 = 29;
pub const VIRTIO_DESC_F_NEXT: u16 = 1;
pub const VIRTIO_DESC_F_WRITE: u16 = 2;
pub const VIRTIO_DESC_F_INDIRECT: u16 = 4;
pub const VIRTIO_AVAIL_F_NO_INTERRUPT: u16 = 1;
pub const VIRTIO_USED_F_NO_NOTIFY: u16 = 1;

/// One descriptor: a buffer, its length, its flags and the descriptor that
/// follows it in a chain.
#[derive(Clone, Copy, Debug, PartialEq, Eq)]
pub struct Descriptor {
    pub addr: u64,
    pub len: u32,
    pub flags: u16,
    pub next: u16,
}

/// The ring of descriptor heads made available to the device.
#[derive(Debug)]
pub struct Available {
    pub flags: u16,
    pub idx: u16,
    pub ring: Vec<u16>,
    pub event: u16,
}

/// One element of the used ring: the head of a finished chain and the
/// length the device wrote.
#[derive(Clone, Copy, Debug, PartialEq, Eq)]
pub struct UsedElem {
    pub id: u32,
    pub len: u32,
}

/// The ring of chains the device has finished.
#[derive(Debug)]
pub struct Used {
    pub flags: u16,
    pub idx: u16,
    pub ring: Vec<UsedElem>,
    pub event: u16,
}

/// Descriptor flags.
#[derive(Clone, Copy, Debug, PartialEq, Eq)]
pub enum DescFlag {
    Next,
    Write,
}

/// The value of a descriptor flag.
pub open spec fn desc_flag_value(f: DescFlag) -> u16 {
    match f {
        DescFlag::Next => 1,
        DescFlag::Write => 2,
    }
}

impl DescFlag {
    /// The value of this flag.
    pub fn val(self) -> (v: u16)
        ensures
            v == desc_flag_value(self),
    {
        match self {
            DescFlag::Next => 1,
            DescFlag::Write => 2,
        }
    }
}

/// The header of a block request.
#[derive(Clone, Copy, Debug, PartialEq, Eq)]
pub struct Header {
    pub blktype: u32,
    pub reserved: u32,
    pub sector: u64,
}

/// A split queue and the driver's positions in it: the next descriptor
/// slot to fill and the next used element to read.
#[derive(Debug)]
pub struct VirtQueue {
    pub desc: Vec<Descriptor>,
    pub avail: Available,
    pub used: Used,
    pub desc_idx: u16,
    pub used_idx: u16,
}

/// `(x + 1) % 2^16`.
pub open spec fn wrap_inc(x: u16) -> u16 {
    ((x as int + 1) % 0x10000) as u16
}

impl VirtQueue {
    /// The rings have their size and the descriptor position lies in the
    /// ring.
    pub open spec fn wf(&self) -> bool {
        &&& self.desc@.len() == VIRTIO_RING_SIZE
        &&& self.avail.ring@.len() == VIRTIO_RING_SIZE
        &&& self.used.ring@.len() == VIRTIO_RING_SIZE
        &&& self.desc_idx < VIRTIO_RING_SIZE
    }

    /// A queue on a zeroed page: every field zero.
    pub fn new() -> (q: Self)
        ensures
            q.wf(),
            q.desc_idx == 0,
            q.used_idx == 0,
            q.avail.idx == 0,
            q.used.idx == 0,
            forall|i: int| 0 <= i < VIRTIO_RING_SIZE ==> #[trigger] q.desc@[i] == (Descriptor {
                addr: 0,
                len: 0,
                flags: 0,
                next: 0,
            }),
    {
        let mut desc: Vec<Descriptor> = Vec::new();
        let mut avail_ring: Vec<u16> = Vec::new();
        let mut used_ring: Vec<UsedElem> = Vec::new();
        let mut i: usize = 0;
        while i < VIRTIO_RING_SIZE
            invariant
                i <= VIRTIO_RING_SIZE,
                desc@.len() == i,
                avail_ring@.len() == i,
                used_ring@.len() == i,
                forall|j: int| 0 <= j < i ==> #[trigger] desc@[j] == (Descriptor {
                    addr: 0,
                    len: 0,
                    flags: 0,
                    next: 0,
                }),
            decreases VIRTIO_RING_SIZE - i,
        {
            desc.push(Descriptor { addr: 0, len: 0, flags: 0, next: 0 });
            avail_ring.push(0);
            used_ring.push(UsedElem { id: 0, len: 0 });
            i += 1;
        }
        VirtQueue {
            desc,
            avail: Available { flags: 0, idx: 0, ring: avail_ring, event: 0 },
            used: Used { flags: 0, idx: 0, ring: used_ring, event: 0 },
            desc_idx: 0,
            used_idx: 0,
        }
    }

    /// Fills the next descriptor slot with `addr`, `len` and `flag`; when the
    /// flag chains on, the descriptor points at the slot after it. The
    /// position moves on one slot, round the ring.
    pub fn add_desc(&mut self, addr: u64, len: u32, flag: u16)
        requires
            old(self).wf(),
        ensures
            final(self).wf(),
            final(self).desc@ == old(self).desc@.update(
                old(self).desc_idx as int,
                Descriptor {
                    addr,
                    len,
                    flags: flag,
                    next: if flag & 1 == 0 {
                        0u16
                    } else {
                        ((old(self).desc_idx + 1) % 128) as u16
                    },
                },
            ),
            final(self).desc_idx == (old(self).desc_idx + 1) % 128,
            final(self).avail == old(self).avail,
            final(self).used == old(self).used,
            final(self).used_idx == old(self).used_idx,
    {
        let next;
        if flag & DescFlag::Next.val() == 0 {
            next = 0
        } else {
            next = (self.desc_idx + 1) % VIRTIO_RING_SIZE as u16
        }
        let desc = Descriptor { addr: addr, len: len, flags: flag, next: next };
        self.desc.set(self.desc_idx as usize, desc);
        self.desc_idx = (self.desc_idx + 1) % VIRTIO_RING_SIZE as u16;
    }

    /// Makes the current descriptor position available to the device: it
    /// goes into the available ring at the available index, which moves on
    /// by one (wrapping at 2^16).
    pub fn add_avail(&mut self)
        requires
            old(self).wf(),
        ensures
            final(self).wf(),
            final(self).avail.ring@ == old(self).avail.ring@.update(
                (old(self).avail.idx % 128) as int,
                old(self).desc_idx,
            ),
            final(self).avail.idx == wrap_inc(old(self).avail.idx),
            final(self).avail.flags == old(self).avail.flags,
            final(self).avail.event == old(self).avail.event,
            final(self).desc@ == old(self).desc@,
            final(self).desc_idx == old(self).desc_idx,
            final(self).used == old(self).used,
            final(self).used_idx == old(self).used_idx,
    {
        let i = self.avail.idx as usize % VIRTIO_RING_SIZE;
        self.avail.ring.set(i, self.desc_idx);
        self.avail.idx = self.avail.idx.wrapping_add(1);
    }

    /// Whether the device has finished chains that were not read yet.
    pub fn is_pending(&self) -> (r: bool)
        ensures
            r == (self.used_idx != self.used.idx),
    {
        self.used_idx != self.used.idx
    }

    /// Reads the next used element and moves the read position on by one
    /// (wrapping at 2^16).
    pub fn next_elem(&mut self) -> (e: UsedElem)
        requires
            old(self).wf(),
        ensures
            final(self).wf(),
            e == old(self).used.ring@[(old(self).used_idx % 128) as int],
            final(self).used_idx == wrap_inc(old(self).used_idx),
            final(self).desc@ == old(self).desc@,
            final(self).desc_idx == old(self).desc_idx,
            final(self).avail == old(self).avail,
            final(self).used == old(self).used,
    {
        let elem = self.used.ring[self.used_idx as usize % VIRTIO_RING_SIZE];
        self.used_idx = self.used_idx.wrapping_add(1);
        elem
    }
}

} // verus!
