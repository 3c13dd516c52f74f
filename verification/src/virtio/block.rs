//! A virtio block device: its registers, its queue, and the three-part
//! requests (header, data, status) that reading and writing put into the
//! queue.

use vstd::prelude::*;
use crate::memory::config::PAGE_SIZE;
use crate::memory::page::{PageManager, first_fit_at, no_fit};
use super::header::{VirtHeader, lemma_flag_bits};
use super::queue::{
    DescFlag,
    Descriptor,
    Header,
    VirtQueue,
    VIRTIO_BLK_F_RO,
    VIRTIO_BLK_T_IN,
    VIRTIO_BLK_T_OUT,
    VIRTIO_RING_SIZE,
};

verus! {

/// The pages a queue takes: the descriptors and the available ring fill the
/// first page, the used ring and the driver's positions the second.
pub const QUEUE_PAGES: usize = 2;
/// Bytes of a request header.
pub const HEADER_SIZE: u32 = 16;

/// A block request: what to do at which sector, the data buffer, and the
/// status byte the device writes back (111 until it does).
#[derive(Debug, Clone, Copy, PartialEq, Eq)]
pub struct Request {
    pub header: Header,
    pub data: usize,
    pub status: u8,
    pub waiter_id: usize,
}

impl Request {
    /// A request to read (or write) `buffer` at byte `offset` of the disk.
    pub fn new(buffer: usize, offset: usize, write: bool) -> (r: Self)
        ensures
            r.header.blktype == (if write { VIRTIO_BLK_T_OUT } else { VIRTIO_BLK_T_IN }),
            r.header.sector == offset / 512,
            r.header.reserved == 0,
            r.data == buffer,
            r.status == 111,
            r.waiter_id == 0,
    {
        Request {
            header: Header {
                blktype: if write {
                    VIRTIO_BLK_T_OUT
                } else {
                    VIRTIO_BLK_T_IN
                },
                reserved: 0,
                sector: (offset / 512) as u64,
            },
            data: buffer,
            status: 111,
            waiter_id: 0,
        }
    }
}

/// A block device on interrupt pin `pin_idx`; `int` is set when an
/// interrupt is waiting to be handled.
#[derive(Debug)]
pub struct Block {
    pub header: VirtHeader,
    pub queue: VirtQueue,
    pub queue_addr: usize,
    pub pin_idx: usize,
    pub int: bool,
}

impl Block {
    /// Sets up the device: takes kernel pages for its queue, negotiates
    /// every feature but read-only, sets the ring size and page size,
    /// gives the queue's page number and sets driver ok. `status_back` is
    /// the status the device reads back after features ok; the device must
    /// have kept that bit. `None` when no run of pages for the queue is
    /// free.
    pub fn new(idx: usize, header: VirtHeader, status_back: u32, pm: &mut PageManager) -> (r: Option<Self>)
        requires
            old(pm).wf(),
            header.queue_num_max >= 128,
            status_back & 8u32 != 0,
        ensures
            final(pm).wf(),
            final(pm).kernel_base() == old(pm).kernel_base(),
            final(pm).kernel_num() == old(pm).kernel_num(),
            final(pm).user_start() == old(pm).user_start(),
            final(pm).page_size_spec() == old(pm).page_size_spec(),
            match r {
                Some(b) => {
                    &&& b.queue.wf()
                    &&& b.queue.desc_idx == 0 && b.queue.used_idx == 0
                    &&& b.queue.avail.idx == 0 && b.queue.used.idx == 0
                    &&& b.pin_idx == idx
                    &&& !b.int
                    &&& first_fit_at(*old(pm), true, 2, b.queue_addr as int)
                    &&& b.header == (VirtHeader {
                        status: 4,
                        guest_features: header.host_features & !(1u32 << 5u32),
                        queue_num: 128,
                        guest_page_size: 4096,
                        queue_sel: 0,
                        queue_pfn: ((b.queue_addr as u32) / 4096u32) as u32,
                        ..header
                    })
                },
                None => final(pm).pages() == old(pm).pages() && no_fit(*old(pm), true, 2),
            },
    {
        let queue_addr = match pm.alloc_kernel_page(QUEUE_PAGES) {
            Some(a) => a,
            None => {
                return None;
            },
        };
        let mut header = header;
        let _ = header.set_feature(!(1u32 << VIRTIO_BLK_F_RO), status_back);
        let _ = header.set_ring_size(VIRTIO_RING_SIZE as u32);
        header.set_page_size(PAGE_SIZE as u32);
        header.set_pfn(0, queue_addr);
        header.driver_ok();
        Some(Block { header, queue: VirtQueue::new(), queue_addr, pin_idx: idx, int: false })
    }

    /// Puts a write of `size` bytes from `buffer` into the queue: the
    /// chain starts at the current descriptor, which is made available
    /// first; then the header at `header_addr`, the buffer, and the status
    /// byte at `status_addr` for the device to write. The device is
    /// notified.
    pub fn sync_write(&mut self, buffer: u64, size: u32, header_addr: u64, status_addr: u64)
        requires
            old(self).queue.wf(),
        ensures
            final(self).queue.wf(),
            final(self).queue.desc_idx == (old(self).queue.desc_idx + 3) % 128,
            final(self).queue.avail.ring@ == old(self).queue.avail.ring@.update(
                (old(self).queue.avail.idx % 128) as int,
                old(self).queue.desc_idx,
            ),
            final(self).queue.desc@ == chain(
                old(self).queue.desc@,
                old(self).queue.desc_idx as int,
                header_addr,
                buffer,
                size,
                1,
                status_addr,
            ),
            final(self).header == (VirtHeader { queue_notify: 0, ..old(self).header }),
            final(self).queue.used == old(self).queue.used,
            final(self).pin_idx == old(self).pin_idx,
            final(self).int == old(self).int,
    {
        let flag = DescFlag::Next.val();
        self.queue.add_avail();
        self.queue.add_desc(header_addr, HEADER_SIZE, flag);
        self.queue.add_desc(buffer, size, flag);
        let flag = DescFlag::Write.val();
        self.queue.add_desc(status_addr, 1, flag);
        self.header.notify();
        self.header.notify();
        proof {
            lemma_flag_bits();
        }
    }

    /// Puts a read of `size` bytes into `buffer` into the queue, as a
    /// write does, but with the buffer for the device to write too.
    pub fn sync_read(&mut self, buffer: u64, size: u32, header_addr: u64, status_addr: u64)
        requires
            old(self).queue.wf(),
        ensures
            final(self).queue.wf(),
            final(self).queue.desc_idx == (old(self).queue.desc_idx + 3) % 128,
            final(self).queue.avail.ring@ == old(self).queue.avail.ring@.update(
                (old(self).queue.avail.idx % 128) as int,
                old(self).queue.desc_idx,
            ),
            final(self).queue.desc@ == chain(
                old(self).queue.desc@,
                old(self).queue.desc_idx as int,
                header_addr,
                buffer,
                size,
                3,
                status_addr,
            ),
            final(self).header == (VirtHeader { queue_notify: 0, ..old(self).header }),
            final(self).queue.used == old(self).queue.used,
            final(self).pin_idx == old(self).pin_idx,
            final(self).int == old(self).int,
    {
        let mut flag = DescFlag::Next.val();
        self.queue.add_avail();
        self.queue.add_desc(header_addr, HEADER_SIZE, flag);
        flag = flag | DescFlag::Write.val();
        self.queue.add_desc(buffer, size, flag);
        flag = DescFlag::Write.val();
        self.queue.add_desc(status_addr, 1, flag);
        self.header.notify();
        proof {
            assert(1u16 & 1u16 != 0 && 2u16 & 1u16 == 0 && (1u16 | 2u16) == 3u16 && 3u16 & 1u16
                != 0) by (bit_vector);
        }
    }

    /// When an interrupt is waiting, takes it and reads every finished
    /// chain: gives the address that the head descriptor of each names (the
    /// request), in the order the device finished them.
    pub fn interrupt_handler(&mut self) -> (r: Vec<u64>)
        requires
            old(self).queue.wf(),
            forall|i: int| 0 <= i < 128 ==> #[trigger] old(self).queue.used.ring@[i].id < 128,
        ensures
            final(self).queue.wf(),
            final(self).queue.desc@ == old(self).queue.desc@,
            final(self).queue.used == old(self).queue.used,
            !old(self).int ==> r@.len() == 0 && final(self).queue.used_idx == old(self).queue.used_idx,
            old(self).int ==> final(self).queue.used_idx == old(self).queue.used.idx && r@
                == finished(old(self).queue, old(self).queue.used_idx, r@.len() as int),
            !final(self).int,
    {
        if !self.int {
            return Vec::new();
        }
        self.int = false;
        let mut r: Vec<u64> = Vec::new();
        let ghost start = self.queue.used_idx;
        while self.queue.is_pending()
            invariant
                self.queue.wf(),
                self.queue.desc@ == old(self).queue.desc@,
                self.queue.used == old(self).queue.used,
                forall|i: int| 0 <= i < 128 ==> #[trigger] self.queue.used.ring@[i].id < 128,
                r@ == finished(old(self).queue, start, r@.len() as int),
                self.queue.used_idx == advance(start, r@.len() as int),
                !self.int,
            decreases gap(self.queue.used.idx, self.queue.used_idx),
        {
            let ghost old_used = self.queue.used_idx;
            let elem = self.queue.next_elem();
            let addr = self.queue.desc[elem.id as usize].addr;
            proof {
                lemma_advance_step(start, r@.len() as int);
                lemma_gap_step(self.queue.used.idx, old_used);
            }
            r.push(addr);
            proof {
                assert(r@ =~= finished(old(self).queue, start, r@.len() as int));
            }
        }
        r
    }

    /// Records that an interrupt is waiting.
    pub fn pending(&mut self)
        ensures
            final(self).int,
            final(self).queue == old(self).queue,
            final(self).header == old(self).header,
            final(self).pin_idx == old(self).pin_idx,
            final(self).queue_addr == old(self).queue_addr,
    {
        self.int = true;
    }
}

/// The used index `k` steps after `start`, round 2^16.
pub open spec fn advance(start: u16, k: int) -> u16 {
    ((start as int + k) % 0x10000) as u16
}

proof fn lemma_advance_step(start: u16, k: int)
    requires
        k >= 0,
    ensures
        ((advance(start, k) as int + 1) % 0x10000) as u16 == advance(start, k + 1),
{
    assert(((((start as int + k) % 0x10000) + 1) % 0x10000) == (start as int + k + 1) % 0x10000) by (nonlinear_arith);
}

/// How many steps the read position `b` is behind the device's index `a`,
/// round 2^16.
pub open spec fn gap(a: u16, b: u16) -> int {
    (a as int - b as int + 0x10000) % 0x10000
}

pub(crate) proof fn lemma_gap_step(a: u16, b: u16)
    requires
        a != b,
    ensures
        gap(a, ((b as int + 1) % 0x10000) as u16) == gap(a, b) - 1,
        gap(a, b) > 0,
{
    if b == 0xffff {
        assert(((b as int + 1) % 0x10000) == 0);
    } else {
        assert(((b as int + 1) % 0x10000) == b + 1);
    }
}

/// The request addresses of the first `n` chains the device finished
/// after used index `start`.
pub open spec fn finished(q: VirtQueue, start: u16, n: int) -> Seq<u64> {
    Seq::new(
        n as nat,
        |k: int| q.desc@[q.used.ring@[(advance(start, k) % 128) as int].id as int].addr,
    )
}

/// The descriptors after a three-part chain from slot `at`: the header,
/// the buffer with `flags`, and the status byte.
pub open spec fn chain(
    d: Seq<Descriptor>,
    at: int,
    header_addr: u64,
    buffer: u64,
    size: u32,
    flags: u16,
    status_addr: u64,
) -> Seq<Descriptor> {
    d.update(
        at,
        Descriptor { addr: header_addr, len: 16, flags: 1, next: ((at + 1) % 128) as u16 },
    ).update(
        (at + 1) % 128,
        Descriptor { addr: buffer, len: size, flags, next: ((at + 2) % 128) as u16 },
    ).update((at + 2) % 128, Descriptor { addr: status_addr, len: 1, flags: 2, next: 0 })
}

} // verus!
