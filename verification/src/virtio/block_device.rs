//! The first form of the block device driver: it keeps its own position
//! in the descriptor ring and writes each three-part request itself.

use vstd::prelude::*;
use crate::memory::page::{PageManager, took_pages, addr_or_zero};
use super::block::{Request, gap, lemma_gap_step};
use super::header::{VirtHeader, RegWrite, handshake_writes, handshake_seq, lemma_flag_bits};
use super::queue::{
    Descriptor,
    VirtQueue,
    VIRTIO_BLK_T_IN,
    VIRTIO_BLK_T_OUT,
    VIRTIO_DESC_F_NEXT,
    VIRTIO_DESC_F_WRITE,
    VIRTIO_RING_SIZE,
};

verus! {

/// A block device: the pin it interrupts on, its position in the
/// descriptor ring, how far it has read the used ring, its queue and its
/// registers.
#[derive(Debug)]
pub struct BlockDevice {
    pub pin_idx: usize,
    pub queue_idx: usize,
    pub used_idx: usize,
    pub queue: VirtQueue,
    pub header: VirtHeader,
    pub int: bool,
}

/// The descriptors after a request chain that starts one slot after `q`:
/// header, buffer (device-writable for a read) and status.
pub open spec fn request_chain(
    d: Seq<Descriptor>,
    q: int,
    header_addr: u64,
    buffer: u64,
    size: u32,
    write: bool,
    status_addr: u64,
) -> Seq<Descriptor> {
    let a = (q + 1) % 128;
    let b = (q + 2) % 128;
    let c = (q + 3) % 128;
    d.update(a, Descriptor { addr: header_addr, len: 16, flags: 1, next: b as u16 }).update(
        b,
        Descriptor { addr: buffer, len: size, flags: if write { 1u16 } else { 3u16 }, next: c as u16 },
    ).update(c, Descriptor { addr: status_addr, len: 1, flags: 2, next: 0 })
}

/// The request addresses of the first `n` chains the device finished
/// after the driver's read position `start`.
pub open spec fn finished_from(q: VirtQueue, start: int, n: int) -> Seq<u64> {
    Seq::new(n as nat, |k: int| q.desc@[q.used.ring@[(start + k) % 128].id as int].addr)
}

proof fn lemma_low_bits(x: usize)
    requires
        x < usize::MAX,
    ensures
        ((x + 1) as u16) as int == ((x as u16) as int + 1) % 0x10000,
        x % 128 == (x as u16) % 128,
{
    assert(((x + 1) as u16) as int == ((x as u16) as int + 1) % 0x10000) by (bit_vector);
    assert(x % 128 == (x as u16) % 128) by (bit_vector);
}

impl BlockDevice {
    /// When an interrupt is recorded, reads every request chain the device
    /// finished since the last read: gives the address each chain's head
    /// names (the request), in the order the device finished them. The
    /// interrupt stays recorded.
    pub fn interrupt_handler(&mut self) -> (r: Vec<u64>)
        requires
            old(self).queue.wf(),
            forall|i: int| 0 <= i < 128 ==> #[trigger] old(self).queue.used.ring@[i].id < 128,
            old(self).used_idx + 0x10000 <= usize::MAX,
        ensures
            final(self).queue == old(self).queue,
            final(self).int == old(self).int,
            final(self).pin_idx == old(self).pin_idx,
            final(self).queue_idx == old(self).queue_idx,
            final(self).header == old(self).header,
            !old(self).int ==> r@.len() == 0 && final(self).used_idx == old(self).used_idx,
            old(self).int ==> {
                let n = gap(old(self).queue.used.idx, old(self).used_idx as u16);
                &&& r@ == finished_from(old(self).queue, old(self).used_idx as int, n)
                &&& final(self).used_idx == old(self).used_idx + n
            },
    {
        if !self.int {
            return Vec::new();
        }
        let mut r: Vec<u64> = Vec::new();
        let ghost start = self.used_idx;
        let ghost n = gap(self.queue.used.idx, start as u16);
        while self.used_idx as u16 != self.queue.used.idx
            invariant
                self.queue == old(self).queue,
                self.queue.wf(),
                forall|i: int| 0 <= i < 128 ==> #[trigger] self.queue.used.ring@[i].id < 128,
                self.int == old(self).int,
                self.pin_idx == old(self).pin_idx,
                self.queue_idx == old(self).queue_idx,
                self.header == old(self).header,
                start == old(self).used_idx,
                start + 0x10000 <= usize::MAX,
                n == gap(self.queue.used.idx, start as u16),
                0 <= r@.len() <= n,
                self.used_idx == start + r@.len(),
                gap(self.queue.used.idx, self.used_idx as u16) == n - r@.len(),
                r@ == finished_from(old(self).queue, start as int, r@.len() as int),
            decreases gap(self.queue.used.idx, self.used_idx as u16),
        {
            let u = self.used_idx;
            proof {
                lemma_low_bits(u);
                lemma_gap_step(self.queue.used.idx, u as u16);
                assert(n <= 0xffff) by {
                    assert(gap(self.queue.used.idx, start as u16) < 0x10000);
                }
            }
            let elem = self.queue.used.ring[u % VIRTIO_RING_SIZE];
            let addr = self.queue.desc[elem.id as usize].addr;
            r.push(addr);
            self.used_idx = u + 1;
            proof {
                assert(r@ =~= finished_from(old(self).queue, start as int, r@.len() as int));
            }
        }
        proof {
            assert(gap(self.queue.used.idx, self.used_idx as u16) == 0) by {
                assert(self.used_idx as u16 == self.queue.used.idx);
            }
        }
        r
    }
}

impl BlockDevice {
    /// A device on pin `pin_idx` with queue `queue` and registers `header`,
    /// at the start of its rings.
    pub fn new(pin_idx: usize, queue: VirtQueue, header: VirtHeader) -> (r: Self)
        ensures
            r.pin_idx == pin_idx,
            r.queue_idx == 0,
            r.used_idx == 0,
            r.queue == queue,
            r.header == header,
            !r.int,
    {
        BlockDevice { pin_idx, queue_idx: 0, used_idx: 0, queue, header, int: false }
    }

    /// Moves to the next descriptor slot, round the ring, and gives it.
    pub fn add_idx(&mut self) -> (r: usize)
        requires
            old(self).queue_idx < usize::MAX,
        ensures
            r == (old(self).queue_idx + 1) % 128,
            final(self).queue_idx == r,
            final(self).pin_idx == old(self).pin_idx,
            final(self).used_idx == old(self).used_idx,
            final(self).queue == old(self).queue,
            final(self).header == old(self).header,
            final(self).int == old(self).int,
    {
        self.queue_idx = (self.queue_idx + 1) % VIRTIO_RING_SIZE;
        self.queue_idx
    }

    /// The slot after the current one.
    pub fn next_idx(&self) -> (r: u16)
        requires
            self.queue_idx < usize::MAX,
        ensures
            r == (self.queue_idx + 1) % 128,
    {
        ((self.queue_idx + 1) % VIRTIO_RING_SIZE) as u16
    }

    /// Puts a request to read (or write) `size` bytes of `buffer` at byte
    /// `offset` of the disk into the queue: `request` gets the sector, the
    /// kind, the buffer and a status of 111; three descriptors from the slot
    /// after the current one hold the header at `header_addr`, the buffer
    /// and the status byte at `status_addr`; the first of them goes into
    /// the available ring, and the device is notified.
    pub fn operation(
        &mut self,
        buffer: u64,
        size: u32,
        offset: usize,
        write: bool,
        request: &mut Request,
        header_addr: u64,
        status_addr: u64,
    )
        requires
            old(self).queue.wf(),
            old(self).queue_idx < usize::MAX,
        ensures
            final(self).queue.wf(),
            final(self).queue_idx == (old(self).queue_idx + 3) % 128,
            final(self).queue.desc@ == request_chain(
                old(self).queue.desc@,
                old(self).queue_idx as int,
                header_addr,
                buffer,
                size,
                write,
                status_addr,
            ),
            final(self).queue.avail.ring@ == old(self).queue.avail.ring@.update(
                (old(self).queue.avail.idx % 128) as int,
                ((old(self).queue_idx + 1) % 128) as u16,
            ),
            final(self).queue.avail.idx == ((old(self).queue.avail.idx as int + 1) % 0x10000) as u16,
            final(self).queue.used == old(self).queue.used,
            final(self).header == (VirtHeader { queue_notify: 0, ..old(self).header }),
            final(request).header.sector == offset / 512,
            final(request).header.blktype == (if write { VIRTIO_BLK_T_OUT } else { VIRTIO_BLK_T_IN }),
            final(request).header.reserved == 0,
            final(request).data == buffer as usize,
            final(request).status == 111,
            final(request).waiter_id == old(request).waiter_id,
    {
        let sector = offset / 512;
        self.add_idx();
        let head_idx = self.queue_idx as u16;
        let desc = Descriptor {
            addr: header_addr,
            len: 16,
            flags: VIRTIO_DESC_F_NEXT,
            next: self.next_idx(),
        };
        self.queue.desc.set(self.queue_idx, desc);
        request.header.sector = sector as u64;
        request.header.blktype = if write {
            VIRTIO_BLK_T_OUT
        } else {
            VIRTIO_BLK_T_IN
        };
        request.data = buffer as usize;
        request.header.reserved = 0;
        request.status = 111;
        self.add_idx();
        let desc = Descriptor {
            addr: buffer,
            len: size,
            flags: VIRTIO_DESC_F_NEXT | if !write {
                VIRTIO_DESC_F_WRITE
            } else {
                0
            },
            next: self.next_idx(),
        };
        self.queue.desc.set(self.queue_idx, desc);
        let desc = Descriptor { addr: status_addr, len: 1, flags: VIRTIO_DESC_F_WRITE, next: 0 };
        self.add_idx();
        self.queue.desc.set(self.queue_idx, desc);
        let a = self.queue.avail.idx as usize % VIRTIO_RING_SIZE;
        self.queue.avail.ring.set(a, head_idx);
        self.queue.avail.idx = self.queue.avail.idx.wrapping_add(1);
        self.header.notify();
        proof {
            lemma_flag_bits();
            assert(self.queue.desc@ =~= request_chain(
                old(self).queue.desc@,
                old(self).queue_idx as int,
                header_addr,
                buffer,
                size,
                write,
                status_addr,
            ));
        }
    }
}

/// The features a block driver takes: every one the device offers but
/// read-only.
pub open spec fn block_features(host_features: u32) -> u32 {
    host_features & !(1u32 << 5u32)
}

/// The writes that open the handshake of a block device whose host
/// features are `host_features`, in order.
pub fn init_block_begin(host_features: u32) -> (w: Vec<RegWrite>)
    ensures
        w@ == handshake_seq(block_features(host_features)),
{
    handshake_writes(host_features & !(1u32 << 5u32))
}

/// Finishes setting up a block device on pin `idx` once the handshake's
/// opening writes (`init_block_begin`) are done:
/// `header` holds the device's registers as read before them and
/// `status_back` the status the device read back after features ok.
/// Gives the writes still to make, in order, and the device: nothing more
/// when features ok was refused; when it was kept, the ring size, and then,
/// when the device's maximum allows it, queue 0 on two kernel pages (at 0
/// when none are free), the page size, the queue's page number and driver
/// ok. `header` follows the writes.
pub fn init_block(header: &mut VirtHeader, status_back: u32, idx: usize, pm: &mut PageManager) -> (r: (
    Vec<RegWrite>,
    Option<BlockDevice>,
))
    requires
        old(pm).wf(),
    ensures
        final(pm).wf(),
        final(pm).kernel_base() == old(pm).kernel_base(),
        final(pm).kernel_num() == old(pm).kernel_num(),
        final(pm).user_start() == old(pm).user_start(),
        final(pm).page_size_spec() == old(pm).page_size_spec(),
        r.1 is Some <==> status_back & 8u32 != 0 && old(header).queue_num_max >= 128,
        status_back & 8u32 == 0 ==> r.0@ == Seq::<RegWrite>::empty() && final(pm).pages() == old(pm).pages()
            && *final(header) == (VirtHeader {
            status: status_back,
            guest_features: block_features(old(header).host_features),
            ..*old(header)
        }),
        status_back & 8u32 != 0 && old(header).queue_num_max < 128 ==> r.0@ == seq![RegWrite::QueueNum(128)]
            && final(pm).pages() == old(pm).pages() && *final(header) == (VirtHeader {
            status: status_back,
            guest_features: block_features(old(header).host_features),
            queue_num: 128,
            ..*old(header)
        }),
        r.1 matches Some(b) ==> {
            &&& b.pin_idx == idx
            &&& b.queue_idx == 0 && b.used_idx == 0
            &&& b.queue.wf()
            &&& b.header == *final(header)
            &&& exists|q: Option<usize>|
                #[trigger] took_pages(*old(pm), true, 2, *final(pm), q) && {
                    let pfn = ((addr_or_zero(q) as u32) / 4096u32) as u32;
                    &&& r.0@ == seq![
                        RegWrite::QueueNum(128),
                        RegWrite::QueueSel(0),
                        RegWrite::GuestPageSize(4096),
                        RegWrite::QueuePfn(pfn),
                        RegWrite::Status(15),
                    ]
                    &&& *final(header) == (VirtHeader {
                        status: 15,
                        guest_features: block_features(old(header).host_features),
                        queue_num: 128,
                        queue_sel: 0,
                        guest_page_size: 4096,
                        queue_pfn: pfn,
                        ..*old(header)
                    })
                }
        },
{
    proof {
        lemma_flag_bits();
    }
    let mut writes: Vec<RegWrite> = Vec::new();
    header.status = 0;
    let mut status_bits: u32 = 1;
    header.status = status_bits;
    status_bits = status_bits | 2;
    header.status = status_bits;
    let host_features = header.host_features;
    let guest_features = host_features & !(1u32 << 5u32);
    header.guest_features = guest_features;
    status_bits = status_bits | 8;
    header.status = status_bits;
    header.status = status_back;
    let status_ok = header.status;
    if status_ok & 8 == 0 {
        return (writes, None);
    }
    let qnmax = header.queue_num_max;
    header.queue_num = VIRTIO_RING_SIZE as u32;
    writes.push(RegWrite::QueueNum(VIRTIO_RING_SIZE as u32));
    if VIRTIO_RING_SIZE as u32 > qnmax {
        proof {
            assert(writes@ =~= seq![RegWrite::QueueNum(128)]);
        }
        return (writes, None);
    }
    header.queue_sel = 0;
    writes.push(RegWrite::QueueSel(0));
    let got = pm.alloc_kernel_page(2);
    let queue_ptr = match got {
        Some(a) => a,
        None => 0,
    };
    header.guest_page_size = 4096;
    writes.push(RegWrite::GuestPageSize(4096));
    let pfn = (queue_ptr as u32) / 4096;
    header.queue_pfn = pfn;
    writes.push(RegWrite::QueuePfn(pfn));
    status_bits = status_bits | 4;
    header.status = status_bits;
    writes.push(RegWrite::Status(status_bits));
    proof {
        assert(took_pages(*old(pm), true, 2, *pm, got));
        assert(writes@ =~= seq![
            RegWrite::QueueNum(128),
            RegWrite::QueueSel(0),
            RegWrite::GuestPageSize(4096),
            RegWrite::QueuePfn(pfn),
            RegWrite::Status(15),
        ]);
    }
    (writes, Some(BlockDevice::new(idx, VirtQueue::new(), *header)))
}

} // verus!
