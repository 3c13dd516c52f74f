//! A virtio GPU: a frame buffer drawn into by the driver, and the control
//! commands (create a resource, attach its memory, bind it to a scanout,
//! transfer, flush) put into the control queue. Each command is a record at
//! a given address followed by a response header the device writes.

use vstd::prelude::*;
use vstd::arithmetic::div_mod::lemma_fundamental_div_mod_converse;
use super::header::{VirtHeader, RegWrite, handshake_writes, handshake_seq, lemma_flag_bits};
use super::queue::{DescFlag, Descriptor, VirtQueue, VIRTIO_RING_SIZE, wrap_inc};
use super::block::QUEUE_PAGES;
use crate::memory::config::PAGE_SIZE;
use crate::memory::page::{PageManager, no_fit, is_first_fit, fits_at, taken_run, took_pages, addr_or_zero};

verus! {

/// A pixel.
#[derive(Debug, Clone, Copy, PartialEq, Eq)]
pub struct Pixel {
    pub r: u8,
    pub g: u8,
    pub b: u8,
    pub a: u8,
}

/// A rectangle: columns `[x1, x2)` of rows `[y1, y2)`.
#[derive(Debug, Clone, Copy, PartialEq, Eq)]
pub struct Rect {
    pub x1: u32,
    pub y1: u32,
    pub x2: u32,
    pub y2: u32,
}

/// The kinds of control commands and responses.
#[derive(Debug, Clone, Copy, PartialEq, Eq)]
pub enum ControllType {
    GetDisplayInfo,
    ResourceCreate2d,
    ResourceUref,
    SetScanout,
    ResourceFlush,
    TransferToHost2d,
    ResourceAttachBacking,
    ResourceDetachBacking,
    GetCapsetInfo,
    GetCapset,
    GetEdid,
    UpdateCursor,
    MoveCursor,
    RespOkNoData,
    RespOkDisplayInfo,
    RespOkCapsetInfo,
    RespOkCapset,
    RespOkEdid,
    RespErrUnspec,
    RespErrOutOfMemory,
    RespErrInvalidScanoutId,
    RespErrInvalidResourceId,
    RespErrInvalidContextId,
    RespErrInvalidParameter,
}

/// The number of each kind on the wire.
pub open spec fn ctype_value(t: ControllType) -> u32 {
    match t {
        ControllType::GetDisplayInfo => 0x100,
        ControllType::ResourceCreate2d => 0x101,
        ControllType::ResourceUref => 0x102,
        ControllType::SetScanout => 0x103,
        ControllType::ResourceFlush => 0x104,
        ControllType::TransferToHost2d => 0x105,
        ControllType::ResourceAttachBacking => 0x106,
        ControllType::ResourceDetachBacking => 0x107,
        ControllType::GetCapsetInfo => 0x108,
        ControllType::GetCapset => 0x109,
        ControllType::GetEdid => 0x10a,
        ControllType::UpdateCursor => 0x300,
        ControllType::MoveCursor => 0x301,
        ControllType::RespOkNoData => 0x1100,
        ControllType::RespOkDisplayInfo => 0x1101,
        ControllType::RespOkCapsetInfo => 0x1102,
        ControllType::RespOkCapset => 0x1103,
        ControllType::RespOkEdid => 0x1104,
        ControllType::RespErrUnspec => 0x1200,
        ControllType::RespErrOutOfMemory => 0x1201,
        ControllType::RespErrInvalidScanoutId => 0x1202,
        ControllType::RespErrInvalidResourceId => 0x1203,
        ControllType::RespErrInvalidContextId => 0x1204,
        ControllType::RespErrInvalidParameter => 0x1205,
    }
}

impl ControllType {
    /// The number of the kind on the wire.
    pub fn val(self) -> (v: u32)
        ensures
            v == ctype_value(self),
    {
        match self {
            ControllType::GetDisplayInfo => 0x100,
            ControllType::ResourceCreate2d => 0x101,
            ControllType::ResourceUref => 0x102,
            ControllType::SetScanout => 0x103,
            ControllType::ResourceFlush => 0x104,
            ControllType::TransferToHost2d => 0x105,
            ControllType::ResourceAttachBacking => 0x106,
            ControllType::ResourceDetachBacking => 0x107,
            ControllType::GetCapsetInfo => 0x108,
            ControllType::GetCapset => 0x109,
            ControllType::GetEdid => 0x10a,
            ControllType::UpdateCursor => 0x300,
            ControllType::MoveCursor => 0x301,
            ControllType::RespOkNoData => 0x1100,
            ControllType::RespOkDisplayInfo => 0x1101,
            ControllType::RespOkCapsetInfo => 0x1102,
            ControllType::RespOkCapset => 0x1103,
            ControllType::RespOkEdid => 0x1104,
            ControllType::RespErrUnspec => 0x1200,
            ControllType::RespErrOutOfMemory => 0x1201,
            ControllType::RespErrInvalidScanoutId => 0x1202,
            ControllType::RespErrInvalidResourceId => 0x1203,
            ControllType::RespErrInvalidContextId => 0x1204,
            ControllType::RespErrInvalidParameter => 0x1205,
        }
    }
}

/// Bytes of a control header.
pub const HEADER_LEN: u32 = 24;
/// Bytes of a create command.
pub const CREATE_LEN: u32 = 40;
/// Bytes of a flush, a scanout or an attach command.
pub const FLUSH_LEN: u32 = 48;
pub const SCANOUT_LEN: u32 = 48;
pub const ATTACH_LEN: u32 = 32;
/// Bytes of a transfer command.
pub const TRANSFER_LEN: u32 = 56;
/// Bytes of a memory entry.
pub const ENTRY_LEN: u32 = 16;
/// The pixel format R8G8B8A8.
pub const FORMAT_R8G8B8A8: u32 = 67;

/// The header of a control command or response.
#[derive(Debug, Clone, Copy, PartialEq, Eq)]
pub struct ControllHeader {
    pub ctype: u32,
    pub flag: u32,
    pub fence_idx: u64,
    pub ctx_id: u32,
    pub padding: u32,
}

impl ControllHeader {
    /// A zeroed header, for the device to fill.
    pub fn new() -> (r: Self)
        ensures
            r == (ControllHeader { ctype: 0, flag: 0, fence_idx: 0, ctx_id: 0, padding: 0 }),
    {
        ControllHeader { ctype: 0, flag: 0, fence_idx: 0, ctx_id: 0, padding: 0 }
    }
}

/// The header of a command of kind `t`.
pub open spec fn command_header(t: ControllType) -> ControllHeader {
    ControllHeader { ctype: ctype_value(t), flag: 0, fence_idx: 0, ctx_id: 0, padding: 0 }
}

fn make_header(t: ControllType) -> (r: ControllHeader)
    ensures
        r == command_header(t),
{
    ControllHeader { ctype: t.val(), flag: 0, fence_idx: 0, ctx_id: 0, padding: 0 }
}

/// Creates a 2D resource.
#[derive(Debug, Clone, Copy, PartialEq, Eq)]
pub struct Create2D {
    pub header: ControllHeader,
    pub resource_idx: u32,
    pub format: u32,
    pub width: u32,
    pub height: u32,
}

impl Create2D {
    /// The command creating resource `resouce_idx` of `width` by `height`
    /// R8G8B8A8 pixels.
    pub fn new(width: usize, height: usize, resouce_idx: usize) -> (r: Self)
        ensures
            r == (Create2D {
                header: command_header(ControllType::ResourceCreate2d),
                resource_idx: resouce_idx as u32,
                format: 67,
                width: width as u32,
                height: height as u32,
            }),
    {
        Create2D {
            header: make_header(ControllType::ResourceCreate2d),
            resource_idx: resouce_idx as u32,
            format: FORMAT_R8G8B8A8,
            width: width as u32,
            height: height as u32,
        }
    }
}

/// Flushes a rectangle of a resource to the screen.
#[derive(Debug, Clone, Copy, PartialEq, Eq)]
pub struct ResourceFlush {
    pub header: ControllHeader,
    pub rect: Rect,
    pub resource_id: u32,
    pub padding: u32,
}

/// Transfers a rectangle of a resource from guest memory to the host.
#[derive(Debug, Clone, Copy, PartialEq, Eq)]
pub struct TransferToHost2d {
    pub header: ControllHeader,
    pub rect: Rect,
    pub offset: u64,
    pub resource_id: u32,
    pub padding: u32,
}

/// Binds a rectangle of a resource to a scanout.
#[derive(Debug, Clone, Copy, PartialEq, Eq)]
pub struct Scanout {
    pub header: ControllHeader,
    pub rect: Rect,
    pub scanout_id: u32,
    pub resource_id: u32,
}

/// Attaches memory entries to a resource.
#[derive(Debug, Clone, Copy, PartialEq, Eq)]
pub struct AttachBacking {
    pub header: ControllHeader,
    pub resource_id: u32,
    pub entries: u32,
}

/// A run of guest memory.
#[derive(Debug, Clone, Copy, PartialEq, Eq)]
pub struct MemEntry {
    pub addr: u64,
    pub length: u32,
    pub padding: u32,
}

impl ResourceFlush {
    /// A flush of `rect` of resource `resouce_idx`.
    pub fn new(rect: Rect, resouce_idx: usize) -> (r: Self)
        ensures
            r == (ResourceFlush {
                header: command_header(ControllType::ResourceFlush),
                rect,
                resource_id: resouce_idx as u32,
                padding: 0,
            }),
    {
        ResourceFlush {
            header: make_header(ControllType::ResourceFlush),
            rect,
            resource_id: resouce_idx as u32,
            padding: 0,
        }
    }
}

impl TransferToHost2d {
    /// A transfer of `rect` of resource `resouce_idx` to the host.
    pub fn new(rect: Rect, resouce_idx: usize) -> (r: Self)
        ensures
            r == (TransferToHost2d {
                header: command_header(ControllType::TransferToHost2d),
                rect,
                offset: 0,
                resource_id: resouce_idx as u32,
                padding: 0,
            }),
    {
        TransferToHost2d {
            header: make_header(ControllType::TransferToHost2d),
            rect,
            offset: 0,
            resource_id: resouce_idx as u32,
            padding: 0,
        }
    }
}

impl Scanout {
    /// A binding of `rect` of resource `resource_idx` to scanout
    /// `scanout_idx`.
    pub fn new(rect: Rect, resource_idx: usize, scanout_idx: usize) -> (r: Self)
        ensures
            r == (Scanout {
                header: command_header(ControllType::SetScanout),
                rect,
                scanout_id: scanout_idx as u32,
                resource_id: resource_idx as u32,
            }),
    {
        Scanout {
            header: make_header(ControllType::SetScanout),
            rect,
            scanout_id: scanout_idx as u32,
            resource_id: resource_idx as u32,
        }
    }
}

impl AttachBacking {
    /// An attachment of `entries` memory entries to resource
    /// `resource_idx`.
    pub fn new(resource_idx: u32, entries: u32) -> (r: Self)
        ensures
            r == (AttachBacking {
                header: command_header(ControllType::ResourceAttachBacking),
                resource_id: resource_idx,
                entries,
            }),
    {
        AttachBacking { header: make_header(ControllType::ResourceAttachBacking), resource_id: resource_idx, entries }
    }
}

/// The descriptors after a command at `cmd` of `len` bytes and its
/// response header at `resp` were chained from slot `at`.
pub open spec fn command_chain(d: Seq<Descriptor>, at: int, cmd: u64, len: u32, resp: u64) -> Seq<
    Descriptor,
> {
    d.update(at, Descriptor { addr: cmd, len, flags: 1, next: ((at + 1) % 128) as u16 }).update(
        (at + 1) % 128,
        Descriptor { addr: resp, len: 24, flags: 2, next: 0 },
    )
}

/// The descriptors after an attach command at `cmd`, its memory entry at
/// `entry` and its response header at `resp` were chained from slot `at`.
pub open spec fn attach_chain(d: Seq<Descriptor>, at: int, cmd: u64, entry: u64, resp: u64) -> Seq<Descriptor> {
    d.update(at, Descriptor { addr: cmd, len: 32, flags: 1, next: ((at + 1) % 128) as u16 }).update(
        (at + 1) % 128,
        Descriptor { addr: entry, len: 16, flags: 1, next: ((at + 2) % 128) as u16 },
    ).update((at + 2) % 128, Descriptor { addr: resp, len: 24, flags: 2, next: 0 })
}

/// The descriptors after the five set-up chains of `reset` were made from
/// slot `at`, with the addresses `s`: create (40 bytes), attach with its
/// entry, scanout (48), transfer (56) and flush (48), each with its
/// response header.
pub open spec fn reset_chains(d: Seq<Descriptor>, at: int, s: Seq<u64>) -> Seq<Descriptor> {
    let d1 = command_chain(d, at, s[0], 40, s[1]);
    let d2 = attach_chain(d1, (at + 2) % 128, s[2], s[3], s[4]);
    let d3 = command_chain(d2, (at + 5) % 128, s[5], 48, s[6]);
    let d4 = command_chain(d3, (at + 7) % 128, s[7], 56, s[8]);
    command_chain(d4, (at + 9) % 128, s[9], 48, s[10])
}

/// The available ring after the heads of the five set-up chains of
/// `reset`, from slot `at`, were made available from position `idx`.
pub open spec fn reset_ring(ring: Seq<u16>, idx: u16, at: int) -> Seq<u16> {
    let i1 = wrap_inc(idx);
    let i2 = wrap_inc(i1);
    let i3 = wrap_inc(i2);
    let i4 = wrap_inc(i3);
    ring.update((idx % 128) as int, at as u16).update((i1 % 128) as int, ((at + 2) % 128) as u16).update(
        (i2 % 128) as int,
        ((at + 5) % 128) as u16,
    ).update((i3 % 128) as int, ((at + 7) % 128) as u16).update((i4 % 128) as int, ((at + 9) % 128) as u16)
}

/// The frame buffer `fb` (rows of `w` pixels) after rows `[y1, upto)`,
/// columns `[x1, x1 + line)` were copied from `colors`, whose rows are
/// `wr` pixels apart.
pub open spec fn drawn(
    fb: Seq<Pixel>,
    w: int,
    y1: int,
    upto: int,
    x1: int,
    line: int,
    wr: int,
    colors: Seq<Pixel>,
) -> Seq<Pixel> {
    Seq::new(
        fb.len(),
        |j: int|
            if y1 <= j / w < upto && x1 <= j % w < x1 + line {
                colors[(j / w - y1) * wr + (j % w - x1)]
            } else {
                fb[j]
            },
    )
}

/// The frame buffer `fb` (rows of `w` pixels) with columns `[x, x + cw)`
/// of rows `[y, y + ch)` set to `color`.
pub open spec fn filled(fb: Seq<Pixel>, w: int, x: int, y: int, cw: int, ch: int, color: Pixel) -> Seq<
    Pixel,
> {
    Seq::new(
        fb.len(),
        |j: int|
            if y <= j / w < y + ch && x <= j % w < x + cw {
                color
            } else {
                fb[j]
            },
    )
}

proof fn lemma_row_col(r: int, c: int, w: int)
    requires
        w > 0,
        0 <= c < w,
    ensures
        (r * w + c) / w == r,
        (r * w + c) % w == c,
{
    lemma_fundamental_div_mod_converse(r * w + c, w, r, c);
}

/// The pages a frame buffer of `width` by `height` pixels of four bytes
/// takes.
pub open spec fn frame_pages(width: int, height: int) -> int {
    let bytes = width * height * 4;
    bytes / 4096 + if bytes % 4096 == 0 {
        0int
    } else {
        1
    }
}

/// A GPU: its registers, its control queue, its frame buffer of `width`
/// by `height` pixels at `frame_addr`, whether an interrupt waits, and
/// whether the screen shows the frame buffer.
#[derive(Debug)]
pub struct GPU {
    pub header: VirtHeader,
    pub queue: VirtQueue,
    pub pin_idx: usize,
    pub frame_buffer: Vec<Pixel>,
    pub frame_addr: usize,
    pub width: usize,
    pub height: usize,
    pub int: bool,
    pub valid: bool,
}

impl GPU {
    /// The queue holds together and the frame buffer has its size.
    pub open spec fn wf(&self) -> bool {
        &&& self.queue.wf()
        &&& self.width > 0
        &&& self.width * self.height <= usize::MAX
        &&& self.frame_buffer@.len() == self.width * self.height
        &&& self.width <= u32::MAX && self.height <= u32::MAX
    }

    /// Sets up the graphics device on pin `idx` with a screen of `width`
    /// by `height` pixels: kernel pages for its queue and then for its
    /// frame buffer, every feature the device offers, the ring size, the
    /// page size, the queue's page number and driver ok; then the screen
    /// is cleared and shown (see `reset`, with the command records at
    /// `slots`). `status_back` is the status the device reads back after
    /// features ok; the device must have kept that bit. Gives the device
    /// and the command records; `None` when the pages could not be had.
    pub fn new(
        idx: usize,
        header: VirtHeader,
        status_back: u32,
        width: usize,
        height: usize,
        pm: &mut PageManager,
        slots: &Vec<u64>,
    ) -> (r: Option<(Self, (Create2D, AttachBacking, MemEntry, Scanout, TransferToHost2d, ResourceFlush))>)
        requires
            old(pm).wf(),
            old(pm).page_size_spec() == PAGE_SIZE,
            header.queue_num_max >= 128,
            status_back & 8u32 != 0,
            width > 0,
            height > 0,
            width * height * 4 <= u32::MAX,
            slots@.len() >= 11,
        ensures
            final(pm).wf(),
            final(pm).kernel_base() == old(pm).kernel_base(),
            final(pm).kernel_num() == old(pm).kernel_num(),
            final(pm).user_start() == old(pm).user_start(),
            final(pm).page_size_spec() == old(pm).page_size_spec(),
            match r {
                Some((g, recs)) => {
                    &&& g.wf()
                    &&& g.pin_idx == idx
                    &&& g.width == width
                    &&& g.height == height
                    &&& g.valid
                    &&& !g.int
                    &&& forall|j: int|
                        0 <= j < g.frame_buffer@.len() ==> #[trigger] g.frame_buffer@[j] == (Pixel {
                            r: 10,
                            g: 10,
                            b: 10,
                            a: 255,
                        })
                    &&& g.header == (VirtHeader {
                        status: 4,
                        guest_features: header.host_features & !0u32,
                        queue_num: 128,
                        guest_page_size: 4096,
                        queue_sel: 0,
                        queue_pfn: g.header.queue_pfn,
                        queue_notify: 0,
                        ..header
                    })
                    &&& g.queue.desc_idx == 11
                    &&& recs.0.resource_idx == 1 && recs.0.width == width as u32 && recs.0.height == height as u32
                    &&& recs.1.resource_id == 1
                    &&& recs.2.addr == g.frame_addr as u64
                    &&& recs.3.resource_id == 1 && recs.3.scanout_id == 0
                    &&& recs.4.resource_id == 1 && recs.5.resource_id == 1
                },
                None => no_fit(*old(pm), true, 2) || forall|s: int|
                    #[trigger] is_first_fit(old(pm).pages(), 0, old(pm).kernel_num(), 2, s) ==> forall|t: int|
                        !#[trigger] fits_at(
                            taken_run(old(pm).pages(), s, 2),
                            0,
                            old(pm).kernel_num(),
                            frame_pages(width as int, height as int),
                            t,
                        ),
            },
    {
        let queue_addr = match pm.alloc_kernel_page(QUEUE_PAGES) {
            Some(a) => a,
            None => {
                return None;
            },
        };
        proof {
            assert(1 <= width * height <= width * height * 4) by (nonlinear_arith)
                requires
                    width > 0,
                    height > 0,
            ;
        }
        let bytes = width * height * 4;
        let num = bytes / PAGE_SIZE + if bytes % PAGE_SIZE == 0 {
            0
        } else {
            1
        };
        proof {
            assert(width <= u32::MAX && height <= u32::MAX) by (nonlinear_arith)
                requires
                    width > 0,
                    height > 0,
                    width * height * 4 <= u32::MAX,
            ;
        }
        let ghost pm1 = *pm;
        let frame_addr = match pm.alloc_kernel_page(num) {
            Some(a) => a,
            None => {
                proof {
                    assert(num == frame_pages(width as int, height as int));
                    assert forall|s2: int| #[trigger] is_first_fit(old(pm).pages(), 0, old(pm).kernel_num(), 2, s2) implies pm1.pages() == taken_run(old(pm).pages(), s2, 2) by {
                        let s1 = choose|s1: int|
                            #![trigger taken_run(old(pm).pages(), s1, 2)]
                            is_first_fit(old(pm).pages(), 0, old(pm).kernel_num(), 2, s1) && queue_addr
                                == old(pm).kernel_base() + s1 * old(pm).page_size_spec() && pm1.pages()
                                == taken_run(old(pm).pages(), s1, 2);
                        if s1 < s2 {
                            assert(!fits_at(old(pm).pages(), 0, old(pm).kernel_num(), 2, s1));
                        } else if s2 < s1 {
                            assert(!fits_at(old(pm).pages(), 0, old(pm).kernel_num(), 2, s2));
                        }
                    }
                }
                return None;
            },
        };
        let mut header = header;
        let _ = header.set_feature(!0u32, status_back);
        let _ = header.set_ring_size(VIRTIO_RING_SIZE as u32);
        header.set_page_size(PAGE_SIZE as u32);
        header.set_pfn(0, queue_addr);
        header.driver_ok();
        let n = width * height;
        let mut frame_buffer: Vec<Pixel> = Vec::new();
        let mut i: usize = 0;
        while i < n
            invariant
                i <= n,
                frame_buffer@.len() == i,
            decreases n - i,
        {
            frame_buffer.push(Pixel { r: 0, g: 0, b: 0, a: 0 });
            i = i + 1;
        }
        let mut g = GPU {
            header,
            queue: VirtQueue::new(),
            pin_idx: idx,
            frame_buffer,
            frame_addr,
            width,
            height,
            int: false,
            valid: true,
        };
        let ghost fb0 = g.frame_buffer@;
        let recs = g.reset(slots);
        proof {
            assert forall|j: int| 0 <= j < g.frame_buffer@.len() implies #[trigger] g.frame_buffer@[j] == (Pixel {
                r: 10,
                g: 10,
                b: 10,
                a: 255,
            }) by {
                assert(0 <= j / (width as int) < height && 0 <= j % (width as int) < width) by (nonlinear_arith)
                    requires
                        0 <= j < width * height,
                        width > 0,
                ;
            }
        }
        Some((g, recs))
    }

    /// The command at `cmd` (`len` bytes) and its response header at
    /// `resp` go into the queue, the command made available.
    fn add_desc(&mut self, cmd: u64, len: u32, resp: u64)
        requires
            old(self).wf(),
        ensures
            final(self).wf(),
            final(self).queue.desc@ == command_chain(
                old(self).queue.desc@,
                old(self).queue.desc_idx as int,
                cmd,
                len,
                resp,
            ),
            final(self).queue.desc_idx == (old(self).queue.desc_idx + 2) % 128,
            final(self).queue.avail.ring@ == old(self).queue.avail.ring@.update(
                (old(self).queue.avail.idx % 128) as int,
                old(self).queue.desc_idx,
            ),
            final(self).queue.avail.idx == wrap_inc(old(self).queue.avail.idx),
            final(self).queue.used == old(self).queue.used,
            final(self).header == old(self).header,
            final(self).frame_buffer@ == old(self).frame_buffer@,
            final(self).width == old(self).width,
            final(self).height == old(self).height,
            final(self).frame_addr == old(self).frame_addr,
            final(self).pin_idx == old(self).pin_idx,
            final(self).int == old(self).int,
            final(self).valid == old(self).valid,
            final(self).pin_idx == old(self).pin_idx,
            final(self).int == old(self).int,
    {
        self.queue.add_avail();
        self.queue.add_desc(cmd, len, DescFlag::Next.val());
        self.queue.add_desc(resp, HEADER_LEN, DescFlag::Write.val());
        proof {
            lemma_flag_bits();
        }
    }

    /// Flushes `rect` of resource `resource_idx`: gives the command to
    /// place at `cmd` and the header to place at `resp`, and queues them.
    pub fn flush(&mut self, rect: Rect, resource_idx: usize, cmd: u64, resp: u64) -> (r: (
        ResourceFlush,
        ControllHeader,
    ))
        requires
            old(self).wf(),
        ensures
            final(self).queue.avail.ring@ == old(self).queue.avail.ring@.update(
                (old(self).queue.avail.idx % 128) as int,
                old(self).queue.desc_idx,
            ),
            final(self).queue.avail.idx == wrap_inc(old(self).queue.avail.idx),
            final(self).wf(),
            r.0 == (ResourceFlush {
                header: command_header(ControllType::ResourceFlush),
                rect,
                resource_id: resource_idx as u32,
                padding: 0,
            }),
            r.1 == command_header(ControllType::ResourceFlush),
            final(self).queue.desc@ == command_chain(
                old(self).queue.desc@,
                old(self).queue.desc_idx as int,
                cmd,
                48,
                resp,
            ),
            final(self).queue.desc_idx == (old(self).queue.desc_idx + 2) % 128,
            final(self).frame_buffer@ == old(self).frame_buffer@,
            final(self).header == old(self).header,
            final(self).frame_addr == old(self).frame_addr,
            final(self).width == old(self).width,
            final(self).height == old(self).height,
            final(self).valid == old(self).valid,
            final(self).pin_idx == old(self).pin_idx,
            final(self).int == old(self).int,
    {
        let f = ResourceFlush::new(rect, resource_idx);
        let h = make_header(ControllType::ResourceFlush);
        self.add_desc(cmd, FLUSH_LEN, resp);
        (f, h)
    }

    /// Transfers `rect` of resource `resource_idx` to the host.
    pub fn transfer(&mut self, rect: Rect, resource_idx: usize, cmd: u64, resp: u64) -> (r: (
        TransferToHost2d,
        ControllHeader,
    ))
        requires
            old(self).wf(),
        ensures
            final(self).queue.avail.ring@ == old(self).queue.avail.ring@.update(
                (old(self).queue.avail.idx % 128) as int,
                old(self).queue.desc_idx,
            ),
            final(self).queue.avail.idx == wrap_inc(old(self).queue.avail.idx),
            final(self).wf(),
            r.0 == (TransferToHost2d {
                header: command_header(ControllType::TransferToHost2d),
                rect,
                offset: 0,
                resource_id: resource_idx as u32,
                padding: 0,
            }),
            r.1 == command_header(ControllType::TransferToHost2d),
            final(self).queue.desc@ == command_chain(
                old(self).queue.desc@,
                old(self).queue.desc_idx as int,
                cmd,
                56,
                resp,
            ),
            final(self).queue.desc_idx == (old(self).queue.desc_idx + 2) % 128,
            final(self).frame_buffer@ == old(self).frame_buffer@,
            final(self).header == old(self).header,
            final(self).frame_addr == old(self).frame_addr,
            final(self).width == old(self).width,
            final(self).height == old(self).height,
            final(self).valid == old(self).valid,
            final(self).pin_idx == old(self).pin_idx,
            final(self).int == old(self).int,
    {
        let t = TransferToHost2d::new(rect, resource_idx);
        let h = make_header(ControllType::TransferToHost2d);
        self.add_desc(cmd, TRANSFER_LEN, resp);
        (t, h)
    }

    /// Binds `rect` of resource `resource_idx` to scanout `scanout_idx`.
    pub fn set_scanout(
        &mut self,
        rect: Rect,
        resource_idx: usize,
        scanout_idx: usize,
        cmd: u64,
        resp: u64,
    ) -> (r: (Scanout, ControllHeader))
        requires
            old(self).wf(),
        ensures
            final(self).queue.avail.ring@ == old(self).queue.avail.ring@.update(
                (old(self).queue.avail.idx % 128) as int,
                old(self).queue.desc_idx,
            ),
            final(self).queue.avail.idx == wrap_inc(old(self).queue.avail.idx),
            final(self).wf(),
            r.0 == (Scanout {
                header: command_header(ControllType::SetScanout),
                rect,
                scanout_id: scanout_idx as u32,
                resource_id: resource_idx as u32,
            }),
            r.1 == command_header(ControllType::SetScanout),
            final(self).queue.desc@ == command_chain(
                old(self).queue.desc@,
                old(self).queue.desc_idx as int,
                cmd,
                48,
                resp,
            ),
            final(self).queue.desc_idx == (old(self).queue.desc_idx + 2) % 128,
            final(self).frame_buffer@ == old(self).frame_buffer@,
            final(self).header == old(self).header,
            final(self).frame_addr == old(self).frame_addr,
            final(self).width == old(self).width,
            final(self).height == old(self).height,
            final(self).valid == old(self).valid,
            final(self).pin_idx == old(self).pin_idx,
            final(self).int == old(self).int,
    {
        let s = Scanout::new(rect, resource_idx, scanout_idx);
        let h = make_header(ControllType::SetScanout);
        self.add_desc(cmd, SCANOUT_LEN, resp);
        (s, h)
    }

    /// Creates resource `resource_idx` of `width` by `height` pixels.
    pub fn create_resouce_id(
        &mut self,
        width: usize,
        height: usize,
        resource_idx: usize,
        cmd: u64,
        resp: u64,
    ) -> (r: (Create2D, ControllHeader))
        requires
            old(self).wf(),
        ensures
            final(self).queue.avail.ring@ == old(self).queue.avail.ring@.update(
                (old(self).queue.avail.idx % 128) as int,
                old(self).queue.desc_idx,
            ),
            final(self).queue.avail.idx == wrap_inc(old(self).queue.avail.idx),
            final(self).wf(),
            r.0 == (Create2D {
                header: command_header(ControllType::ResourceCreate2d),
                resource_idx: resource_idx as u32,
                format: 67,
                width: width as u32,
                height: height as u32,
            }),
            r.1 == command_header(ControllType::ResourceCreate2d),
            final(self).queue.desc@ == command_chain(
                old(self).queue.desc@,
                old(self).queue.desc_idx as int,
                cmd,
                40,
                resp,
            ),
            final(self).queue.desc_idx == (old(self).queue.desc_idx + 2) % 128,
            final(self).frame_buffer@ == old(self).frame_buffer@,
            final(self).header == old(self).header,
            final(self).frame_addr == old(self).frame_addr,
            final(self).width == old(self).width,
            final(self).height == old(self).height,
            final(self).valid == old(self).valid,
            final(self).pin_idx == old(self).pin_idx,
            final(self).int == old(self).int,
    {
        let c = Create2D::new(width, height, resource_idx);
        let h = make_header(ControllType::ResourceCreate2d);
        self.add_desc(cmd, CREATE_LEN, resp);
        (c, h)
    }

    /// Attaches the frame buffer to resource `resource_idx`: the command
    /// at `cmd`, the memory entry at `entry`, the response header at `resp`,
    /// chained in that order.
    pub fn attach(&mut self, resource_idx: u32, cmd: u64, entry: u64, resp: u64) -> (r: (
        AttachBacking,
        MemEntry,
        ControllHeader,
    ))
        requires
            old(self).wf(),
            old(self).width * old(self).height * 4 <= u32::MAX,
        ensures
            final(self).queue.avail.ring@ == old(self).queue.avail.ring@.update(
                (old(self).queue.avail.idx % 128) as int,
                old(self).queue.desc_idx,
            ),
            final(self).queue.avail.idx == wrap_inc(old(self).queue.avail.idx),
            final(self).wf(),
            r.0 == (AttachBacking {
                header: command_header(ControllType::ResourceAttachBacking),
                resource_id: resource_idx,
                entries: resource_idx,
            }),
            r.1 == (MemEntry {
                addr: old(self).frame_addr as u64,
                length: (old(self).width * old(self).height * 4) as u32,
                padding: 0,
            }),
            r.2 == command_header(ControllType::ResourceAttachBacking),
            final(self).queue.desc_idx == (old(self).queue.desc_idx + 3) % 128,
            final(self).queue.desc@ == old(self).queue.desc@.update(
                old(self).queue.desc_idx as int,
                Descriptor {
                    addr: cmd,
                    len: 32,
                    flags: 1,
                    next: ((old(self).queue.desc_idx + 1) % 128) as u16,
                },
            ).update(
                (old(self).queue.desc_idx + 1) % 128,
                Descriptor {
                    addr: entry,
                    len: 16,
                    flags: 1,
                    next: ((old(self).queue.desc_idx + 2) % 128) as u16,
                },
            ).update(
                (old(self).queue.desc_idx + 2) % 128,
                Descriptor { addr: resp, len: 24, flags: 2, next: 0 },
            ),
            final(self).frame_buffer@ == old(self).frame_buffer@,
            final(self).header == old(self).header,
            final(self).frame_addr == old(self).frame_addr,
            final(self).width == old(self).width,
            final(self).height == old(self).height,
            final(self).valid == old(self).valid,
            final(self).pin_idx == old(self).pin_idx,
            final(self).int == old(self).int,
    {
        let a = AttachBacking::new(resource_idx, resource_idx);
        let e = MemEntry {
            addr: self.frame_addr as u64,
            length: (self.width * self.height * 4) as u32,
            padding: 0,
        };
        let h = make_header(ControllType::ResourceAttachBacking);
        self.queue.add_avail();
        self.queue.add_desc(cmd, ATTACH_LEN, DescFlag::Next.val());
        self.queue.add_desc(entry, ENTRY_LEN, DescFlag::Next.val());
        self.queue.add_desc(resp, HEADER_LEN, DescFlag::Write.val());
        proof {
            lemma_flag_bits();
        }
        (a, e, h)
    }

    /// Notifies the device.
    pub fn run(&mut self)
        ensures
            final(self).header == (VirtHeader { queue_notify: 0, ..old(self).header }),
            final(self).queue == old(self).queue,
            final(self).frame_buffer == old(self).frame_buffer,
            final(self).width == old(self).width,
            final(self).height == old(self).height,
            final(self).frame_addr == old(self).frame_addr,
            final(self).pin_idx == old(self).pin_idx,
            final(self).int == old(self).int,
            final(self).valid == old(self).valid,
    {
        self.header.notify();
    }

    /// Records that an interrupt is waiting.
    pub fn pending(&mut self)
        ensures
            final(self).int,
            final(self).queue == old(self).queue,
            final(self).frame_buffer == old(self).frame_buffer,
            final(self).header == old(self).header,
            final(self).width == old(self).width,
            final(self).height == old(self).height,
    {
        self.int = true;
    }


    /// Redraws the whole screen from resource 1: a transfer of the whole
    /// frame (command at `tcmd`, response at `tresp`), then a flush of it
    /// (`fcmd`, `fresp`), then a notification.
    pub fn refresh(&mut self, tcmd: u64, tresp: u64, fcmd: u64, fresp: u64) -> (r: (
        TransferToHost2d,
        ResourceFlush,
    ))
        requires
            old(self).wf(),
        ensures
            final(self).wf(),
            r.0.rect == (Rect { x1: 0, y1: 0, x2: old(self).width as u32, y2: old(self).height as u32 }),
            r.0.resource_id == 1,
            r.0.header == command_header(ControllType::TransferToHost2d),
            r.1.rect == r.0.rect,
            r.1.resource_id == 1,
            r.1.header == command_header(ControllType::ResourceFlush),
            final(self).queue.desc@ == command_chain(
                command_chain(
                    old(self).queue.desc@,
                    old(self).queue.desc_idx as int,
                    tcmd,
                    56,
                    tresp,
                ),
                (old(self).queue.desc_idx + 2) % 128,
                fcmd,
                48,
                fresp,
            ),
            final(self).queue.desc_idx == (old(self).queue.desc_idx + 4) % 128,
            final(self).queue.avail.ring@ == old(self).queue.avail.ring@.update(
                (old(self).queue.avail.idx % 128) as int,
                old(self).queue.desc_idx,
            ).update((wrap_inc(old(self).queue.avail.idx) % 128) as int, ((old(self).queue.desc_idx + 2) % 128) as u16),
            final(self).queue.avail.idx == wrap_inc(wrap_inc(old(self).queue.avail.idx)),
            final(self).header == (VirtHeader { queue_notify: 0, ..old(self).header }),
            final(self).frame_buffer@ == old(self).frame_buffer@,
    {
        let rect = Rect { x1: 0, y1: 0, x2: self.width as u32, y2: self.height as u32 };
        let (t, _) = self.transfer(rect, 1, tcmd, tresp);
        let (f, _) = self.flush(rect, 1, fcmd, fresp);
        self.run();
        (t, f)
    }


    /// Marks the screen as no longer showing the frame buffer.
    pub fn invalid(&mut self)
        ensures
            !final(self).valid,
            final(self).queue == old(self).queue,
            final(self).frame_buffer == old(self).frame_buffer,
            final(self).header == old(self).header,
            final(self).width == old(self).width,
            final(self).height == old(self).height,
            final(self).int == old(self).int,
    {
        self.valid = false;
    }

    /// Clears the screen to (10, 10, 10, 255) and sets the display up:
    /// resource 1 of the screen's size is created, the frame buffer is
    /// attached to it, it is bound to scanout 0, transferred and flushed,
    /// and the device is notified. `slots` are the addresses for the
    /// command records and their response headers, in that order.
    #[verifier::rlimit(80)]
    pub fn reset(&mut self, slots: &Vec<u64>) -> (r: (Create2D, AttachBacking, MemEntry, Scanout, TransferToHost2d, ResourceFlush))
        requires
            old(self).wf(),
            slots@.len() >= 11,
            old(self).width * old(self).height * 4 <= u32::MAX,
        ensures
            final(self).wf(),
            final(self).frame_buffer@ == filled(
                old(self).frame_buffer@,
                old(self).width as int,
                0,
                0,
                old(self).width as int,
                old(self).height as int,
                Pixel { r: 10, g: 10, b: 10, a: 255 },
            ),
            final(self).queue.desc_idx == (old(self).queue.desc_idx + 11) % 128,
            final(self).queue.desc@ == reset_chains(old(self).queue.desc@, old(self).queue.desc_idx as int, slots@),
            final(self).queue.avail.ring@ == reset_ring(
                old(self).queue.avail.ring@,
                old(self).queue.avail.idx,
                old(self).queue.desc_idx as int,
            ),
            final(self).queue.avail.idx == wrap_inc(wrap_inc(wrap_inc(wrap_inc(wrap_inc(old(self).queue.avail.idx))))),
            final(self).header == (VirtHeader { queue_notify: 0, ..old(self).header }),
            final(self).width == old(self).width,
            final(self).height == old(self).height,
            final(self).frame_addr == old(self).frame_addr,
            final(self).pin_idx == old(self).pin_idx,
            final(self).int == old(self).int,
            final(self).valid == old(self).valid,
            r.0.resource_idx == 1 && r.0.width == old(self).width as u32 && r.0.height == old(self).height as u32,
            r.1.resource_id == 1,
            r.2.addr == old(self).frame_addr as u64,
            r.3.resource_id == 1 && r.3.scanout_id == 0,
            r.4.resource_id == 1 && r.5.resource_id == 1,
            r.3.rect == (Rect { x1: 0, y1: 0, x2: old(self).width as u32, y2: old(self).height as u32 }),
            r.4.rect == r.3.rect && r.5.rect == r.3.rect,
    {
        let rect = Rect { x1: 0, y1: 0, x2: self.width as u32, y2: self.height as u32 };
        let w = self.width;
        let h = self.height;
        self.fill_rect(0, 0, w, h, Pixel { r: 10, g: 10, b: 10, a: 255 });
        let (c, _) = self.create_resouce_id(w, h, 1, slots[0], slots[1]);
        let (a, e, _) = self.attach(1, slots[2], slots[3], slots[4]);
        let (sc, _) = self.set_scanout(rect, 1, 0, slots[5], slots[6]);
        let (t, _) = self.transfer(rect, 1, slots[7], slots[8]);
        let (f, _) = self.flush(rect, 1, slots[9], slots[10]);
        self.run();
        (c, a, e, sc, t, f)
    }

    /// Sets columns `[x, x + width)` of rows `[y, y + height)` to `color`.
    pub fn fill_rect(&mut self, x: usize, y: usize, width: usize, height: usize, color: Pixel)
        requires
            old(self).wf(),
            x + width <= old(self).width,
            y + height <= old(self).height,
        ensures
            final(self).wf(),
            final(self).frame_buffer@ == filled(
                old(self).frame_buffer@,
                old(self).width as int,
                x as int,
                y as int,
                width as int,
                height as int,
                color,
            ),
            final(self).queue == old(self).queue,
            final(self).header == old(self).header,
            final(self).width == old(self).width,
            final(self).height == old(self).height,
            final(self).frame_addr == old(self).frame_addr,
            final(self).valid == old(self).valid,
            final(self).pin_idx == old(self).pin_idx,
            final(self).int == old(self).int,
    {
        let w = self.width;
        let ghost fb0 = self.frame_buffer@;
        let mut i = x;
        while i < x + width
            invariant
                self.wf(),
                self.width == w,
                self.height == old(self).height,
                self.queue == old(self).queue,
                self.header == old(self).header,
                self.frame_addr == old(self).frame_addr,
                self.valid == old(self).valid,
                self.pin_idx == old(self).pin_idx,
                self.int == old(self).int,
                x + width <= w,
                y + height <= self.height,
                x <= i <= x + width,
                fb0.len() == w * self.height,
                self.frame_buffer@ == filled(fb0, w as int, x as int, y as int, (i - x) as int, height as int, color),
            decreases x + width - i,
        {
            let mut j = y;
            while j < y + height
                invariant
                    self.wf(),
                    self.width == w,
                    self.height == old(self).height,
                    self.queue == old(self).queue,
                    self.header == old(self).header,
                    self.frame_addr == old(self).frame_addr,
                    self.valid == old(self).valid,
                    self.pin_idx == old(self).pin_idx,
                    self.int == old(self).int,
                self.valid == old(self).valid,
                self.pin_idx == old(self).pin_idx,
                self.int == old(self).int,
                    x + width <= w,
                    y + height <= self.height,
                    x <= i < x + width,
                    y <= j <= y + height,
                    fb0.len() == w * self.height,
                    self.frame_buffer@ == Seq::new(
                        fb0.len(),
                        |k: int|
                            if k % (w as int) == i && y <= k / (w as int) < j {
                                color
                            } else {
                                filled(fb0, w as int, x as int, y as int, (i - x) as int, height as int, color)[k]
                            },
                    ),
                decreases y + height - j,
            {
                proof {
                    assert(j * w + i < w * self.height) by (nonlinear_arith)
                        requires
                            j < self.height,
                            i < w,
                    ;
                    lemma_row_col(j as int, i as int, w as int);
                }
                let idx = j * w + i;
                self.frame_buffer.set(idx, color);
                proof {
                    let cur = self.frame_buffer@;
                    assert forall|k: int| 0 <= k < cur.len() implies #[trigger] cur[k] == (if k % (w as int) == i && y <= k / (w as int) < j + 1 {
                                color
                            } else {
                                filled(fb0, w as int, x as int, y as int, (i - x) as int, height as int, color)[k]
                            }) by {
                        if k != idx {
                            if k % (w as int) == i && k / (w as int) == j {
                                lemma_row_col(j as int, i as int, w as int);
                                assert(k == (k / (w as int)) * w + k % (w as int)) by (nonlinear_arith)
                                    requires
                                        w > 0,
                                ;
                            }
                        }
                    }
                }
                j = j + 1;
            }
            proof {
                assert(self.frame_buffer@ =~= filled(fb0, w as int, x as int, y as int, (i + 1 - x) as int, height as int, color));
            }
            i = i + 1;
        }
    }

    /// Copies `color_buffer` (rows of `x2 - x1` pixels) into the rectangle
    /// `rect`, cut at the right and bottom edges of the screen; nothing when
    /// the rectangle starts right of the screen or below it.
    pub fn draw_rect_override(&mut self, rect: Rect, color_buffer: &Vec<Pixel>)
        requires
            old(self).wf(),
            rect.x1 <= rect.x2,
            (rect.x1 as int) < old(self).width && rect.y1 <= old(self).height ==> (if rect.y2
                <= old(self).height {
                rect.y2 as int
            } else {
                old(self).height as int
            }) <= rect.y1 || ((if rect.y2 <= old(self).height {
                rect.y2 as int
            } else {
                old(self).height as int
            }) - rect.y1) * (rect.x2 - rect.x1) <= color_buffer@.len(),
        ensures
            final(self).wf(),
            final(self).width == old(self).width,
            final(self).height == old(self).height,
            final(self).queue == old(self).queue,
            final(self).header == old(self).header,
            final(self).frame_addr == old(self).frame_addr,
            final(self).frame_buffer@ == if rect.x1 as int >= old(self).width || rect.y1 as int
                > old(self).height {
                old(self).frame_buffer@
            } else {
                drawn(
                    old(self).frame_buffer@,
                    old(self).width as int,
                    rect.y1 as int,
                    if rect.y2 <= old(self).height {
                        rect.y2 as int
                    } else {
                        old(self).height as int
                    },
                    rect.x1 as int,
                    (if rect.x2 as int <= old(self).width {
                        rect.x2 as int
                    } else {
                        old(self).width as int
                    }) - rect.x1,
                    rect.x2 - rect.x1,
                    color_buffer@,
                )
            },
    {
        let w = self.width;
        if rect.x1 as usize >= w || rect.y1 as usize > self.height {
            return;
        }
        let y_end: usize = if (rect.y2 as usize) < self.height {
            rect.y2 as usize
        } else {
            self.height
        };
        let width = (rect.x2 - rect.x1) as usize;
        let x_end: usize = if (rect.x2 as usize) < w {
            rect.x2 as usize
        } else {
            w
        };
        let line = x_end - rect.x1 as usize;
        let x1 = rect.x1 as usize;
        let y1 = rect.y1 as usize;
        let ghost fb0 = self.frame_buffer@;
        let mut row: usize = y1;
        while row < y_end
            invariant
                self.wf(),
                self.width == w,
                self.height == old(self).height,
                self.queue == old(self).queue,
                self.header == old(self).header,
                self.frame_addr == old(self).frame_addr,
                y1 <= row,
                row <= y_end || row == y1,
                y_end <= self.height,
                x1 + line == x_end,
                x_end <= w,
                fb0.len() == w * self.height,
                y_end <= y1 || (y_end - y1) * width <= color_buffer@.len(),
                line <= width,
                self.frame_buffer@ == drawn(fb0, w as int, y1 as int, row as int, x1 as int, line as int, width as int, color_buffer@),
            decreases y_end - row,
        {
            proof {
                assert((row - y1) * width + width <= (y_end - y1) * width) by (nonlinear_arith)
                    requires
                        row < y_end,
                        y1 <= row,
                ;
                assert(row * w + w <= w * self.height) by (nonlinear_arith)
                    requires
                        row < self.height,
                ;
            }
            let cl = color_buffer.len();
            assert(y_end > y1);
            assert((y_end - y1) * width <= cl);
            assert((row - y1) * width + width <= color_buffer@.len());
            let base = (row - y1) * width;
            let mut t: usize = 0;
            while t < line
                invariant
                    self.wf(),
                    self.width == w,
                    self.height == old(self).height,
                    self.queue == old(self).queue,
                    self.header == old(self).header,
                    self.frame_addr == old(self).frame_addr,
                    y1 <= row < y_end,
                    y_end <= self.height,
                    x1 + line == x_end,
                    x_end <= w,
                    fb0.len() == w * self.height,
                    base == (row - y1) * width,
                    base + width <= cl,
                    cl == color_buffer@.len(),
                    row * w + w <= w * self.height,
                    line <= width,
                    t <= line,
                    self.frame_buffer@ == Seq::new(
                        fb0.len(),
                        |k: int|
                            if k / (w as int) == row && x1 <= k % (w as int) < x1 + t {
                                color_buffer@[(row - y1) * width + (k % (w as int) - x1)]
                            } else {
                                drawn(fb0, w as int, y1 as int, row as int, x1 as int, line as int, width as int, color_buffer@)[k]
                            },
                    ),
                decreases line - t,
            {
                let idx = row * w + x1 + t;
                let p = color_buffer[base + t];
                self.frame_buffer.set(idx, p);
                proof {
                    lemma_row_col(row as int, (x1 + t) as int, w as int);
                    let cur = self.frame_buffer@;
                    assert forall|k: int| 0 <= k < cur.len() implies #[trigger] cur[k] == (if k / (w as int) == row && x1 <= k % (w as int) < x1 + t + 1 {
                                color_buffer@[(row - y1) * width + (k % (w as int) - x1)]
                            } else {
                                drawn(fb0, w as int, y1 as int, row as int, x1 as int, line as int, width as int, color_buffer@)[k]
                            }) by {
                        if k != idx && k / (w as int) == row && k % (w as int) == x1 + t {
                            assert(k == (k / (w as int)) * w + k % (w as int)) by (nonlinear_arith)
                                requires
                                    w > 0,
                            ;
                        }
                    }
                    assert(cur =~= Seq::new(
                        fb0.len(),
                        |k: int|
                            if k / (w as int) == row && x1 <= k % (w as int) < x1 + t + 1 {
                                color_buffer@[(row - y1) * width + (k % (w as int) - x1)]
                            } else {
                                drawn(fb0, w as int, y1 as int, row as int, x1 as int, line as int, width as int, color_buffer@)[k]
                            },
                    ));
                }
                t = t + 1;
            }
            proof {
                assert(self.frame_buffer@ =~= drawn(fb0, w as int, y1 as int, (row + 1) as int, x1 as int, line as int, width as int, color_buffer@));
            }
            row = row + 1;
        }
        proof {
            if y_end < y1 {
                assert(drawn(fb0, w as int, y1 as int, y1 as int, x1 as int, line as int, width as int, color_buffer@) =~= fb0);
                assert(drawn(fb0, w as int, y1 as int, y_end as int, x1 as int, line as int, width as int, color_buffer@) =~= fb0);
            }
        }
    }
}

/// The width of the screen that `init_gpu` sets up, in pixels.
pub const WIDTH: usize = 640;

/// The height of the screen that `init_gpu` sets up, in pixels.
pub const HEIGHT: usize = 480;

/// The kernel pages that `init_gpu` takes for a frame buffer of `WIDTH`
/// by `HEIGHT` pixels: the pages its bytes need, and two more.
pub const FRAME_PAGES: usize = 302;

/// The writes that open the handshake of a graphics device whose host
/// features are `host_features`, in order: it is offered every one.
pub fn init_gpu_begin(host_features: u32) -> (w: Vec<RegWrite>)
    ensures
        w@ == handshake_seq(host_features),
{
    handshake_writes(host_features)
}

/// Finishes setting up a graphics device on pin `idx` once the
/// handshake's opening writes (`init_gpu_begin`) are done: `header`
/// holds the device's registers as read before them and `status_back` the status the device read back after
/// features ok. Gives the writes still to make, in order, and the device:
/// failed when features ok was refused; nothing more when the queue
/// maximum is below 128; else the page size, queue 0 of 128 entries on two
/// kernel pages (at 0 when none are free) with their page number, and
/// driver ok. The device then has `FRAME_PAGES` kernel pages (at 0 when
/// none are free) for a `WIDTH` by `HEIGHT` frame buffer, an empty queue,
/// and is valid. `header` follows the writes.
pub fn init_gpu(header: &mut VirtHeader, status_back: u32, idx: usize, pm: &mut PageManager) -> (r: (
    Vec<RegWrite>,
    Option<GPU>,
))
    requires
        old(pm).wf(),
    ensures
        final(pm).wf(),
        final(pm).kernel_base() == old(pm).kernel_base(),
        final(pm).kernel_num() == old(pm).kernel_num(),
        final(pm).user_start() == old(pm).user_start(),
        final(pm).page_size_spec() == old(pm).page_size_spec(),
        r.1 is Some <==> status_back & 8u32 != 0 && old(header).queue_num_max >= 128,
        status_back & 8u32 == 0 ==> r.0@ == seq![RegWrite::Status(128)] && final(pm).pages() == old(pm).pages()
            && *final(header) == (VirtHeader {
            status: 128,
            guest_features: old(header).host_features,
            ..*old(header)
        }),
        status_back & 8u32 != 0 && old(header).queue_num_max < 128 ==> r.0@ == Seq::<RegWrite>::empty()
            && final(pm).pages() == old(pm).pages() && *final(header) == (VirtHeader {
            status: status_back,
            guest_features: old(header).host_features,
            ..*old(header)
        }),
        r.1 matches Some(g) ==> {
            &&& g.wf()
            &&& g.pin_idx == idx
            &&& g.width == WIDTH
            &&& g.height == HEIGHT
            &&& g.valid
            &&& !g.int
            &&& g.header == *final(header)
            &&& g.queue.desc_idx == 0
            &&& g.queue.used_idx == 0
            &&& g.queue.avail.idx == 0
            &&& forall|j: int|
                0 <= j < g.frame_buffer@.len() ==> #[trigger] g.frame_buffer@[j] == (Pixel {
                    r: 0,
                    g: 0,
                    b: 0,
                    a: 0,
                })
            &&& exists|mid: PageManager, q: Option<usize>, f: Option<usize>|
                #![trigger took_pages(*old(pm), true, 2, mid, q), took_pages(mid, true, 302, *final(pm), f)]
                {
                    let pfn = (addr_or_zero(q) / 4096) as u32;
                    &&& took_pages(*old(pm), true, 2, mid, q)
                    &&& took_pages(mid, true, 302, *final(pm), f)
                    &&& g.frame_addr == addr_or_zero(f)
                    &&& r.0@ == seq![
                        RegWrite::GuestPageSize(4096),
                        RegWrite::QueueSel(0),
                        RegWrite::QueueNum(128),
                        RegWrite::QueuePfn(pfn),
                        RegWrite::Status(15),
                    ]
                    &&& *final(header) == (VirtHeader {
                        status: 15,
                        guest_features: old(header).host_features,
                        guest_page_size: 4096,
                        queue_sel: 0,
                        queue_num: 128,
                        queue_pfn: pfn,
                        ..*old(header)
                    })
                }
        },
{
    proof {
        lemma_flag_bits();
    }
    let mut writes: Vec<RegWrite> = Vec::new();
    header.status = 0;
    let mut status: u32 = 1;
    header.status = status;
    status = status | 2;
    header.status = status;
    let feat = header.host_features;
    header.guest_features = feat;
    status = status | 8;
    header.status = status;
    header.status = status_back;
    let res = header.status;
    if res & 8 == 0 {
        header.status = 128;
        writes.push(RegWrite::Status(128));
        proof {
            assert(writes@ =~= seq![RegWrite::Status(128)]);
        }
        return (writes, None);
    }
    let num_max = header.queue_num_max;
    if num_max < VIRTIO_RING_SIZE as u32 {
        return (writes, None);
    }
    header.guest_page_size = PAGE_SIZE as u32;
    writes.push(RegWrite::GuestPageSize(PAGE_SIZE as u32));
    let got = pm.alloc_kernel_page(QUEUE_PAGES);
    let ghost mid = *pm;
    let queue = match got {
        Some(a) => a,
        None => 0,
    };
    header.queue_sel = 0;
    writes.push(RegWrite::QueueSel(0));
    header.queue_num = VIRTIO_RING_SIZE as u32;
    writes.push(RegWrite::QueueNum(VIRTIO_RING_SIZE as u32));
    let pfn = (queue / PAGE_SIZE) as u32;
    header.queue_pfn = pfn;
    writes.push(RegWrite::QueuePfn(pfn));
    status = status | 4;
    header.status = status;
    writes.push(RegWrite::Status(status));
    let frame = pm.alloc_kernel_page(FRAME_PAGES);
    let frame_addr = match frame {
        Some(a) => a,
        None => 0,
    };
    let n = WIDTH * HEIGHT;
    let mut frame_buffer: Vec<Pixel> = Vec::new();
    let mut i: usize = 0;
    while i < n
        invariant
            i <= n,
            n == WIDTH * HEIGHT,
            frame_buffer@.len() == i,
            forall|j: int|
                0 <= j < i ==> #[trigger] frame_buffer@[j] == (Pixel { r: 0, g: 0, b: 0, a: 0 }),
        decreases n - i,
    {
        frame_buffer.push(Pixel { r: 0, g: 0, b: 0, a: 0 });
        i = i + 1;
    }
    let g = GPU {
        header: *header,
        queue: VirtQueue::new(),
        pin_idx: idx,
        frame_buffer,
        frame_addr,
        width: WIDTH,
        height: HEIGHT,
        int: false,
        valid: true,
    };
    proof {
        assert(took_pages(*old(pm), true, 2, mid, got));
        assert(took_pages(mid, true, 302, *pm, frame));
    }
    proof {
        assert(writes@ =~= seq![
            RegWrite::GuestPageSize(4096),
            RegWrite::QueueSel(0),
            RegWrite::QueueNum(128),
            RegWrite::QueuePfn(pfn),
            RegWrite::Status(15),
        ]);
    }
    (writes, Some(g))
}

} // verus!
