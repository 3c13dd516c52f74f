use tisuos::memory::block::Block;
use tisuos::memory::config::PAGE_SIZE;
use tisuos::memory::page::PageManager;
use tisuos::virtio::block::{Block as BlockDev, Request};
use tisuos::virtio::block_device::{init_block, BlockDevice};
use tisuos::virtio::buffer::{Buffer, DiskCache, BUFFER_SIZE};
use tisuos::virtio::device::{
    decoder_panics, device_pin, gpu_support, probe_addresses, DeviceKind, DeviceTable, handle_input, input_actions, DecodedInput, InputAction, KeyAction,
};
use tisuos::virtio::gpu::{init_gpu, WIDTH, HEIGHT, AttachBacking, ControllType, Pixel, Rect, ResourceFlush, Scanout, TransferToHost2d, GPU};
use tisuos::virtio::header::{handshake_writes, RegWrite, VirtHeader};
use tisuos::virtio::input_buffer::InputBuffer;
use tisuos::virtio::ip::Ip;
use tisuos::virtio::keyboard::Key;
use tisuos::virtio::queue::{Descriptor, VirtQueue};

const BASE: usize = 0x8000_0000;

fn manager() -> PageManager {
    PageManager::new(BASE, BASE + 64 * PAGE_SIZE, BASE + (64 + 8192) * PAGE_SIZE, PAGE_SIZE)
}

#[test]
fn key_codes_round_trip() {
    assert_eq!(Key::from(30), Key::A);
    assert_eq!(Key::A.code(), 30);
    assert_eq!(Key::from(272), Key::MouseLeft);
    assert_eq!(Key::from(1000), Key::NoKey);
    assert_eq!(Key::from(Key::Space.code()), Key::Space);
    assert_eq!(Key::A.to_char(), Some('a'));
    assert_eq!(Key::Enter.to_char(), Some('\r'));
    assert_eq!(Key::LSHIFT.to_char(), None);
}

#[test]
fn pressed_letter_is_recorded_and_input() {
    assert_eq!(handle_input(1, 30, 1), vec![InputAction::KeyPress(30), InputAction::Input('a')]);
}

#[test]
fn pressed_shift_is_only_recorded() {
    assert_eq!(handle_input(1, 42, 1), vec![InputAction::KeyPress(42)]);
}

#[test]
fn released_key_is_recorded() {
    assert_eq!(handle_input(1, 28, 0), vec![InputAction::KeyRelease(28)]);
}

#[test]
fn wheel_and_axes() {
    assert_eq!(handle_input(2, 8, 1), vec![InputAction::Scroll(1)]);
    assert_eq!(handle_input(2, 8, 0xffff_ffff), vec![InputAction::Scroll(2)]);
    assert_eq!(handle_input(3, 0x151, 0), vec![InputAction::Scroll(1)]);
    assert_eq!(handle_input(2, 0, 55), vec![InputAction::MouseX(55)]);
    assert_eq!(handle_input(3, 1, 7), vec![InputAction::MouseY(7)]);
}

#[test]
fn undecoded_events_change_nothing() {
    assert_eq!(handle_input(1, 0x150, 0), vec![]);
    assert_eq!(handle_input(0, 3, 3), vec![]);
    assert_eq!(handle_input(4, 8, 1), vec![]);
}

#[test]
fn actions_of_a_decoded_key() {
    assert_eq!(
        input_actions(Ok(DecodedInput::Key(2, KeyAction::Press))),
        vec![InputAction::KeyPress(2), InputAction::Input('1')]
    );
    assert_eq!(input_actions(Err(())), vec![]);
}

#[test]
fn gpu_support_needs_a_device() {
    assert!(!gpu_support(0));
    assert!(gpu_support(2));
}

#[test]
fn input_buffer_is_first_in_first_out() {
    let mut b = InputBuffer::new(0u16);
    assert_eq!(b.pop(), None);
    b.push(3);
    b.push(4);
    assert_eq!(b.get_cur(), 4);
    assert_eq!(b.pop(), Some(3));
    assert_eq!(b.pop(), Some(4));
    assert_eq!(b.pop(), None);
}

#[test]
fn queue_chains_descriptors() {
    let mut q = VirtQueue::new();
    q.add_avail();
    q.add_desc(0x1000, 16, 1);
    q.add_desc(0x2000, 1, 2);
    assert_eq!(q.avail.idx, 1);
    assert_eq!(q.avail.ring[0], 0);
    assert_eq!(q.desc[0], Descriptor { addr: 0x1000, len: 16, flags: 1, next: 1 });
    assert_eq!(q.desc[1], Descriptor { addr: 0x2000, len: 1, flags: 2, next: 0 });
    assert_eq!(q.desc_idx, 2);
    assert!(!q.is_pending());
}

#[test]
fn header_negotiation() {
    let mut h = VirtHeader::new();
    h.host_features = 0xff;
    assert_eq!(h.set_feature(!(1 << 5), 13), Ok(()));
    assert_eq!(h.guest_features, 0xdf);
    assert_eq!(h.status, 13);
    // A device that clears features ok refuses the features.
    assert_eq!(h.set_feature(!0, 5), Err(()));
    assert_eq!(h.status, 5);
    assert_eq!(h.guest_features, 0xff);
    assert_eq!(h.set_ring_size(128), Err(()));
    h.queue_num_max = 256;
    assert_eq!(h.set_ring_size(128), Ok(()));
    assert_eq!(h.queue_num, 128);
    h.set_pfn(0, 0x8000_3000);
    assert_eq!(h.queue_pfn, 0x80003);
}

#[test]
fn request_targets_a_sector() {
    let r = Request::new(0x4000, 1536, true);
    assert_eq!(r.header.sector, 3);
    assert_eq!(r.header.blktype, 1);
    assert_eq!(r.status, 111);
    let r = Request::new(0x4000, 100, false);
    assert_eq!(r.header.sector, 0);
    assert_eq!(r.header.blktype, 0);
}

#[test]
fn block_device_sets_up_and_queues_a_write() {
    let mut pm = manager();
    let mut h = VirtHeader::new();
    h.queue_num_max = 128;
    h.host_features = 0x21;
    let mut b = BlockDev::new(1, h, 11, &mut pm).unwrap();
    assert_eq!(b.queue_addr, BASE + 3 * PAGE_SIZE);
    assert_eq!(b.header.status, 4);
    assert_eq!(b.header.guest_features, 1);
    assert_eq!(b.header.queue_pfn, ((BASE + 3 * PAGE_SIZE) / PAGE_SIZE) as u32);
    b.sync_write(0x9000, 512, 0x100, 0x118);
    assert_eq!(b.queue.desc[0], Descriptor { addr: 0x100, len: 16, flags: 1, next: 1 });
    assert_eq!(b.queue.desc[1], Descriptor { addr: 0x9000, len: 512, flags: 1, next: 2 });
    assert_eq!(b.queue.desc[2], Descriptor { addr: 0x118, len: 1, flags: 2, next: 0 });
    b.sync_read(0xa000, 512, 0x200, 0x218);
    assert_eq!(b.queue.desc[4], Descriptor { addr: 0xa000, len: 512, flags: 3, next: 5 });
    assert_eq!(b.queue.avail.ring[1], 3);
    assert!(b.interrupt_handler().is_empty());
    b.queue.used.ring[0].id = 0;
    b.queue.used.ring[1].id = 3;
    b.queue.used.idx = 2;
    b.pending();
    assert_eq!(b.interrupt_handler(), vec![0x100, 0x200]);
    assert!(!b.int);
}

#[test]
fn block_device_refuses_a_small_queue() {
    let mut pm = manager();
    let mut h = VirtHeader::new();
    h.host_features = 0xff;
    assert_eq!(
        handshake_writes(0xff & !(1 << 5)),
        vec![
            RegWrite::Status(0),
            RegWrite::Status(1),
            RegWrite::Status(3),
            RegWrite::GuestFeatures(0xdf),
            RegWrite::Status(11),
        ]
    );
    h.queue_num_max = 64;
    let (w, d) = init_block(&mut h, 11, 2, &mut pm);
    assert!(d.is_none());
    assert_eq!(w, vec![RegWrite::QueueNum(128)]);
    assert_eq!(h.queue_num, 128);
    assert_eq!(h.status, 11);
    assert_eq!(h.guest_features, 0xdf);
    h.queue_num_max = 128;
    let (w, d) = init_block(&mut h, 11, 2, &mut pm);
    let d = d.unwrap();
    let pfn = ((BASE + 3 * PAGE_SIZE) as u32) / 4096;
    assert_eq!(
        w,
        vec![
            RegWrite::QueueNum(128),
            RegWrite::QueueSel(0),
            RegWrite::GuestPageSize(4096),
            RegWrite::QueuePfn(pfn),
            RegWrite::Status(15),
        ]
    );
    assert_eq!(d.header.status, 15);
    assert_eq!(d.header.guest_page_size, 4096);
    assert_eq!(d.header.queue_pfn, pfn);
}

#[test]
fn block_device_refused_features() {
    let mut pm = manager();
    let mut h = VirtHeader::new();
    h.queue_num_max = 128;
    // The device cleared features ok: nothing more is written.
    let (w, d) = init_block(&mut h, 3, 2, &mut pm);
    assert!(d.is_none());
    assert!(w.is_empty());
    assert_eq!(h.status, 3);
    assert_eq!(h.queue_num, 0);
}

#[test]
fn block_device_operation_chain() {
    let mut d = BlockDevice::new(1, VirtQueue::new(), VirtHeader::new());
    let mut r = Request::new(0, 0, false);
    d.operation(0x7000, 1024, 4096, false, &mut r, 0x300, 0x318);
    assert_eq!(r.header.sector, 8);
    assert_eq!(r.header.blktype, 0);
    assert_eq!(r.data, 0x7000);
    assert_eq!(d.queue_idx, 3);
    assert_eq!(d.queue.desc[1], Descriptor { addr: 0x300, len: 16, flags: 1, next: 2 });
    assert_eq!(d.queue.desc[2], Descriptor { addr: 0x7000, len: 1024, flags: 3, next: 3 });
    assert_eq!(d.queue.desc[3], Descriptor { addr: 0x318, len: 1, flags: 2, next: 0 });
    assert_eq!(d.queue.avail.ring[0], 1);
    assert_eq!(d.queue.avail.idx, 1);
}

fn gpu(width: usize, height: usize) -> GPU {
    GPU {
        header: VirtHeader::new(),
        queue: VirtQueue::new(),
        pin_idx: 3,
        frame_buffer: vec![Pixel { r: 0, g: 0, b: 0, a: 0 }; width * height],
        frame_addr: 0x8800_0000,
        width,
        height,
        int: false,
        valid: true,
    }
}

#[test]
fn gpu_commands_go_into_the_queue() {
    let mut g = gpu(4, 3);
    let rect = Rect { x1: 0, y1: 0, x2: 4, y2: 3 };
    let (f, h) = g.flush(rect, 1, 0x100, 0x200);
    assert_eq!(f.resource_id, 1);
    assert_eq!(f.header.ctype, 0x104);
    assert_eq!(h.ctype, 0x104);
    assert_eq!(g.queue.desc[0], Descriptor { addr: 0x100, len: 48, flags: 1, next: 1 });
    assert_eq!(g.queue.desc[1], Descriptor { addr: 0x200, len: 24, flags: 2, next: 0 });
    let (a, e, _) = g.attach(1, 0x300, 0x400, 0x500);
    assert_eq!(a.entries, 1);
    assert_eq!(e.addr, 0x8800_0000);
    assert_eq!(e.length, 48);
    assert_eq!(g.queue.desc_idx, 5);
    assert_eq!(ControllType::RespOkNoData.val(), 0x1100);
    g.invalid();
    assert!(!g.valid);
}

#[test]
fn gpu_reset_clears_the_screen() {
    let mut g = gpu(4, 3);
    let slots: Vec<u64> = (0..11).map(|i| 0x1000 + i * 0x40).collect();
    let (c, _, _, s, _, _) = g.reset(&slots);
    assert_eq!(c.width, 4);
    assert_eq!(c.height, 3);
    assert_eq!(c.format, 67);
    assert_eq!(s.scanout_id, 0);
    assert!(g.frame_buffer.iter().all(|p| *p == Pixel { r: 10, g: 10, b: 10, a: 255 }));
    assert_eq!(g.queue.desc_idx, 11);
}

#[test]
fn gpu_draws_a_rectangle_cut_at_the_edge() {
    let mut g = gpu(4, 3);
    let red = Pixel { r: 255, g: 0, b: 0, a: 255 };
    let blue = Pixel { r: 0, g: 0, b: 255, a: 255 };
    g.fill_rect(0, 0, 4, 3, blue);
    // A 3-wide, 2-high rectangle at column 2, row 1: only 2 columns fit.
    let colors = vec![red; 6];
    g.draw_rect_override(Rect { x1: 2, y1: 1, x2: 5, y2: 3 }, &colors);
    for row in 0..3 {
        for col in 0..4 {
            let p = g.frame_buffer[row * 4 + col];
            if row >= 1 && col >= 2 {
                assert_eq!(p, red);
            } else {
                assert_eq!(p, blue);
            }
        }
    }
    let before = g.frame_buffer.clone();
    g.draw_rect_override(Rect { x1: 4, y1: 0, x2: 6, y2: 1 }, &colors);
    assert_eq!(g.frame_buffer, before);
}

#[test]
fn disk_buffer_copies_within_its_window() {
    let mut b = Buffer::new(BUFFER_SIZE);
    assert!(b.is_contain(BUFFER_SIZE));
    assert!(!b.is_contain(2 * BUFFER_SIZE));
    assert_eq!(b.copy_len(BUFFER_SIZE + 10), BUFFER_SIZE - 10);
    let src = Block::new(8, 7u8);
    let mut counter = 5usize;
    b.copy_from(2 * BUFFER_SIZE - 4, &src, 0, 8, &mut counter);
    assert_eq!(counter, 6);
    assert_eq!(b.cnt, 6);
    assert!(b.is_write);
    assert_eq!(b.addr.data[BUFFER_SIZE - 5], 0);
    assert_eq!(b.addr.data[BUFFER_SIZE - 4], 7);
    let mut dst = Block::new(6, 1u8);
    b.copy_to(2 * BUFFER_SIZE - 2, &mut dst, 1, 10, &mut counter);
    assert_eq!(dst.data, vec![1, 7, 7, 1, 1, 1]);
    b.zero(2 * BUFFER_SIZE - 3, 100, &mut counter);
    assert_eq!(b.addr.data[BUFFER_SIZE - 3], 0);
    assert_eq!(b.addr.data[BUFFER_SIZE - 4], 7);
    assert_eq!(counter, 8);
}

#[test]
fn disk_cache_replaces_the_least_used_buffer() {
    let mut cache = DiskCache { buffers: vec![Buffer::new(0), Buffer::new(BUFFER_SIZE)], counter: 9 };
    cache.buffers[0].cnt = 7;
    cache.buffers[1].cnt = 4;
    assert_eq!(cache.find_buffer(BUFFER_SIZE + 3), Some(1));
    assert_eq!(cache.find_buffer(3 * BUFFER_SIZE), None);
    let data = Block::new(BUFFER_SIZE, 5u8);
    let at = cache.new_buffer(2, 3 * BUFFER_SIZE + 17, data);
    assert_eq!(at, 1);
    assert_eq!(cache.counter, 5);
    assert_eq!(cache.buffers[0].cnt, 3);
    assert_eq!(cache.buffers[1].cnt, 0);
    assert_eq!(cache.buffers[1].idx, 3 * BUFFER_SIZE);
    assert_eq!(cache.buffers[1].block_idx, 2);
    let mut out = Block::new(4, 0u8);
    assert_eq!(cache.read_step(3 * BUFFER_SIZE + 1, &mut out, 0, 4), Some(4));
    assert_eq!(out.data, vec![5, 5, 5, 5]);
    assert_eq!(cache.read_step(9 * BUFFER_SIZE, &mut out, 0, 4), None);
    assert_eq!(cache.read_step(4 * BUFFER_SIZE - 1, &mut out, 0, 4), Some(1));
}

#[test]
fn ip_is_zero() {
    let ip = Ip::new();
    assert_eq!(ip, Ip::new());
}

#[test]
fn disk_cache_writes_and_zeroes_then_writes_down() {
    let mut cache = DiskCache { buffers: vec![Buffer::new(0), Buffer::new(BUFFER_SIZE)], counter: 1 };
    let src = Block::new(6, 9u8);
    // Two bytes fit at the end of the first window.
    assert_eq!(cache.write_step(BUFFER_SIZE - 2, &src, 0, 6), Some(2));
    assert_eq!(cache.counter, 2);
    assert_eq!(cache.buffers[0].cnt, 2);
    assert!(cache.buffers[0].is_write);
    assert!(!cache.buffers[1].is_write);
    assert_eq!(cache.buffers[0].addr.data[BUFFER_SIZE - 1], 9);
    assert_eq!(cache.write_step(BUFFER_SIZE, &src, 2, 4), Some(4));
    assert_eq!(cache.buffers[1].addr.data[3], 9);
    assert_eq!(cache.zero_step(BUFFER_SIZE + 1, 2), Some(2));
    assert_eq!(cache.buffers[1].addr.data[1], 0);
    assert_eq!(cache.buffers[1].addr.data[3], 9);
    assert_eq!(cache.write_step(5 * BUFFER_SIZE, &src, 0, 1), None);
    assert_eq!(cache.zero_step(5 * BUFFER_SIZE, 1), None);
    let writes = cache.write_down();
    assert_eq!(writes, vec![(0, 0, BUFFER_SIZE), (0, BUFFER_SIZE, BUFFER_SIZE)]);
    assert!(!cache.buffers[0].is_write && !cache.buffers[1].is_write);
    assert!(cache.write_down().is_empty());
}

#[test]
fn decoder_panics_on_unknown_events() {
    assert!(decoder_panics(1, 100, 1));
    assert!(decoder_panics(1, 30, 2));
    assert!(decoder_panics(2, 5, 0));
    assert!(!decoder_panics(1, 30, 1));
    assert!(!decoder_panics(2, 0, 123));
    assert!(!decoder_panics(0, 0, 0));
    assert!(!decoder_panics(1, 0x160, 7));
}

#[test]
fn devices_are_found_by_slot_and_recorded_by_pin() {
    let slots = probe_addresses();
    assert_eq!(slots.len(), 8);
    assert_eq!(slots[0], 0x1000_1000);
    assert_eq!(slots[7], 0x1000_8000);
    assert_eq!(device_pin(0x1000_3000, 0x74726976), Some(3));
    assert_eq!(device_pin(0x1000_3000, 0), None);
    let mut t = DeviceTable::new();
    t.add_device(3, DeviceKind::Block, 0);
    t.add_device(5, DeviceKind::Gpu, 0);
    t.add_device(6, DeviceKind::Input, 1);
    t.add_device(7, DeviceKind::Unknown, 4);
    assert_eq!(t.device_of(3), (DeviceKind::Block, 0));
    assert_eq!(t.device_of(5), (DeviceKind::Gpu, 0));
    assert_eq!(t.device_of(6), (DeviceKind::Input, 1));
    assert_eq!(t.device_of(7), (DeviceKind::Unknown, 0));
}

#[test]
fn gpu_command_records() {
    let rect = Rect { x1: 1, y1: 2, x2: 3, y2: 4 };
    let f = ResourceFlush::new(rect, 7);
    assert_eq!(f.header.ctype, 0x104);
    assert_eq!(f.rect, rect);
    assert_eq!(f.resource_id, 7);
    let t = TransferToHost2d::new(rect, 2);
    assert_eq!(t.header.ctype, 0x105);
    assert_eq!(t.offset, 0);
    let s = Scanout::new(rect, 1, 0);
    assert_eq!(s.header.ctype, 0x103);
    assert_eq!((s.resource_id, s.scanout_id), (1, 0));
    let a = AttachBacking::new(1, 1);
    assert_eq!(a.header.ctype, 0x106);
    assert_eq!(a.entries, 1);
}

#[test]
fn gpu_setup_takes_pages_and_clears_the_screen() {
    let mut pm = manager();
    let mut h = VirtHeader::new();
    h.queue_num_max = 128;
    h.host_features = 0xff;
    let slots: Vec<u64> = (0..11).map(|i| 0x1000 + i * 0x40).collect();
    let (g, recs) = GPU::new(4, h, 11, 8, 4, &mut pm, &slots).unwrap();
    assert_eq!(g.pin_idx, 4);
    assert_eq!(g.header.status, 4);
    assert_eq!(g.header.guest_features, 0xff);
    assert_eq!(g.header.queue_num, 128);
    assert_eq!(g.frame_buffer.len(), 32);
    assert!(g.frame_buffer.iter().all(|p| *p == Pixel { r: 10, g: 10, b: 10, a: 255 }));
    assert_eq!(recs.2.addr, g.frame_addr as u64);
    assert_eq!(recs.2.length, 128);
    assert_eq!(g.queue.desc_idx, 11);
    assert!(g.valid);
}

#[test]
fn block_device_reads_finished_requests() {
    let mut d = BlockDevice::new(1, VirtQueue::new(), VirtHeader::new());
    d.queue.desc[1].addr = 0x300;
    d.queue.desc[4].addr = 0x900;
    d.queue.used.ring[0].id = 1;
    d.queue.used.ring[1].id = 4;
    d.queue.used.idx = 2;
    assert!(d.interrupt_handler().is_empty());
    d.int = true;
    assert_eq!(d.interrupt_handler(), vec![0x300, 0x900]);
    assert_eq!(d.used_idx, 2);
    assert!(d.interrupt_handler().is_empty());
}

#[test]
fn disk_cache_reads_back_what_was_written() {
    let mut cache = DiskCache { buffers: vec![Buffer::new(0)], counter: 1 };
    let mut src = Block::new(5, 0u8);
    for i in 0..5 {
        src.data[i] = i as u8 + 1;
    }
    assert_eq!(cache.write_step(100, &src, 1, 3), Some(3));
    let mut dst = Block::new(4, 9u8);
    assert_eq!(cache.read_step(100, &mut dst, 0, 4), Some(4));
    assert_eq!(dst.data, vec![2, 3, 4, 0]);
}

#[test]
fn gpu_device_handshake() {
    let mut pm = manager();
    let mut h = VirtHeader::new();
    h.host_features = 0x33;
    h.queue_num_max = 64;
    let (w, g) = init_gpu(&mut h, 11, 4, &mut pm);
    assert!(g.is_none());
    assert!(w.is_empty());
    assert_eq!(h.status, 11);
    assert_eq!(h.guest_features, 0x33);
    let (w, g) = init_gpu(&mut h, 1, 4, &mut pm);
    assert!(g.is_none());
    assert_eq!(w, vec![RegWrite::Status(128)]);
    assert_eq!(h.status, 128);
    h.queue_num_max = 128;
    let (w, g) = init_gpu(&mut h, 11, 4, &mut pm);
    let g = g.unwrap();
    let queue = BASE + 3 * PAGE_SIZE;
    let pfn = (queue / 4096) as u32;
    assert_eq!(
        w,
        vec![
            RegWrite::GuestPageSize(4096),
            RegWrite::QueueSel(0),
            RegWrite::QueueNum(128),
            RegWrite::QueuePfn(pfn),
            RegWrite::Status(15),
        ]
    );
    assert_eq!(g.pin_idx, 4);
    assert_eq!(h.status, 15);
    assert_eq!(h.queue_num, 128);
    assert_eq!(h.queue_sel, 0);
    assert_eq!(h.guest_page_size, 4096);
    assert_eq!(h.queue_pfn, pfn);
    assert_eq!(g.header, h);
    assert_eq!(g.width, WIDTH);
    assert_eq!(g.height, HEIGHT);
    assert_eq!(g.frame_buffer.len(), WIDTH * HEIGHT);
    // The kernel pages left cannot hold the frame buffer.
    assert_eq!(g.frame_addr, 0);
    assert!(g.valid);
    assert!(!g.int);
    assert_eq!(g.queue.desc_idx, 0);
    let mut big = PageManager::new(BASE, BASE + 1024 * PAGE_SIZE, BASE + 2048 * PAGE_SIZE, PAGE_SIZE);
    let mut h2 = VirtHeader::new();
    h2.queue_num_max = 256;
    let (_, g2) = init_gpu(&mut h2, 15, 1, &mut big);
    let g2 = g2.unwrap();
    let queue2 = (h2.queue_pfn as usize) * 4096;
    assert!(queue2 >= BASE);
    assert_eq!(g2.frame_addr, queue2 + 2 * PAGE_SIZE);
    assert_eq!(g2.frame_buffer[0], Pixel { r: 0, g: 0, b: 0, a: 0 });
}
