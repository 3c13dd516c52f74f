use tisuos::memory::allocator::Memory;
use tisuos::memory::bitmap::Bitmap;
use tisuos::memory::block::Block;
use tisuos::memory::config::PAGE_SIZE;
use tisuos::memory::heap_memory::heap_pool::{align, HeapPool};
use tisuos::memory::heap_memory::task_heap::TaskHeap;
use tisuos::memory::map::page_table::PageTable;
use tisuos::memory::map::SATP;
use tisuos::memory::page::PageManager;
use tisuos::memory::page_table::{make_satp, map_kernel_area};
use tisuos::memory::program_memory::program_area::{Area, ProgramArea};
use tisuos::memory::require::{Heap, MemoryOp, PageOp};
use tisuos::memory::stack_memory::task_stack::TaskStack;

const BASE: usize = 0x8000_0000;

/// 64 kernel pages, then 8192 more pages of which the first two are user
/// pages; the first three pages hold the manager's own flags.
fn manager() -> PageManager {
    PageManager::new(BASE, BASE + 64 * PAGE_SIZE, BASE + (64 + 8192) * PAGE_SIZE, PAGE_SIZE)
}

#[test]
fn kernel_pages_come_first_fit() {
    let mut pm = manager();
    assert_eq!(pm.alloc_kernel_page(1), Some(BASE + 3 * PAGE_SIZE));
    assert_eq!(pm.alloc_kernel_page(2), Some(BASE + 4 * PAGE_SIZE));
    assert_eq!(pm.alloc_kernel_page(1), Some(BASE + 6 * PAGE_SIZE));
}

#[test]
fn kernel_pages_run_out() {
    let mut pm = manager();
    assert_eq!(pm.alloc_kernel_page(62), None);
    assert_eq!(pm.alloc_kernel_page(61), Some(BASE + 3 * PAGE_SIZE));
    assert_eq!(pm.alloc_kernel_page(1), None);
}

#[test]
fn kernel_free_then_alloc_gives_the_same_pages() {
    let mut pm = manager();
    let a = pm.alloc_kernel_page(3).unwrap();
    let b = pm.alloc_kernel_page(1).unwrap();
    assert_eq!(b, a + 3 * PAGE_SIZE);
    pm.free_page(a);
    assert_eq!(pm.alloc_kernel_page(2), Some(a));
    assert_eq!(pm.alloc_kernel_page(1), Some(a + 2 * PAGE_SIZE));
    assert_eq!(pm.alloc_kernel_page(1), Some(b + PAGE_SIZE));
}

#[test]
fn user_pages_count_from_the_user_base() {
    let mut pm = manager();
    // User pages start at the user start, after the 64 kernel pages, and
    // there are 8192 of them.
    let u = BASE + 64 * PAGE_SIZE;
    assert_eq!(pm.alloc_user_page(1), Some(u));
    assert_eq!(pm.alloc_user_page(1), Some(u + PAGE_SIZE));
    assert_eq!(pm.alloc_user_page(8191), None);
    assert_eq!(pm.alloc_user_page(8190), Some(u + 2 * PAGE_SIZE));
    assert_eq!(pm.alloc_user_page(1), None);
    // A user run can be freed and taken again.
    assert!(pm.can_free_page(u + PAGE_SIZE));
    pm.free_page(u + PAGE_SIZE);
    assert_eq!(pm.alloc_user_page(1), Some(u + PAGE_SIZE));
}

#[test]
fn page_size_is_kept() {
    let pm = manager();
    assert_eq!(pm.page_size(), PAGE_SIZE);
    assert_eq!(PageOp::page_size(&pm), PAGE_SIZE);
}

#[test]
fn bitmap_hands_out_lowest_free_block() {
    let mut b = Bitmap::empty();
    b.init(10, 7);
    assert_eq!(b.use_cnt, 3);
    assert_eq!(b.search_idx, 0);
    assert_eq!(b.alloc_bitmap(), Some(3));
    assert_eq!(b.alloc_bitmap(), Some(4));
    b.free(3);
    assert_eq!(b.free_cnt, 6);
    assert_eq!(b.alloc_bitmap(), Some(3));
    for i in 5..10 {
        assert_eq!(b.alloc_bitmap(), Some(i));
    }
    assert_eq!(b.alloc_bitmap(), None);
    assert_eq!(b.free_cnt, 0);
}

#[test]
fn block_get_set_copy() {
    let mut b = Block::new(4, 9u8);
    assert_eq!(b.get(2), Some(9));
    assert_eq!(b.get(4), None);
    b.set(1, 5, 3);
    assert_eq!(b.data, vec![9, 5, 5, 9]);
    b.set(2, 7, 100);
    assert_eq!(b.data, vec![9, 5, 7, 7]);
    let mut other = Block::new(3, 0u8);
    b.copy_to(&mut other, 2);
    assert_eq!(other.data, vec![9, 5, 0]);
    b.copy_from(&mut other, 3);
    assert_eq!(other.data, vec![9, 5, 0]);
}

#[test]
fn align_rounds_up_to_powers_of_two() {
    assert_eq!(align(0), 2);
    assert_eq!(align(1), 2);
    assert_eq!(align(3), 4);
    assert_eq!(align(16), 16);
    assert_eq!(align(17), 32);
    assert_eq!(align(5000), 8192);
}

#[test]
fn heap_pool_blocks_and_law() {
    let mut pm = manager();
    let mut pool = HeapPool::new(0x1000_0000, 100, true, &mut pm).unwrap();
    assert_eq!(pool.block_size, 128);
    assert_eq!(pool.page_num, 1);
    assert_eq!(pool.block_num, 32);
    assert_eq!(pool.physic_addr, BASE + 3 * PAGE_SIZE);
    assert_eq!(pool.virtual_top, 0x1000_0000 + PAGE_SIZE);
    assert_eq!(pool.allocate(), Some((0x1000_0000, BASE + 3 * PAGE_SIZE)));
    assert_eq!(pool.allocate(), Some((0x1000_0080, BASE + 3 * PAGE_SIZE + 128)));
    pool.free(0x1000_0000);
    assert_eq!(pool.use_num, 1);
    assert_eq!(pool.allocate(), Some((0x1000_0000, BASE + 3 * PAGE_SIZE)));
    assert!(pool.contain(0x1000_0fff));
    assert!(!pool.contain(0x1000_1000));
    assert_eq!(pool.virt_to_phy(0x1000_0010), BASE + 3 * PAGE_SIZE + 0x10);
    for _ in 2..32 {
        assert!(pool.allocate().is_some());
    }
    assert!(pool.full());
    assert_eq!(pool.allocate(), None);
}

#[test]
fn big_heap_pool_has_one_block() {
    let mut pm = manager();
    let pool = HeapPool::new(0x2000_0000, 20000, true, &mut pm).unwrap();
    assert_eq!(pool.block_size, 32768);
    assert_eq!(pool.page_num, 8);
    assert_eq!(pool.block_num, 1);
}

#[test]
fn heap_pool_without_pages_is_none() {
    let mut pm = manager();
    assert!(pm.alloc_kernel_page(61).is_some());
    assert!(HeapPool::new(0x1000_0000, 8, true, &mut pm).is_none());
}

#[test]
fn task_heap_makes_pools_in_order() {
    let mut pm = manager();
    let mut satp = SATP::new();
    let mut pt = PageTable::empty();
    let mut heap = TaskHeap::new(0x9000_0000, true);
    let (va, _pa) = heap.alloc_block(100, &mut satp, &mut pt, &mut pm).unwrap();
    assert_eq!(va, 0x9000_0000);
    assert!(satp.is_map());
    assert_eq!(heap.virtual_heap_top, 0x9000_0000 + PAGE_SIZE);
    let (va2, pa2) = heap.alloc_block(100, &mut satp, &mut pt, &mut pm).unwrap();
    assert_eq!(va2, 0x9000_0080);
    let (va3, _) = heap.alloc_block(10, &mut satp, &mut pt, &mut pm).unwrap();
    // The 128-byte pool serves 10 bytes too.
    assert_eq!(va3, 0x9000_0100);
    let (va4, _) = heap.alloc_block(1000, &mut satp, &mut pt, &mut pm).unwrap();
    assert_eq!(va4, 0x9000_0000 + PAGE_SIZE);
    assert_eq!(heap.memory_area.len(), 2);
    assert_eq!(heap.memory_area[0].block_size, 128);
    assert_eq!(heap.memory_area[1].block_size, 1024);
    heap.free(va2);
    let (again, again_pa) = heap.alloc_block(100, &mut satp, &mut pt, &mut pm).unwrap();
    assert_eq!(again, va2);
    assert_eq!(again_pa, pa2);
    let pa = heap.virt_to_phy(va4 + 5);
    assert_eq!(pa, heap.memory_area[1].physic_addr + 5);
}

#[test]
fn block_allocator_small_blocks_start_after_the_record() {
    let mut pm = manager();
    let mut m = Memory::empty(true);
    let a = m.allocate(10, &mut pm).unwrap();
    // 16-byte blocks over one page: 256 blocks, the record takes
    // 256 + 80 bytes, so the first 21 blocks are in use.
    let base = BASE + 3 * PAGE_SIZE;
    assert_eq!(a, base + 21 * 16);
    assert_eq!(m.nodes.len(), 1);
    assert_eq!(m.nodes[0].size, 16);
    assert_eq!(m.allocate(16, &mut pm), Some(base + 22 * 16));
    let released = m.free(a);
    assert!(released.is_empty());
    assert_eq!(m.allocate(9, &mut pm), Some(a));
}

#[test]
fn block_allocator_big_blocks_keep_the_record_elsewhere() {
    let mut pm = manager();
    let mut m = Memory::empty(true);
    let a = m.allocate(300, &mut pm).unwrap();
    // 512-byte blocks: one page of 8 blocks, the record in a 128-byte
    // block of its own node, made after it.
    assert_eq!(m.nodes.len(), 2);
    assert_eq!(m.nodes[0].size, 128);
    assert_eq!(m.nodes[1].size, 512);
    // The big node's pages come first; the record's node is made after.
    assert_eq!(a, BASE + 3 * PAGE_SIZE);
    assert_eq!(m.nodes[1].physic_base, BASE + 3 * PAGE_SIZE);
    assert_eq!(m.nodes[0].physic_base, BASE + 4 * PAGE_SIZE);
    // 128-byte blocks: the record takes 32 + 80 bytes, one block.
    assert_eq!(m.nodes[1].struct_addr, BASE + 4 * PAGE_SIZE + 128);
    assert_eq!(m.nodes[1].bitmap.total_cnt, 8);
}

#[test]
fn block_allocator_large_request_on_empty_allocator() {
    let mut pm = manager();
    let mut m = Memory::empty(true);
    // 1024-byte blocks: no record block is free, so a node of record
    // blocks is made after the 1024-byte node's pages are taken.
    let a = m.allocate(1024, &mut pm).unwrap();
    assert_eq!(a, BASE + 3 * PAGE_SIZE);
    assert_eq!(m.nodes.len(), 2);
    assert_eq!(m.nodes[1].size, 1024);
    assert!(m.nodes[0].size <= 128);
    assert_eq!(m.allocate(1000, &mut pm), Some(a + 1024));
}

#[test]
fn heap_trait_uses_both_allocators() {
    let mut pm = manager();
    let mut heap = Heap::new();
    let k = heap.alloc_kernel_memory(8, &mut pm).unwrap();
    assert_eq!(heap.kernel.nodes.len(), 1);
    assert_eq!(heap.user.nodes.len(), 0);
    assert!(heap.free_kernel_memory(k).is_empty());
}

#[test]
fn satp_value_packs_root_space_and_mode() {
    assert_eq!(make_satp(0x8020_0000, 0), 0x80200 | (8usize << 60));
    assert_eq!(make_satp(0x8020_0000, 3), 0x80200 | (3usize << 44) | (8usize << 60));
    let mut s = SATP::new();
    assert!(!s.is_map());
    s.set(0x8020_0000);
    assert_eq!(s.get_ppn_addr(), 0x8020_0000);
    assert!(s.is_map());
}

#[test]
fn page_table_tables_come_from_kernel_pages() {
    let mut pm = manager();
    let mut pt = PageTable::new(&mut pm).unwrap();
    assert!(pt.map_kernel(&mut pm, 0x8020_0000, 0x8020_0000));
    // A root, a middle and a last table.
    let frames = pt.free();
    assert_eq!(frames.len(), 3);
    assert!(frames.contains(&(BASE + 3 * PAGE_SIZE)));
}

#[test]
fn kernel_area_of_a_user_task_is_two_code_pages() {
    let mut pm = manager();
    let mut pt = PageTable::new(&mut pm).unwrap();
    assert!(map_kernel_area(&mut pt, &mut pm, false, 0x8000_0000, 0x8010_0000, 0x8800_0000));
    assert_eq!(pt.free().len(), 3);
}

#[test]
fn program_area_finds_the_first_area() {
    let mut p = ProgramArea::new(0x1000, false);
    p.push_area(Area::new(0x1000, 0x3000, 0x8000_0000, 0x8000_2000));
    p.push_area(Area::new(0x2000, 0x5000, 0x9000_0000, 0x9000_3000));
    assert_eq!(p.entry(), 0x1000);
    assert!(p.contain(0x4000));
    assert!(!p.contain(0x5000));
    assert_eq!(p.virt_to_phy(0x2500), 0x8000_1500);
    assert_eq!(p.virt_to_phy(0x4000), 0x9000_2000);
}

#[test]
fn task_stack_grows_down_and_copies() {
    let mut pm = manager();
    let mut satp = SATP::new();
    let mut pt = PageTable::empty();
    let top = 0x4000_0000;
    let mut s = TaskStack::new(1, top, 4, true);
    assert_eq!(s.expand(2, &mut satp, &mut pt, &mut pm), Ok(()));
    assert_eq!(s.stack_bottom, top - 2 * PAGE_SIZE);
    assert_eq!(s.last_page, 2);
    assert_eq!(s.expand(3, &mut satp, &mut pt, &mut pm), Err(()));
    assert_eq!(s.last_page, 2);
    let pa = s.area[0].pst;
    assert_eq!(s.virt_to_phy(top - 1), pa + 2 * PAGE_SIZE - 1);
    let mut c = TaskStack::new(2, 0x5000_0000, 4, true);
    let copies = c.copy(&s, &mut satp, &mut pt, &mut pm).unwrap();
    assert_eq!(c.stack_bottom, 0x5000_0000 - 2 * PAGE_SIZE);
    assert_eq!(c.last_page, 2);
    assert_eq!(copies.len(), 1);
    assert_eq!(copies[0].1, pa);
    assert_eq!(copies[0].2, 2 * PAGE_SIZE);
    assert_eq!(c.area[0].vst, 0x5000_0000 - 2 * PAGE_SIZE);
}

#[test]
fn segments_take_whole_pages_from_the_right_pool() {
    let mut pm = manager();
    let mut k = ProgramArea::new(0x1000, true);
    let pa = k.push_segment(0x1100, 0x1000, &mut pm).unwrap();
    // 0x100 bytes into a page, 0x1000 long: two pages, the first kernel ones free.
    assert_eq!(pa, BASE + 3 * PAGE_SIZE);
    assert_eq!(k.area.len(), 1);
    assert_eq!(k.area[0].vst, 0x1100);
    assert_eq!(k.area[0].ved, 0x1100 + 2 * PAGE_SIZE);
    assert_eq!(k.area[0].pst, pa);
    assert_eq!(k.area[0].ped, pa + 2 * PAGE_SIZE);
    let mut u = ProgramArea::new(0x1000, false);
    let upa = u.push_segment(0x2000, 10, &mut pm).unwrap();
    assert_eq!(upa, BASE + 64 * PAGE_SIZE);
    assert_eq!(u.area[0].ved, 0x2000 + PAGE_SIZE);
    assert_eq!(u.push_segment(0x3000, 9000 * PAGE_SIZE, &mut pm), None);
    assert_eq!(u.area.len(), 1);
}

#[test]
fn system_areas_depend_on_the_kind_of_program() {
    let mut k = ProgramArea::new(0x1000, true);
    k.push_system_areas(0x8000_0000, 0x8001_2345, 0x8002_0010, 0x8010_0000, 0, 0, 0);
    assert_eq!(k.area.len(), 4);
    assert_eq!(k.area[0].vst, 0x8000_0000);
    assert_eq!(k.area[0].ved, 0x8001_2000);
    assert_eq!(k.area[1].vst, 0x8002_0000);
    assert_eq!(k.area[2].vst, 0x1000_0000);
    assert_eq!(k.area[3].ved, 0x200_C000);
    let mut u = ProgramArea::new(0x1000, false);
    u.push_system_areas(0, 0, 0, 0, 0x8000_5010, 0x8000_3020, 0x8000_7030);
    assert_eq!(u.area.len(), 1);
    assert_eq!(u.area[0].vst, 0x8000_3000);
    assert_eq!(u.area[0].ved, 0x8000_7000);
}

#[test]
fn areas_below_the_heap_are_not_given_back() {
    let mut p = ProgramArea::new(0x1000, false);
    p.push_area(Area::new(0x1000, 0x2000, 0x8000_0000, 0x8000_1000));
    p.push_area(Area::new(0x3000, 0x4000, 0x8100_0000, 0x8100_1000));
    p.push_area(Area::new(0x5000, 0x6000, 0x8200_0000, 0x8200_1000));
    assert_eq!(p.freed_pages(0x8100_0000), vec![0x8100_0000, 0x8200_0000]);
    assert!(p.freed_pages(0x9000_0000).is_empty());
}

#[test]
fn a_stack_gives_back_each_of_its_areas() {
    let mut pm = manager();
    let mut satp = SATP::new();
    let mut pt = PageTable::empty();
    let mut s = TaskStack::new(1, 0x4000_0000, 8, true);
    assert!(s.freed_pages().is_empty());
    assert_eq!(s.expand(2, &mut satp, &mut pt, &mut pm), Ok(()));
    assert_eq!(s.expand(1, &mut satp, &mut pt, &mut pm), Ok(()));
    assert_eq!(s.freed_pages(), vec![s.area[0].pst, s.area[1].pst]);
}

#[test]
fn heap_dispatches_by_kind_and_by_address() {
    let mut pm = manager();
    let mut heap = Heap::new();
    let user_start = BASE + 64 * PAGE_SIZE;
    let k = heap.allocate(8, true, &mut pm).unwrap();
    assert_eq!(heap.kernel.nodes.len(), 1);
    assert_eq!(heap.user.nodes.len(), 0);
    assert!(k >= BASE && k < user_start);
    assert!(heap.can_free(k, BASE, user_start));
    // Below both starts no allocator takes it.
    assert!(!heap.can_free(BASE - 8, BASE, user_start));
    // A block nobody handed out cannot be given back.
    assert!(!heap.can_free(k + 16, BASE, user_start));
    assert!(heap.free(k, BASE, user_start).is_empty());
    assert!(!heap.can_free(k, BASE, user_start));
    let u = heap.allocate(8, false, &mut pm).unwrap();
    assert_eq!(heap.user.nodes.len(), 1);
    assert!(heap.user.holds_in_use(u));
    assert!(!heap.kernel.holds_in_use(u));
}

#[test]
fn pages_can_be_freed_only_where_a_run_ends() {
    let mut pm = manager();
    let a = pm.alloc_kernel_page(2).unwrap();
    assert!(pm.can_free_page(a));
    // The page after the run is free, and no page after it ends a run.
    assert!(!pm.can_free_page(a + 2 * PAGE_SIZE));
    assert!(!pm.can_free_page(BASE - PAGE_SIZE));
    pm.free_page(a);
    assert!(!pm.can_free_page(a));
}
