//! Program memory areas: ranges of virtual addresses laid over ranges of
//! physical addresses, each mapped as code, data or both.

use vstd::prelude::*;
use crate::memory::config::{KERNEL_PAGE_NUM, PAGE_SIZE};
use crate::memory::map::SATP;
use crate::memory::map::satp::{satp_root, mapping_room};
use crate::memory::map::page_table::{PageTable, MapWrite, last_write, clear_of};
use crate::memory::page::{PageManager, is_first_fit, taken_run, no_fit, free_kernel_pages, user_pages_kept, kernel_run_kept, lemma_run_kept_more, lemma_run_kept_trans, lemma_run_kept_same};

verus! {

/// How an area is mapped.
#[derive(Debug, Clone, Copy, PartialEq, Eq)]
pub enum AreaType {
    Code,
    Data,
    All,
}

/// The permission bits an area of type `t` is mapped with.
pub open spec fn area_flag(t: AreaType, is_kernel: bool) -> u64 {
    match t {
        AreaType::Code => if is_kernel { 10u64 } else { 26u64 },
        AreaType::Data => if is_kernel { 6u64 } else { 22u64 },
        AreaType::All => if is_kernel { 14u64 } else { 30u64 },
    }
}

/// Virtual addresses `[vst, ved)` laid over physical addresses from `pst`
/// (up to `ped`).
#[derive(Debug, Clone, Copy, PartialEq, Eq)]
pub struct Area {
    pub vst: usize,
    pub ved: usize,
    pub pst: usize,
    pub ped: usize,
    pub atype: AreaType,
}

/// `x` rounded down to a page.
pub open spec fn page_floor(x: int) -> int {
    x / PAGE_SIZE as int * PAGE_SIZE as int
}

/// The number of pages that mapping an area writes: one per page step while
/// both the virtual and the physical address stay at or below their ends.
pub open spec fn area_steps(a: Area) -> int {
    if a.vst <= a.ved && a.pst <= a.ped {
        let v = (a.ved - a.vst) / 4096;
        let p = (a.ped - a.pst) / 4096;
        (if v < p { v } else { p }) + 1
    } else {
        0
    }
}

/// The mappings that mapping area `a` writes, in order.
pub open spec fn area_writes(a: Area, is_kernel: bool) -> Seq<MapWrite> {
    Seq::new(
        area_steps(a) as nat,
        |k: int| ((a.vst + k * 4096) as usize, (a.pst + k * 4096) as usize, area_flag(a.atype, is_kernel)),
    )
}

/// The mappings that mapping the areas `s` writes, area after area.
pub open spec fn areas_writes(s: Seq<Area>, is_kernel: bool) -> Seq<MapWrite>
    decreases s.len(),
{
    if s.len() == 0 {
        Seq::empty()
    } else {
        areas_writes(s.drop_last(), is_kernel).add(area_writes(s.last(), is_kernel))
    }
}

/// The mappings of the first `i` areas of `s` are no more than those of
/// all of them.
proof fn lemma_areas_writes_prefix(s: Seq<Area>, i: int, is_kernel: bool)
    requires
        0 <= i <= s.len(),
    ensures
        areas_writes(s.subrange(0, i), is_kernel).len() <= areas_writes(s, is_kernel).len(),
    decreases s.len() - i,
{
    if i < s.len() {
        lemma_areas_writes_prefix(s, i + 1, is_kernel);
        let t = s.subrange(0, i + 1);
        assert(t.drop_last() =~= s.subrange(0, i));
    } else {
        assert(s.subrange(0, i) =~= s);
    }
}

/// The areas every kernel program has besides its own: the kernel's code
/// from `memory_start` to `rodata_end`, its data from `data_start` to the
/// end of the kernel's pages after `heap_start`, the virtio and the timer
/// registers.
pub open spec fn kernel_system_areas(memory_start: usize, rodata_end: usize, data_start: usize, heap_start: usize) -> Seq<Area> {
    let cv = page_floor(memory_start as int) as usize;
    let ce = page_floor(rodata_end as int) as usize;
    let dv = page_floor(data_start as int) as usize;
    let de = page_floor(heap_start + KERNEL_PAGE_NUM * PAGE_SIZE) as usize;
    seq![
        Area { vst: cv, ved: ce, pst: cv, ped: ce, atype: AreaType::Code },
        Area { vst: dv, ved: de, pst: dv, ped: de, atype: AreaType::Data },
        Area { vst: 0x1000_0000, ved: 0x1000_9000, pst: 0x1000_0000, ped: 0x1000_9000, atype: AreaType::Data },
        Area { vst: 0x200_0000, ved: 0x200_C000, pst: 0x200_0000, ped: 0x200_C000, atype: AreaType::Data },
    ]
}

/// An area whose end addresses leave room for one more page step.
pub open spec fn area_mappable(a: Area) -> bool {
    a.ved + PAGE_SIZE <= usize::MAX && a.ped + PAGE_SIZE <= usize::MAX
}

/// The starts of the areas of `s` at or above `heap_start`, in order:
/// the pages taken from the page manager.
pub open spec fn taken_pages(s: Seq<Area>, heap_start: usize) -> Seq<usize>
    decreases s.len(),
{
    if s.len() == 0 {
        Seq::empty()
    } else if s.last().pst >= heap_start {
        taken_pages(s.drop_last(), heap_start).push(s.last().pst)
    } else {
        taken_pages(s.drop_last(), heap_start)
    }
}

/// Pages that hold `size` bytes starting `offset` bytes into a page.
pub open spec fn segment_pages(offset: int, size: int) -> int {
    (size + offset + PAGE_SIZE - 1) / PAGE_SIZE as int
}

impl Area {
    /// An area mapped with every permission.
    pub fn new(vst: usize, ved: usize, pst: usize, ped: usize) -> (r: Self)
        ensures
            r == (Area { vst, ved, pst, ped, atype: AreaType::All }),
    {
        Self { vst, ved, pst, ped, atype: AreaType::All }
    }

    /// The kernel data area, identity mapped: from the page of `data_start`
    /// to the page of the end of the kernel heap (`heap_start` plus the
    /// kernel heap pages).
    pub fn kernel_data(data_start: usize, heap_start: usize) -> (r: Self)
        requires
            heap_start + KERNEL_PAGE_NUM * PAGE_SIZE <= usize::MAX,
        ensures
            r.vst == page_floor(data_start as int),
            r.ved == page_floor(heap_start + KERNEL_PAGE_NUM * PAGE_SIZE),
            r.pst == r.vst,
            r.ped == r.ved,
            r.atype == AreaType::Data,
    {
        let vst = data_start;
        let ved = heap_start + KERNEL_PAGE_NUM * PAGE_SIZE;
        let ved = ved / PAGE_SIZE * PAGE_SIZE;
        let vst = vst / PAGE_SIZE * PAGE_SIZE;
        Self { vst, ved, pst: vst, ped: ved, atype: AreaType::Data }
    }

    /// The kernel code area, identity mapped: from the page of
    /// `memory_start` to the page of `rodata_end`.
    pub fn kernel_code(memory_start: usize, rodata_end: usize) -> (r: Self)
        ensures
            r.vst == page_floor(memory_start as int),
            r.ved == page_floor(rodata_end as int),
            r.pst == r.vst,
            r.ped == r.ved,
            r.atype == AreaType::Code,
    {
        let vst = memory_start;
        let ved = rodata_end;
        let ved = ved / PAGE_SIZE * PAGE_SIZE;
        let vst = vst / PAGE_SIZE * PAGE_SIZE;
        Self { vst, ved, pst: vst, ped: ved, atype: AreaType::Code }
    }

    /// The virtio registers, identity mapped as data.
    pub fn virtio_area() -> (r: Self)
        ensures
            r == (Area {
                vst: 0x1000_0000,
                ved: 0x1000_9000,
                pst: 0x1000_0000,
                ped: 0x1000_9000,
                atype: AreaType::Data,
            }),
    {
        let vst = 0x1000_0000;
        let ved = 0x1000_9000;
        Self { vst, ved, pst: vst, ped: ved, atype: AreaType::Data }
    }

    /// The timer registers, identity mapped as data.
    pub fn timer_area() -> (r: Self)
        ensures
            r == (Area {
                vst: 0x200_0000,
                ved: 0x200_C000,
                pst: 0x200_0000,
                ped: 0x200_C000,
                atype: AreaType::Data,
            }),
    {
        let vst = 0x200_0000;
        let ved = 0x200_C000;
        Self { vst, ved, pst: vst, ped: ved, atype: AreaType::Data }
    }

    /// The kernel functions that user programs return into, identity mapped
    /// as code: from the page of the lowest of the three function addresses
    /// to the page of the highest.
    pub fn user_func(process_exit: usize, thread_exit: usize, waiting: usize) -> (r: Self)
        ensures
            r.vst == page_floor(
                vstd::math::min(vstd::math::min(process_exit as int, thread_exit as int), waiting as int),
            ),
            r.ved == page_floor(
                vstd::math::max(vstd::math::max(process_exit as int, thread_exit as int), waiting as int),
            ),
            r.pst == r.vst,
            r.ped == r.ved,
            r.atype == AreaType::Code,
    {
        let st = if process_exit < thread_exit { process_exit } else { thread_exit };
        let st = if st < waiting { st } else { waiting };
        let ed = if process_exit > thread_exit { process_exit } else { thread_exit };
        let ed = if ed > waiting { ed } else { waiting };
        let ed = ed / PAGE_SIZE * PAGE_SIZE;
        let st = st / PAGE_SIZE * PAGE_SIZE;
        Self { vst: st, ved: ed, pst: st, ped: ed, atype: AreaType::Code }
    }

    /// Whether the area holds virtual address `va`.
    pub fn contain(&self, va: usize) -> (r: bool)
        ensures
            r == (self.vst <= va && self.ved > va),
    {
        self.vst <= va && self.ved > va
    }

    /// The physical address of virtual address `va` in this area.
    pub fn virt_to_phy(&self, va: usize) -> (r: usize)
        requires
            self.pst + va <= usize::MAX,
            self.pst + va >= self.vst,
        ensures
            r == self.pst + va - self.vst,
    {
        self.pst + va - self.vst
    }
}

/// The index of the first of the areas `s` that holds `va`, or -1.
pub open spec fn first_containing(s: Seq<Area>, va: int) -> int
    decreases s.len(),
{
    if s.len() == 0 {
        -1
    } else {
        let r = first_containing(s.drop_last(), va);
        if r >= 0 {
            r
        } else if s.last().vst <= va < s.last().ved {
            s.len() - 1
        } else {
            -1
        }
    }
}

pub proof fn lemma_first_containing(s: Seq<Area>, va: int)
    ensures
        -1 <= first_containing(s, va) < s.len(),
        first_containing(s, va) >= 0 ==> s[first_containing(s, va)].vst <= va < s[first_containing(
            s,
            va,
        )].ved,
        first_containing(s, va) >= 0 ==> forall|j: int|
            0 <= j < first_containing(s, va) ==> !(#[trigger] s[j].vst <= va < s[j].ved),
        first_containing(s, va) < 0 ==> forall|j: int| 0 <= j < s.len() ==> !(#[trigger] s[j].vst <= va < s[j].ved),
    decreases s.len(),
{
    if s.len() > 0 {
        let t = s.drop_last();
        lemma_first_containing(t, va);
        assert forall|j: int| 0 <= j < t.len() implies t[j] == s[j] by {}
    }
}

proof fn lemma_first_containing_prefix(s: Seq<Area>, va: int, i: int)
    requires
        0 <= i <= s.len(),
        forall|j: int| 0 <= j < i ==> !(#[trigger] s[j].vst <= va < s[j].ved),
        i < s.len() ==> s[i].vst <= va < s[i].ved,
    ensures
        i < s.len() ==> first_containing(s, va) == i,
        i == s.len() ==> first_containing(s, va) == -1,
{
    lemma_first_containing(s, va);
}

/// The areas of a program, its entry point and whether it runs in kernel
/// mode.
#[derive(Debug)]
pub struct ProgramArea {
    pub entry: usize,
    pub area: Vec<Area>,
    pub is_kernel: bool,
}

impl ProgramArea {
    /// A program with no area yet.
    pub fn new(entry: usize, is_kernel: bool) -> (r: Self)
        ensures
            r.entry == entry,
            r.area@ == Seq::<Area>::empty(),
            r.is_kernel == is_kernel,
    {
        Self { entry, area: Vec::new(), is_kernel }
    }

    /// The entry point.
    pub fn entry(&self) -> (r: usize)
        ensures
            r == self.entry,
    {
        self.entry
    }

    /// Adds an area.
    pub fn push_area(&mut self, area: Area)
        ensures
            final(self).area@ == old(self).area@.push(area),
            final(self).entry == old(self).entry,
            final(self).is_kernel == old(self).is_kernel,
    {
        self.area.push(area);
    }

    /// Takes the pages for a loadable segment of `size` bytes at virtual
    /// address `va` (kernel pages for a kernel program, user pages else)
    /// and adds the area from `va` over them, a whole number of pages
    /// long. Gives where the pages start: the segment's bytes go
    /// `va % PAGE_SIZE` bytes into them. `None` when the pages could not
    /// be had, and then nothing changed.
    pub fn push_segment(&mut self, va: usize, size: usize, pm: &mut PageManager) -> (r: Option<usize>)
        requires
            old(pm).wf(),
            old(pm).page_size_spec() == PAGE_SIZE,
            size > 0,
            va + size + 2 * PAGE_SIZE <= usize::MAX,
        ensures
            final(pm).wf(),
            final(pm).kernel_base() == old(pm).kernel_base(),
            final(pm).kernel_num() == old(pm).kernel_num(),
            final(pm).user_base() == old(pm).user_base(),
            final(pm).user_num() == old(pm).user_num(),
            final(pm).user_start() == old(pm).user_start(),
            final(pm).page_size_spec() == old(pm).page_size_spec(),
            final(self).entry == old(self).entry,
            final(self).is_kernel == old(self).is_kernel,
            match r {
                Some(pa) => {
                    let num = segment_pages((va % PAGE_SIZE) as int, size as int);
                    &&& final(self).area@ == old(self).area@.push(
                        Area {
                            vst: va,
                            ved: (va + num * PAGE_SIZE) as usize,
                            pst: pa,
                            ped: (pa + num * PAGE_SIZE) as usize,
                            atype: AreaType::All,
                        },
                    )
                    &&& exists|s: int|
                        #![trigger taken_run(old(pm).pages(), s, num)]
                        final(pm).pages() == taken_run(old(pm).pages(), s, num) && if old(self).is_kernel {
                            is_first_fit(old(pm).pages(), 0, old(pm).kernel_num(), num, s) && pa
                                == old(pm).kernel_base() + s * PAGE_SIZE
                        } else {
                            is_first_fit(
                                old(pm).pages(),
                                old(pm).kernel_num(),
                                old(pm).kernel_num() + old(pm).user_num(),
                                num,
                                s,
                            ) && pa == old(pm).user_base() + (s - old(pm).kernel_num()) * PAGE_SIZE
                        }
                },
                None => final(self).area@ == old(self).area@ && final(pm).pages() == old(pm).pages()
                    && no_fit(*old(pm), old(self).is_kernel, segment_pages((va % PAGE_SIZE) as int, size as int)),
            },
    {
        let offset = va % PAGE_SIZE;
        let num = (size + offset + PAGE_SIZE - 1) / PAGE_SIZE;
        proof {
            assert(num * 4096 <= size + offset + 4095 && num >= 1) by (nonlinear_arith)
                requires
                    num == (size + offset + 4095) as int / 4096,
                    size > 0,
            ;
        }
        let pa = if self.is_kernel {
            pm.alloc_kernel_page(num)
        } else {
            pm.alloc_user_page(num)
        };
        match pa {
            Some(pa) => {
                self.push_area(Area::new(va, va + num * PAGE_SIZE, pa, pa + num * PAGE_SIZE));
                Some(pa)
            },
            None => None,
        }
    }

    /// Adds the areas every program of its kind needs besides its own: for
    /// a kernel program the kernel code, the kernel data, the virtio and
    /// the timer registers; for a user program the kernel functions it
    /// returns into.
    pub fn push_system_areas(
        &mut self,
        memory_start: usize,
        rodata_end: usize,
        data_start: usize,
        heap_start: usize,
        process_exit: usize,
        thread_exit: usize,
        waiting: usize,
    )
        requires
            heap_start + KERNEL_PAGE_NUM * PAGE_SIZE <= usize::MAX,
        ensures
            final(self).entry == old(self).entry,
            final(self).is_kernel == old(self).is_kernel,
            old(self).is_kernel ==> final(self).area@.len() == old(self).area@.len() + 4 && final(self).area@.subrange(
                0,
                old(self).area@.len() as int,
            ) == old(self).area@ && final(self).area@[old(self).area@.len() as int + 2] == (Area {
                vst: 0x1000_0000,
                ved: 0x1000_9000,
                pst: 0x1000_0000,
                ped: 0x1000_9000,
                atype: AreaType::Data,
            }) && final(self).area@[old(self).area@.len() as int + 3] == (Area {
                vst: 0x200_0000,
                ved: 0x200_C000,
                pst: 0x200_0000,
                ped: 0x200_C000,
                atype: AreaType::Data,
            }) && {
                let c = final(self).area@[old(self).area@.len() as int];
                let d = final(self).area@[old(self).area@.len() as int + 1];
                &&& c.vst == page_floor(memory_start as int) && c.ved == page_floor(rodata_end as int)
                &&& c.pst == c.vst && c.ped == c.ved && c.atype == AreaType::Code
                &&& d.vst == page_floor(data_start as int) && d.ved == page_floor(heap_start + KERNEL_PAGE_NUM * PAGE_SIZE)
                &&& d.pst == d.vst && d.ped == d.ved && d.atype == AreaType::Data
            },
            !old(self).is_kernel ==> final(self).area@.len() == old(self).area@.len() + 1 && final(self).area@.subrange(
                0,
                old(self).area@.len() as int,
            ) == old(self).area@ && {
                let u = final(self).area@[old(self).area@.len() as int];
                &&& u.vst == page_floor(
                    vstd::math::min(vstd::math::min(process_exit as int, thread_exit as int), waiting as int),
                )
                &&& u.ved == page_floor(
                    vstd::math::max(vstd::math::max(process_exit as int, thread_exit as int), waiting as int),
                )
                &&& u.pst == u.vst && u.ped == u.ved && u.atype == AreaType::Code
            },
    {
        if self.is_kernel {
            self.push_area(Area::kernel_code(memory_start, rodata_end));
            self.push_area(Area::kernel_data(data_start, heap_start));
            self.push_area(Area::virtio_area());
            self.push_area(Area::timer_area());
        } else {
            self.push_area(Area::user_func(process_exit, thread_exit, waiting));
        }
    }

    /// The pages to give back when the program goes: the start of each
    /// area at or above `heap_start`; what lies below it was not taken
    /// from the page manager.
    pub fn freed_pages(&self, heap_start: usize) -> (r: Vec<usize>)
        ensures
            r@ == taken_pages(self.area@, heap_start),
    {
        let mut r: Vec<usize> = Vec::new();
        let mut i: usize = 0;
        while i < self.area.len()
            invariant
                i <= self.area@.len(),
                r@ == taken_pages(self.area@.subrange(0, i as int), heap_start),
            decreases self.area@.len() - i,
        {
            proof {
                assert(self.area@.subrange(0, i + 1).drop_last() =~= self.area@.subrange(0, i as int));
                assert(self.area@.subrange(0, i + 1).last() == self.area@[i as int]);
            }
            if self.area[i].pst >= heap_start {
                r.push(self.area[i].pst);
            }
            i = i + 1;
        }
        proof {
            assert(self.area@.subrange(0, self.area@.len() as int) =~= self.area@);
        }
        r
    }

    /// Maps every area, area after area, page after page: code areas as
    /// code, data areas as data, the others with every permission. `false`
    /// when a page could not be mapped (the mapping stops there).
    pub fn map(&self, satp: &mut SATP, pt: &mut PageTable, pm: &mut PageManager) -> (r: bool)
        requires
            old(satp).holds(*old(pt)),
            old(pm).wf(),
            forall|i: int| 0 <= i < self.area@.len() ==> area_mappable(#[trigger] self.area@[i]),
        ensures
            final(satp).holds(*final(pt)),
            final(pm).wf(),
            final(pm).kernel_base() == old(pm).kernel_base(),
            final(pm).kernel_num() == old(pm).kernel_num(),
            final(pm).user_start() == old(pm).user_start(),
            final(pm).page_size_spec() == old(pm).page_size_spec(),
            satp_root(old(satp).flag) != 0 ==> *final(satp) == *old(satp),
            r ==> final(pt).written_over(*old(pt), areas_writes(self.area@, self.is_kernel)),
            satp_root(old(satp).flag) != 0 ==> free_kernel_pages(*final(pm)) <= free_kernel_pages(*old(pm)),
            satp_root(old(satp).flag) != 0 && old(pm).page_size_spec() == 4096 && clear_of(*old(pt), *old(pm))
                ==> clear_of(*final(pt), *final(pm)),
            satp_root(old(satp).flag) != 0 && old(pm).page_size_spec() == 4096 && clear_of(*old(pt), *old(pm))
                && free_kernel_pages(*old(pm)) >= 2 * areas_writes(self.area@, self.is_kernel).len() ==> r,
            mapping_room(*old(satp), *old(pt), *old(pm), 2 * (areas_writes(self.area@, self.is_kernel).len() as int)) ==> r,
            mapping_room(*old(satp), *old(pt), *old(pm), 2 * (areas_writes(self.area@, self.is_kernel).len() as int))
                ==> mapping_room(*final(satp), *final(pt), *final(pm), 0),
            user_pages_kept(*old(pm), *final(pm)),
            r && areas_writes(self.area@, self.is_kernel).len() > 0 ==> satp_root(final(satp).flag) != 0,
            kernel_run_kept(*old(pm), *final(pm), 2 * (areas_writes(self.area@, self.is_kernel).len() as int) + (if satp_root(
                old(satp).flag,
            ) == 0 {
                1int
            } else {
                0
            })),
            free_kernel_pages(*final(pm)) + 2 * areas_writes(self.area@, self.is_kernel).len() + (if satp_root(
                old(satp).flag,
            ) == 0 {
                1int
            } else {
                0
            }) >= free_kernel_pages(*old(pm)),
    {
        let ghost start = *pt;
        let ghost pm0 = *pm;
        let ghost total = areas_writes(self.area@, self.is_kernel).len();
        proof {
            lemma_run_kept_same(*pm, *pm, if satp_root(old(satp).flag) == 0 {
                1int
            } else {
                0
            });
        }
        proof {
            crate::memory::map::page_table::lemma_written_over_none(start);
            assert(self.area@.subrange(0, 0) =~= Seq::<Area>::empty());
        }
        let mut i: usize = 0;
        while i < self.area.len()
            invariant
                satp.holds(*pt),
                pm.wf(),
                pm.kernel_base() == old(pm).kernel_base(),
                pm.kernel_num() == old(pm).kernel_num(),
                pm.user_start() == old(pm).user_start(),
                pm.page_size_spec() == old(pm).page_size_spec(),
                satp_root(old(satp).flag) != 0 ==> *satp == *old(satp),
                start == *old(pt),
                i <= self.area@.len(),
                forall|j: int| 0 <= j < self.area@.len() ==> area_mappable(#[trigger] self.area@[j]),
                pt.written_over(start, areas_writes(self.area@.subrange(0, i as int), self.is_kernel)),
                pm0 == *old(pm),
                total == areas_writes(self.area@, self.is_kernel).len(),
                satp_root(old(satp).flag) != 0 ==> free_kernel_pages(*pm) <= free_kernel_pages(pm0)
                    <= free_kernel_pages(*pm) + 2 * areas_writes(self.area@.subrange(0, i as int), self.is_kernel).len(),
                satp_root(old(satp).flag) != 0 && pm.page_size_spec() == 4096 && clear_of(start, pm0)
                    ==> clear_of(*pt, *pm),
                mapping_room(*old(satp), start, pm0, 2 * (total as int)) ==> mapping_room(
                    *satp,
                    *pt,
                    *pm,
                    2 * (total - areas_writes(self.area@.subrange(0, i as int), self.is_kernel).len()),
                ),
                user_pages_kept(pm0, *pm),
                satp_root(satp.flag) == 0 ==> areas_writes(self.area@.subrange(0, i as int), self.is_kernel).len() == 0,
                satp_root(satp.flag) == 0 ==> *pm == pm0,
                kernel_run_kept(pm0, *pm, 2 * (areas_writes(self.area@.subrange(0, i as int), self.is_kernel).len() as int) + (if satp_root(
                    old(satp).flag,
                ) == 0 {
                    1int
                } else {
                    0
                })),
                satp_root(satp.flag) == 0 ==> free_kernel_pages(*pm) == free_kernel_pages(pm0),
                free_kernel_pages(pm0) <= free_kernel_pages(*pm) + 2 * areas_writes(self.area@.subrange(0, i as int), self.is_kernel).len()
                    + (if satp_root(old(satp).flag) == 0 {
                    1int
                } else {
                    0
                }),
            decreases self.area@.len() - i,
        {
            let area = self.area[i];
            let ghost done = areas_writes(self.area@.subrange(0, i as int), self.is_kernel);
            let mut vst = area.vst;
            let mut pst = area.pst;
            let ghost mut k: int = 0;
            proof {
                assert(done.add(area_writes(area, self.is_kernel).subrange(0, 0)) =~= done);
                let s2 = self.area@.subrange(0, i + 1);
                assert(s2.drop_last() =~= self.area@.subrange(0, i as int));
                lemma_areas_writes_prefix(self.area@, i + 1, self.is_kernel);
            }
            while vst <= area.ved && pst <= area.ped
                invariant
                    satp.holds(*pt),
                    pm.wf(),
                    pm.kernel_base() == old(pm).kernel_base(),
                    pm.kernel_num() == old(pm).kernel_num(),
                    pm.user_start() == old(pm).user_start(),
                    pm.page_size_spec() == old(pm).page_size_spec(),
                    satp_root(old(satp).flag) != 0 ==> *satp == *old(satp),
                    area_mappable(area),
                    0 <= k <= area_steps(area),
                    vst == area.vst + k * 4096,
                    pst == area.pst + k * 4096,
                    k < area_steps(area) <==> (vst <= area.ved && pst <= area.ped),
                    pt.written_over(start, done.add(area_writes(area, self.is_kernel).subrange(0, k))),
                    pm0 == *old(pm),
                    start == *old(pt),
                    total == areas_writes(self.area@, self.is_kernel).len(),
                    done.len() + area_steps(area) <= total,
                    satp_root(old(satp).flag) != 0 ==> free_kernel_pages(*pm) <= free_kernel_pages(pm0)
                        <= free_kernel_pages(*pm) + 2 * (done.len() + k),
                    satp_root(old(satp).flag) != 0 && pm.page_size_spec() == 4096 && clear_of(start, pm0)
                        ==> clear_of(*pt, *pm),
                    satp_root(old(satp).flag) != 0 && pm.page_size_spec() == 4096 && clear_of(start, pm0)
                        && free_kernel_pages(pm0) >= 2 * total ==> free_kernel_pages(*pm) >= 2 * (total - done.len() - k),
                    mapping_room(*old(satp), start, pm0, 2 * (total as int)) ==> mapping_room(
                        *satp,
                        *pt,
                        *pm,
                        2 * (total - done.len() - k),
                    ),
                    user_pages_kept(pm0, *pm),
                    satp_root(satp.flag) == 0 ==> done.len() + k == 0,
                    satp_root(satp.flag) == 0 ==> *pm == pm0,
                    kernel_run_kept(pm0, *pm, 2 * (done.len() + k) + (if satp_root(
                        old(satp).flag,
                    ) == 0 {
                        1int
                    } else {
                        0
                    })),
                    satp_root(satp.flag) == 0 ==> free_kernel_pages(*pm) == free_kernel_pages(pm0),
                    free_kernel_pages(pm0) <= free_kernel_pages(*pm) + 2 * (done.len() + k) + (if satp_root(
                        old(satp).flag,
                    ) == 0 {
                        1int
                    } else {
                        0
                    }),
                decreases area_steps(area) - k,
            {
                let ghost before = *pt;
                let ghost pm_b = *pm;
                let ghost root_b = satp_root(satp.flag);
                let ok = match area.atype {
                    AreaType::Code => satp.map_code(pt, pm, vst, pst, self.is_kernel),
                    AreaType::Data => satp.map_data(pt, pm, vst, pst, self.is_kernel),
                    AreaType::All => satp.map_all(pt, pm, vst, pst, self.is_kernel),
                };
                proof {
                    let r0: int = if satp_root(old(satp).flag) == 0 {
                        1
                    } else {
                        0
                    };
                    if root_b == 0 {
                        assert(pm_b == pm0);
                        lemma_run_kept_more(pm0, *pm, 3, 2 * (done.len() + k + 1) + r0);
                    } else {
                        lemma_run_kept_trans(pm0, pm_b, *pm, 2 * (done.len() + k) + r0, 2);
                    }
                    lemma_run_kept_more(pm0, *pm, 2 * (done.len() + k + 1) + r0, 2 * (total as int) + r0);
                }
                if !ok {
                    return false;
                }
                proof {
                    let w = area_writes(area, self.is_kernel);
                    let prev = done.add(w.subrange(0, k));
                    crate::memory::map::page_table::lemma_written_over_step(
                        start,
                        before,
                        *pt,
                        prev,
                        vst,
                        pst,
                        area_flag(area.atype, self.is_kernel),
                    );
                    assert(w[k] == (vst, pst, area_flag(area.atype, self.is_kernel)));
                    assert(prev.push(w[k]) =~= done.add(w.subrange(0, k + 1)));
                }
                vst += PAGE_SIZE;
                pst += PAGE_SIZE;
                proof {
                    k = k + 1;
                }
            }
            proof {
                let w = area_writes(area, self.is_kernel);
                assert(k == area_steps(area));
                assert(w.subrange(0, k) =~= w);
                let s2 = self.area@.subrange(0, i + 1);
                assert(s2.drop_last() =~= self.area@.subrange(0, i as int));
                assert(s2.last() == area);
            }
            i += 1;
        }
        proof {
            assert(self.area@.subrange(0, self.area@.len() as int) =~= self.area@);
        }
        true
    }

    /// The physical address of `va` in the first area that holds it.
    pub fn virt_to_phy(&self, va: usize) -> (r: usize)
        requires
            first_containing(self.area@, va as int) >= 0,
            self.area@[first_containing(self.area@, va as int)].pst + va <= usize::MAX,
        ensures
            r == self.area@[first_containing(self.area@, va as int)].pst + va - self.area@[first_containing(
                self.area@,
                va as int,
            )].vst,
    {
        proof {
            lemma_first_containing(self.area@, va as int);
        }
        let mut i: usize = 0;
        while i < self.area.len()
            invariant
                i <= self.area@.len(),
                forall|j: int| 0 <= j < i ==> !(#[trigger] self.area@[j].vst <= va < self.area@[j].ved),
                first_containing(self.area@, va as int) >= 0,
                self.area@[first_containing(self.area@, va as int)].pst + va <= usize::MAX,
            decreases self.area@.len() - i,
        {
            if self.area[i].contain(va) {
                proof {
                    lemma_first_containing_prefix(self.area@, va as int, i as int);
                }
                return self.area[i].virt_to_phy(va);
            }
            i += 1;
        }
        proof {
            lemma_first_containing_prefix(self.area@, va as int, i as int);
        }
        0
    }

    /// Whether some area holds `va`.
    pub fn contain(&self, va: usize) -> (r: bool)
        ensures
            r == exists|j: int| 0 <= j < self.area@.len() && #[trigger] self.area@[j].vst <= va < self.area@[j].ved,
    {
        let mut i: usize = 0;
        while i < self.area.len()
            invariant
                i <= self.area@.len(),
                forall|j: int| 0 <= j < i ==> !(#[trigger] self.area@[j].vst <= va < self.area@[j].ved),
            decreases self.area@.len() - i,
        {
            if self.area[i].contain(va) {
                return true;
            }
            i += 1;
        }
        false
    }
}

} // verus!
