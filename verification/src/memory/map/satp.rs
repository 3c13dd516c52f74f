//! The SATP register value: the page-table mode, the address space and the
//! physical page of the root table. All mapping goes through it; the first
//! mapping gives it a root table.

use vstd::prelude::*;
use crate::memory::page::{PageManager, free_kernel_pages, taken_run, is_first_fit, user_pages_kept, no_fit, kernel_run_kept, lemma_run_kept_same, lemma_run_after_take, lemma_run_kept_trans, lemma_run_kept_more};
use super::page_table::{PageTable, MapWrite, leaf_bits, frame_of, same_page, page_writes, lemma_written_over_none, lemma_written_over_step, clear_of, lemma_kernel_frames_differ, last_write};

verus! {

/// Address-space identifier written into the register.
pub const ASID: u64 = 0;
/// Paging mode 8: Sv39.
pub const MODE: u64 = 8;
/// Mask of the physical page number field (44 bits).
pub const PPN_MASK: u64 = 0xfff_ffff_ffff;

/// The register bits that point at the root table at physical address `ppn`.
pub open spec fn satp_bits(ppn: usize) -> usize {
    ((((ppn as u64) >> 12u64) & 0xfff_ffff_ffffu64) | ((0u64 & 0xffffu64) << 44u64) | ((8u64
        & 0xfu64) << 60u64)) as usize
}

/// The physical address of the root table that register bits point at.
pub open spec fn satp_root(flag: usize) -> usize {
    (((flag as u64) & 0xfff_ffff_ffffu64) << 12u64) as usize
}

/// The page table `pt` behind register `satp` has a root, its tables lie
/// clear of the free kernel pages of `pm`, whose pages are of 4 KiB, and
/// at least `n` kernel pages are free.
pub open spec fn has_room(satp: SATP, pt: PageTable, pm: PageManager, n: int) -> bool {
    &&& satp_root(satp.flag) != 0
    &&& pm.page_size_spec() == 4096
    &&& clear_of(pt, pm)
    &&& free_kernel_pages(pm) >= n
}

/// A first root table can be had from `pm`: pages of 4 KiB, the kernel
/// pages lying above page 0 and below the addresses the register can
/// hold, and `n` kernel pages free.
pub open spec fn root_ready(pm: PageManager, n: int) -> bool {
    &&& pm.page_size_spec() == 4096
    &&& pm.kernel_base() >= 4096
    &&& pm.user_start() <= 0x100_0000_0000_0000
    &&& free_kernel_pages(pm) >= n
}

/// `n` kernel pages are there for mappings through register `satp` and
/// table `pt`: with a root, as `has_room` says; without one, one page more
/// for the root, as `root_ready` says.
pub open spec fn mapping_room(satp: SATP, pt: PageTable, pm: PageManager, n: int) -> bool {
    ||| has_room(satp, pt, pm, n)
    ||| satp_root(satp.flag) == 0 && root_ready(pm, n + 1)
}

/// The register pointed at `addr` gives back its frame, which is not 0.
proof fn lemma_root_of_page(addr: usize)
    requires
        4096 <= addr < 0x100_0000_0000_0000,
    ensures
        satp_root(satp_bits(addr)) == frame_of(addr as u64),
        frame_of(addr as u64) != 0,
{
    let a = addr as u64;
    assert(a < 0x100_0000_0000_0000u64);
    assert(satp_root(satp_bits(addr)) == frame_of(addr as u64)) by (bit_vector)
        requires
            (addr as u64) < 0x100_0000_0000_0000u64,
    ;
    assert(frame_of(addr as u64) != 0) by (bit_vector)
        requires
            4096u64 <= (addr as u64),
    ;
}

/// Pointing the register at a page-aligned `ppn` below 2^56 gives `ppn`
/// back as the root, and the register then maps exactly when `ppn` is not
/// 0; on a machine with 64-bit addresses the value also carries mode 8
/// (Sv39) and address space 0.
pub proof fn lemma_set_round_trip(ppn: usize)
    requires
        ppn % 4096 == 0,
        (ppn as u64) < 0x100_0000_0000_0000u64,
    ensures
        satp_root(satp_bits(ppn)) == ppn,
        (satp_root(satp_bits(ppn)) != 0) == (ppn != 0),
        usize::BITS == 64 ==> (satp_bits(ppn) as u64) >> 60u64 == 8 && ((satp_bits(ppn) as u64) >> 44u64)
            & 0xffffu64 == 0,
{
    assert(satp_root(satp_bits(ppn)) == ppn) by (bit_vector)
        requires
            ppn % 4096 == 0,
            (ppn as u64) < 0x100_0000_0000_0000u64,
    ;
    assert(usize::BITS == 64 ==> (satp_bits(ppn) as u64) >> 60u64 == 8 && ((satp_bits(ppn) as u64) >> 44u64)
        & 0xffffu64 == 0) by (bit_vector);
}

/// The register value.
#[derive(Debug, Clone, Copy, PartialEq, Eq)]
pub struct SATP {
    pub flag: usize,
}

impl SATP {
    /// A register value that maps nothing.
    pub fn new() -> (r: Self)
        ensures
            r.flag == 0,
    {
        SATP { flag: 0 }
    }

    /// Wraps a raw register value.
    pub fn from(satp: usize) -> (r: Self)
        ensures
            r.flag == satp,
    {
        Self { flag: satp }
    }

    /// Points the register at the root table at physical address `ppn`, in
    /// Sv39 mode with address space 0.
    pub fn set(&mut self, ppn: usize)
        ensures
            final(self).flag == satp_bits(ppn),
    {
        self.flag = ((((ppn as u64) >> 12) & PPN_MASK) | ((ASID & 0xffff) << 44) | ((MODE & 0xf)
            << 60)) as usize;
    }

    /// The physical address of the root table.
    pub fn get_ppn_addr(&self) -> (r: usize)
        ensures
            r == satp_root(self.flag),
    {
        (((self.flag as u64) & PPN_MASK) << 12) as usize
    }

    /// The raw register value.
    pub fn val(&self) -> (r: usize)
        ensures
            r == self.flag,
    {
        self.flag
    }

    /// Whether the register points at a root table.
    pub fn is_map(&self) -> (r: bool)
        ensures
            r == (satp_root(self.flag) != 0),
    {
        self.get_ppn_addr() != 0
    }

    /// The page table `pt` is the one this register points at: it has a root
    /// exactly when the register maps, and then at the register's address.
    pub open spec fn holds(&self, pt: PageTable) -> bool {
        &&& pt.wf()
        &&& if satp_root(self.flag) != 0 {
            pt.frames().len() > 0 && pt.root() == satp_root(self.flag)
        } else {
            pt.frames().len() == 0
        }
    }

    /// Makes sure the register has a root table: when it maps nothing, a
    /// kernel page becomes the root of `pt` and the register points at it.
    /// `false` when no kernel page is free (or the page handed out is page 0,
    /// which the register cannot tell from "no table").
    pub fn get_page_table(&mut self, pt: &mut PageTable, pm: &mut PageManager) -> (r: bool)
        requires
            old(self).holds(*old(pt)),
            old(pm).wf(),
        ensures
            kernel_run_kept(*old(pm), *final(pm), 1),
            user_pages_kept(*old(pm), *final(pm)),
            final(self).holds(*final(pt)),
            final(pm).wf(),
            final(pm).kernel_base() == old(pm).kernel_base(),
            final(pm).kernel_num() == old(pm).kernel_num(),
            final(pm).user_start() == old(pm).user_start(),
            final(pm).page_size_spec() == old(pm).page_size_spec(),
            r <==> satp_root(final(self).flag) != 0,
            satp_root(old(self).flag) != 0 ==> *final(self) == *old(self) && *final(pt)
                == *old(pt) && *final(pm) == *old(pm),
            forall|va: usize| #[trigger] final(pt).translate(va) == old(pt).translate(va),
            free_kernel_pages(*final(pm)) <= free_kernel_pages(*old(pm)) <= free_kernel_pages(*final(pm)) + 1,
            satp_root(old(self).flag) == 0 && root_ready(*old(pm), 1) ==> r && clear_of(*final(pt), *final(pm))
                && free_kernel_pages(*final(pm)) + 1 == free_kernel_pages(*old(pm)),
    {
        if self.is_map() {
            proof {
                lemma_run_kept_same(*old(pm), *pm, 1);
            }
            return true;
        }
        proof {
            assert forall|va: usize| (#[trigger] old(pt).translate(va)).is_none() by {
                old(pt).lemma_translate_empty(va);
            }
        }
        let got = pm.alloc_kernel_page(1);
        proof {
            match got {
                Some(a) => {
                    let w = choose|w: int|
                        #![trigger taken_run(old(pm).pages(), w, 1)]
                        is_first_fit(old(pm).pages(), 0, old(pm).kernel_num(), 1, w) && a
                            == old(pm).kernel_base() + w * old(pm).page_size_spec() && pm.pages()
                            == taken_run(old(pm).pages(), w, 1);
                    assert forall|m: int| m >= 1 && !#[trigger] no_fit(*old(pm), true, m) implies !no_fit(*pm, true, m - 1) by {
                        lemma_run_after_take(*old(pm), *pm, w, m);
                    }
                },
                None => {
                    lemma_run_kept_same(*old(pm), *pm, 1);
                },
            }
        }
        match got {
            Some(addr) => {
                let mut s = *self;
                s.set(addr);
                proof {
                    if root_ready(*old(pm), 1) {
                        old(pm).lemma_layout();
                        lemma_root_of_page(addr);
                    }
                }
                if s.is_map() {
                    *self = s;
                    *pt = PageTable::with_root(self.get_ppn_addr());
                    proof {
                        if root_ready(*old(pm), 1) {
                            let w = choose|w: int|
                                #![trigger taken_run(old(pm).pages(), w, 1)]
                                is_first_fit(old(pm).pages(), 0, old(pm).kernel_num(), 1, w) && addr
                                    == old(pm).kernel_base() + w * old(pm).page_size_spec() && pm.pages()
                                    == taken_run(old(pm).pages(), w, 1);
                            assert forall|v: int|
                                0 <= v < pm.kernel_num() && #[trigger] pm.pages()[v].flag == 0 implies !pt.frames().contains(
                                frame_of((pm.kernel_base() + v * pm.page_size_spec()) as u64),
                            ) by {
                                assert(v != w);
                                lemma_kernel_frames_differ(*old(pm), v, w);
                                assert(pt.frames()[0] == frame_of(addr as u64));
                            }
                        }
                    }
                    true
                } else {
                    false
                }
            },
            None => false,
        }
    }

    /// Maps a data page: kernel pages readable and writable, user pages also
    /// open to user mode. `false` when a table could not be created.
    pub fn map_data(
        &mut self,
        pt: &mut PageTable,
        pm: &mut PageManager,
        va: usize,
        pa: usize,
        is_kernel: bool,
    ) -> (r: bool)
        requires
            old(self).holds(*old(pt)),
            old(pm).wf(),
        ensures
            kernel_run_kept(*old(pm), *final(pm), 2 + if satp_root(old(self).flag) == 0 {
                1int
            } else {
                0
            }),
            r ==> satp_root(final(self).flag) != 0,
            user_pages_kept(*old(pm), *final(pm)),
            final(self).holds(*final(pt)),
            final(pm).wf(),
            final(pm).kernel_base() == old(pm).kernel_base(),
            final(pm).kernel_num() == old(pm).kernel_num(),
            final(pm).user_start() == old(pm).user_start(),
            final(pm).page_size_spec() == old(pm).page_size_spec(),
            satp_root(old(self).flag) != 0 ==> *final(self) == *old(self),
            r ==> final(pt).translate(va).is_some() && final(pt).translate(va).unwrap().bits()
                == leaf_bits(pa as u64, if is_kernel { 6u64 } else { 22u64 }),
            forall|va2: usize|
                !same_page(va, va2) || !r ==> #[trigger] final(pt).translate(va2) == old(pt).translate(va2),
            satp_root(old(self).flag) != 0 ==> free_kernel_pages(*final(pm)) <= free_kernel_pages(*old(pm))
                <= free_kernel_pages(*final(pm)) + 2,
            satp_root(old(self).flag) != 0 && old(pm).page_size_spec() == 4096 && clear_of(*old(pt), *old(pm))
                ==> clear_of(*final(pt), *final(pm)),
            satp_root(old(self).flag) != 0 && old(pm).page_size_spec() == 4096 && clear_of(*old(pt), *old(pm))
                && free_kernel_pages(*old(pm)) >= 2 ==> r,
            free_kernel_pages(*final(pm)) + 2 + (if satp_root(old(self).flag) == 0 {
                1int
            } else {
                0
            }) >= free_kernel_pages(*old(pm)),
            free_kernel_pages(*final(pm)) <= free_kernel_pages(*old(pm)),
            mapping_room(*old(self), *old(pt), *old(pm), 0) ==> has_room(*final(self), *final(pt), *final(pm), 0),
            mapping_room(*old(self), *old(pt), *old(pm), 2) ==> r,
    {
        let ghost pm0 = *pm;
        if !self.get_page_table(pt, pm) {
            proof {
                lemma_run_kept_more(pm0, *pm, 1, 2 + if satp_root(old(self).flag) == 0 {
                    1int
                } else {
                    0
                });
            }
            return false;
        }
        let ghost pm1 = *pm;
        let r = if is_kernel {
            pt.map_kernel_data(pm, va, pa)
        } else {
            pt.map_user_data(pm, va, pa)
        };
        proof {
            lemma_run_kept_trans(pm0, pm1, *pm, 1, 2);
            if satp_root(old(self).flag) != 0 {
                assert(pm1 == pm0);
            }
        }
        r
    }

    /// Maps `num` consecutive data pages, page by page: the page at
    /// `va + k * 4096` onto the frame at `pa + k * 4096`, making the root
    /// table first when there is none. `false` when a table could not be
    /// created; the pages before that one stay mapped.
    pub(crate) fn map_data_range(
        &mut self,
        pt: &mut PageTable,
        pm: &mut PageManager,
        va: usize,
        pa: usize,
        num: usize,
        is_kernel: bool,
    ) -> (r: bool)
        requires
            old(self).holds(*old(pt)),
            old(pm).wf(),
            va + num * 4096 <= usize::MAX,
            pa + num * 4096 <= usize::MAX,
        ensures
            user_pages_kept(*old(pm), *final(pm)),
            satp_root(old(self).flag) != 0 ==> kernel_run_kept(*old(pm), *final(pm), 2 * num),
            final(self).holds(*final(pt)),
            final(pm).wf(),
            final(pm).kernel_base() == old(pm).kernel_base(),
            final(pm).kernel_num() == old(pm).kernel_num(),
            final(pm).user_start() == old(pm).user_start(),
            final(pm).page_size_spec() == old(pm).page_size_spec(),
            satp_root(old(self).flag) != 0 ==> *final(self) == *old(self),
            r ==> final(pt).written_over(
                *old(pt),
                page_writes(va as int, pa as int, num as int, if is_kernel { 6u64 } else { 22u64 }),
            ),
            satp_root(old(self).flag) != 0 ==> free_kernel_pages(*final(pm)) <= free_kernel_pages(*old(pm))
                <= free_kernel_pages(*final(pm)) + 2 * num,
            satp_root(old(self).flag) != 0 && old(pm).page_size_spec() == 4096 && clear_of(*old(pt), *old(pm))
                ==> clear_of(*final(pt), *final(pm)),
            mapping_room(*old(self), *old(pt), *old(pm), 2 * num) ==> r,
    {
        let ghost pt0 = *pt;
        let ghost pm0 = *pm;
        if num == 0 {
            proof {
                lemma_run_kept_same(pm0, pm0, 0);
                lemma_written_over_none(pt0);
                assert(page_writes(va as int, pa as int, 0, if is_kernel { 6u64 } else { 22u64 }) =~= Seq::<MapWrite>::empty());
            }
            return true;
        }
        if !self.is_map() {
            if !self.get_page_table(pt, pm) {
                return false;
            }
        }
        let ghost pt1 = *pt;
        let ghost pm1 = *pm;
        proof {
            if satp_root(old(self).flag) != 0 || num == 0 {
                assert(pt1 == pt0 && pm1 == pm0);
            }
            if num > 0 && satp_root(old(self).flag) == 0 && root_ready(pm0, 2 * num + 1) {
                assert(satp_root(self.flag) != 0);
                assert(clear_of(pt1, pm1));
                assert(free_kernel_pages(pm1) >= 2 * num);
            }
        }
        let r = self.map_range_rooted(pt, pm, va, pa, num, is_kernel);
        proof {
            if r {
                let w = page_writes(va as int, pa as int, num as int, if is_kernel { 6u64 } else { 22u64 });
                assert forall|v: usize| #[trigger] pt.translate_bits(v) == match last_write(w, v) {
                    Some(b) => Some(b),
                    None => pt0.translate_bits(v),
                } by {
                    assert(pt1.translate(v) == pt0.translate(v));
                    assert(pt.translate_bits(v) == match last_write(w, v) {
                        Some(b) => Some(b),
                        None => pt1.translate_bits(v),
                    });
                }
            }
        }
        r
    }

    /// Maps `num` consecutive data pages through the tables below a root
    /// that is already there (or makes one at the first page).
    pub(crate) fn map_range_rooted(
        &mut self,
        pt: &mut PageTable,
        pm: &mut PageManager,
        va: usize,
        pa: usize,
        num: usize,
        is_kernel: bool,
    ) -> (r: bool)
        requires
            old(self).holds(*old(pt)),
            old(pm).wf(),
            va + num * 4096 <= usize::MAX,
            pa + num * 4096 <= usize::MAX,
        ensures
            user_pages_kept(*old(pm), *final(pm)),
            satp_root(old(self).flag) != 0 ==> kernel_run_kept(*old(pm), *final(pm), 2 * num),
            final(self).holds(*final(pt)),
            final(pm).wf(),
            final(pm).kernel_base() == old(pm).kernel_base(),
            final(pm).kernel_num() == old(pm).kernel_num(),
            final(pm).user_start() == old(pm).user_start(),
            final(pm).page_size_spec() == old(pm).page_size_spec(),
            satp_root(old(self).flag) != 0 ==> *final(self) == *old(self),
            r ==> final(pt).written_over(
                *old(pt),
                page_writes(va as int, pa as int, num as int, if is_kernel { 6u64 } else { 22u64 }),
            ),
            satp_root(old(self).flag) != 0 ==> free_kernel_pages(*final(pm)) <= free_kernel_pages(*old(pm))
                <= free_kernel_pages(*final(pm)) + 2 * num,
            satp_root(old(self).flag) != 0 && old(pm).page_size_spec() == 4096 && clear_of(*old(pt), *old(pm))
                ==> clear_of(*final(pt), *final(pm)),
            satp_root(old(self).flag) != 0 && old(pm).page_size_spec() == 4096 && clear_of(*old(pt), *old(pm))
                && free_kernel_pages(*old(pm)) >= 2 * num ==> r,
    {
        let ghost start = *pt;
        let ghost pm_start = *pm;
        proof {
            lemma_run_kept_same(*pm, *pm, 0);
        }
        let ghost w = page_writes(va as int, pa as int, num as int, if is_kernel { 6u64 } else { 22u64 });
        proof {
            lemma_written_over_none(start);
            assert(w.subrange(0, 0) =~= Seq::<MapWrite>::empty());
        }
        let mut k: usize = 0;
        while k < num
            invariant
                self.holds(*pt),
                pm.wf(),
                pm.kernel_base() == old(pm).kernel_base(),
                pm.kernel_num() == old(pm).kernel_num(),
                pm.user_start() == old(pm).user_start(),
                pm.page_size_spec() == old(pm).page_size_spec(),
                satp_root(old(self).flag) != 0 ==> *self == *old(self),
                start == *old(pt),
                0 <= k <= num,
                va + num * 4096 <= usize::MAX,
                pa + num * 4096 <= usize::MAX,
                w == page_writes(va as int, pa as int, num as int, if is_kernel { 6u64 } else { 22u64 }),
                pt.written_over(start, w.subrange(0, k as int)),
                pm_start == *old(pm),
                satp_root(old(self).flag) != 0 ==> free_kernel_pages(*pm) <= free_kernel_pages(pm_start)
                    <= free_kernel_pages(*pm) + 2 * k,
                satp_root(old(self).flag) != 0 && pm.page_size_spec() == 4096 && clear_of(start, pm_start)
                    ==> clear_of(*pt, *pm),
                user_pages_kept(pm_start, *pm),
                satp_root(old(self).flag) != 0 ==> kernel_run_kept(pm_start, *pm, 2 * k),
            decreases num - k,
        {
            let ghost before = *pt;
            let ghost pm_b = *pm;
            let v = va + k * 4096;
            let p = pa + k * 4096;
            let ok = self.map_data(pt, pm, v, p, is_kernel);
            proof {
                if satp_root(old(self).flag) != 0 {
                    lemma_run_kept_trans(pm_start, pm_b, *pm, 2 * k, 2);
                    lemma_run_kept_more(pm_start, *pm, 2 * k + 2, 2 * num);
                }
            }
            if !ok {
                return false;
            }
            proof {
                lemma_written_over_step(
                    start,
                    before,
                    *pt,
                    w.subrange(0, k as int),
                    v,
                    p,
                    if is_kernel { 6u64 } else { 22u64 },
                );
                assert(w.subrange(0, k as int).push(w[k as int]) =~= w.subrange(0, k + 1));
            }
            k = k + 1;
        }
        proof {
            assert(w.subrange(0, num as int) =~= w);
        }
        true
    }

    /// Maps a code page: readable and executable, user pages also open to
    /// user mode.
    pub fn map_code(
        &mut self,
        pt: &mut PageTable,
        pm: &mut PageManager,
        va: usize,
        pa: usize,
        is_kernel: bool,
    ) -> (r: bool)
        requires
            old(self).holds(*old(pt)),
            old(pm).wf(),
        ensures
            kernel_run_kept(*old(pm), *final(pm), 2 + if satp_root(old(self).flag) == 0 {
                1int
            } else {
                0
            }),
            r ==> satp_root(final(self).flag) != 0,
            user_pages_kept(*old(pm), *final(pm)),
            final(self).holds(*final(pt)),
            final(pm).wf(),
            final(pm).kernel_base() == old(pm).kernel_base(),
            final(pm).kernel_num() == old(pm).kernel_num(),
            final(pm).user_start() == old(pm).user_start(),
            final(pm).page_size_spec() == old(pm).page_size_spec(),
            satp_root(old(self).flag) != 0 ==> *final(self) == *old(self),
            r ==> final(pt).translate(va).is_some() && final(pt).translate(va).unwrap().bits()
                == leaf_bits(pa as u64, if is_kernel { 10u64 } else { 26u64 }),
            forall|va2: usize|
                !same_page(va, va2) || !r ==> #[trigger] final(pt).translate(va2) == old(pt).translate(va2),
            satp_root(old(self).flag) != 0 ==> free_kernel_pages(*final(pm)) <= free_kernel_pages(*old(pm))
                <= free_kernel_pages(*final(pm)) + 2,
            satp_root(old(self).flag) != 0 && old(pm).page_size_spec() == 4096 && clear_of(*old(pt), *old(pm))
                ==> clear_of(*final(pt), *final(pm)),
            satp_root(old(self).flag) != 0 && old(pm).page_size_spec() == 4096 && clear_of(*old(pt), *old(pm))
                && free_kernel_pages(*old(pm)) >= 2 ==> r,
            free_kernel_pages(*final(pm)) + 2 + (if satp_root(old(self).flag) == 0 {
                1int
            } else {
                0
            }) >= free_kernel_pages(*old(pm)),
            free_kernel_pages(*final(pm)) <= free_kernel_pages(*old(pm)),
            mapping_room(*old(self), *old(pt), *old(pm), 0) ==> has_room(*final(self), *final(pt), *final(pm), 0),
            mapping_room(*old(self), *old(pt), *old(pm), 2) ==> r,
    {
        let ghost pm0 = *pm;
        if !self.get_page_table(pt, pm) {
            proof {
                lemma_run_kept_more(pm0, *pm, 1, 2 + if satp_root(old(self).flag) == 0 {
                    1int
                } else {
                    0
                });
            }
            return false;
        }
        let ghost pm1 = *pm;
        let r = if is_kernel {
            pt.map_kernel_code(pm, va, pa)
        } else {
            pt.map_user_code(pm, va, pa)
        };
        proof {
            lemma_run_kept_trans(pm0, pm1, *pm, 1, 2);
            if satp_root(old(self).flag) != 0 {
                assert(pm1 == pm0);
            }
        }
        r
    }

    /// Maps a page with every permission (user pages also open to user
    /// mode).
    pub fn map_all(
        &mut self,
        pt: &mut PageTable,
        pm: &mut PageManager,
        va: usize,
        pa: usize,
        is_kernel: bool,
    ) -> (r: bool)
        requires
            old(self).holds(*old(pt)),
            old(pm).wf(),
        ensures
            kernel_run_kept(*old(pm), *final(pm), 2 + if satp_root(old(self).flag) == 0 {
                1int
            } else {
                0
            }),
            r ==> satp_root(final(self).flag) != 0,
            user_pages_kept(*old(pm), *final(pm)),
            final(self).holds(*final(pt)),
            final(pm).wf(),
            final(pm).kernel_base() == old(pm).kernel_base(),
            final(pm).kernel_num() == old(pm).kernel_num(),
            final(pm).user_start() == old(pm).user_start(),
            final(pm).page_size_spec() == old(pm).page_size_spec(),
            satp_root(old(self).flag) != 0 ==> *final(self) == *old(self),
            r ==> final(pt).translate(va).is_some() && final(pt).translate(va).unwrap().bits()
                == leaf_bits(pa as u64, if is_kernel { 14u64 } else { 30u64 }),
            forall|va2: usize|
                !same_page(va, va2) || !r ==> #[trigger] final(pt).translate(va2) == old(pt).translate(va2),
            satp_root(old(self).flag) != 0 ==> free_kernel_pages(*final(pm)) <= free_kernel_pages(*old(pm))
                <= free_kernel_pages(*final(pm)) + 2,
            satp_root(old(self).flag) != 0 && old(pm).page_size_spec() == 4096 && clear_of(*old(pt), *old(pm))
                ==> clear_of(*final(pt), *final(pm)),
            satp_root(old(self).flag) != 0 && old(pm).page_size_spec() == 4096 && clear_of(*old(pt), *old(pm))
                && free_kernel_pages(*old(pm)) >= 2 ==> r,
            free_kernel_pages(*final(pm)) + 2 + (if satp_root(old(self).flag) == 0 {
                1int
            } else {
                0
            }) >= free_kernel_pages(*old(pm)),
            free_kernel_pages(*final(pm)) <= free_kernel_pages(*old(pm)),
            mapping_room(*old(self), *old(pt), *old(pm), 0) ==> has_room(*final(self), *final(pt), *final(pm), 0),
            mapping_room(*old(self), *old(pt), *old(pm), 2) ==> r,
    {
        let ghost pm0 = *pm;
        if !self.get_page_table(pt, pm) {
            proof {
                lemma_run_kept_more(pm0, *pm, 1, 2 + if satp_root(old(self).flag) == 0 {
                    1int
                } else {
                    0
                });
            }
            return false;
        }
        let ghost pm1 = *pm;
        let r = if is_kernel {
            pt.map_kernel(pm, va, pa)
        } else {
            pt.map_user(pm, va, pa)
        };
        proof {
            lemma_run_kept_trans(pm0, pm1, *pm, 1, 2);
            if satp_root(old(self).flag) != 0 {
                assert(pm1 == pm0);
            }
        }
        r
    }

    /// Empties the page table this register points at and gives back the
    /// frames of its tables in the order they are to be freed; nothing when
    /// the register maps nothing.
    pub fn free_page_table(&self, pt: &mut PageTable) -> (r: Vec<usize>)
        requires
            self.holds(*old(pt)),
        ensures
            r@ == old(pt).free_list(),
            final(pt).wf(),
            final(pt).frames().len() == 0,
    {
        if self.is_map() {
            pt.free()
        } else {
            proof {
                old(pt).lemma_free_list_empty();
            }
            Vec::new()
        }
    }
}

/// Pointing the register at a root below 2^56 and reading the root back
/// gives the page-aligned root (on a 64-bit machine).
pub proof fn lemma_set_then_root(ppn: usize)
    requires
        usize::BITS == 64,
        (ppn as u64) < 0x100_0000_0000_0000u64,
    ensures
        satp_root(satp_bits(ppn)) == frame_of(ppn as u64),
{
    let p = ppn as u64;
    let v = ((p >> 12u64) & 0xfff_ffff_ffffu64) | ((0u64 & 0xffffu64) << 44u64) | ((8u64 & 0xfu64)
        << 60u64);
    assert((v & 0xfff_ffff_ffffu64) << 12u64 == (p >> 12u64) << 12u64) by (bit_vector)
        requires
            v == ((p >> 12u64) & 0xfff_ffff_ffffu64) | ((0u64 & 0xffffu64) << 44u64) | ((8u64
                & 0xfu64) << 60u64),
            p < 0x100_0000_0000_0000u64,
    ;
    assert((v as usize) as u64 == v);
}

} // verus!
