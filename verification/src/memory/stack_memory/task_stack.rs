//! The stack of a task: it grows downwards from a fixed top, one run of
//! physical pages at a time, each run mapped below the previous one.

use vstd::prelude::*;
use crate::memory::config::PAGE_SIZE;
use crate::memory::map::SATP;
use crate::memory::map::satp::{satp_root, has_room, mapping_room};
use crate::memory::map::page_table::{PageTable, MapWrite, page_writes, lemma_written_over_trans, lemma_written_over_none, clear_of, lemma_clear_of_fewer_free};
use crate::memory::page::{PageManager, first_fit_at, no_fit, free_kernel_pages, taken_run, is_first_fit, lemma_run_shorter, lemma_user_run_shorter, lemma_fit_after_take, lemma_user_fit_kept};

verus! {

/// Virtual addresses `[vst, ved)` laid over physical addresses from `pst`
/// (up to `ped`).
#[derive(Debug, Clone, Copy, PartialEq, Eq)]
pub struct StackArea {
    pub vst: usize,
    pub ved: usize,
    pub pst: usize,
    pub ped: usize,
}

impl StackArea {
    /// An area over the given ranges.
    pub fn new(vst: usize, ved: usize, pst: usize, ped: usize) -> (r: Self)
        ensures
            r == (StackArea { vst, ved, pst, ped }),
    {
        Self { vst, ved, pst, ped }
    }

    /// Whether the area holds virtual address `va`.
    pub fn contain(&self, va: usize) -> (r: bool)
        ensures
            r == (self.vst <= va && self.ved > va),
    {
        self.vst <= va && self.ved > va
    }

    /// The physical address of `va`, which the area holds.
    pub fn virt_to_phy(&self, va: usize) -> (r: usize)
        requires
            self.vst <= va,
            self.pst + (va - self.vst) <= usize::MAX,
        ensures
            r == self.pst + (va - self.vst),
    {
        self.pst + (va - self.vst)
    }
}

/// The stack of task `tid`: `[stack_bottom, stack_top)` is mapped, and
/// `last_page` more pages may still be added.
#[derive(Debug)]
pub struct TaskStack {
    pub stack_top: usize,
    pub stack_bottom: usize,
    pub last_page: usize,
    pub is_kernel: bool,
    pub area: Vec<StackArea>,
    pub tid: usize,
}

/// The page permission bits of stack pages.
pub open spec fn stack_flag(is_kernel: bool) -> u64 {
    if is_kernel { 6u64 } else { 22u64 }
}

/// The mappings of the areas `s`, area after area, each page onto its
/// frame with permissions `flag`.
pub open spec fn stack_writes(s: Seq<StackArea>, flag: u64) -> Seq<MapWrite>
    decreases s.len(),
{
    if s.len() == 0 {
        Seq::empty()
    } else {
        stack_writes(s.drop_last(), flag) + page_writes(
            s.last().vst as int,
            s.last().pst as int,
            (s.last().ved - s.last().vst) / 4096,
            flag,
        )
    }
}

/// The index of the first of the areas `s` that holds `va`, or -1.
pub open spec fn first_stack_area(s: Seq<StackArea>, va: int) -> int
    decreases s.len(),
{
    if s.len() == 0 {
        -1
    } else {
        let r = first_stack_area(s.drop_last(), va);
        if r >= 0 {
            r
        } else if s.last().vst <= va < s.last().ved {
            s.len() - 1
        } else {
            -1
        }
    }
}

proof fn lemma_first_stack_area(s: Seq<StackArea>, va: int, i: int)
    requires
        0 <= i <= s.len(),
        forall|j: int| 0 <= j < i ==> !(#[trigger] s[j].vst <= va < s[j].ved),
        i < s.len() ==> s[i].vst <= va < s[i].ved,
    ensures
        i < s.len() ==> first_stack_area(s, va) == i,
        i == s.len() ==> first_stack_area(s, va) == -1,
    decreases s.len(),
{
    if s.len() > 0 {
        let t = s.drop_last();
        assert forall|j: int| 0 <= j < t.len() implies t[j] == s[j] by {}
        if i < s.len() - 1 {
            lemma_first_stack_area(t, va, i);
        } else {
            lemma_first_stack_area(t, va, t.len() as int);
        }
    }
}

/// A copy of `other`'s stack into `me` can be had from `pm` through
/// register `satp` and table `pt`: for a kernel stack, three kernel pages
/// a page of the stack, in one free run (the stack's runs and the tables'
/// pages are taken from there); for a user stack, a run of user pages as
/// long as the stack and two kernel pages a page for the tables.
pub open spec fn copy_room(me: TaskStack, other: TaskStack, satp: SATP, pt: PageTable, pm: PageManager) -> bool {
    let t = (other.stack_top - other.stack_bottom) / 4096;
    if me.is_kernel {
        has_room(satp, pt, pm, 3 * t) && !no_fit(pm, true, 3 * t)
    } else {
        has_room(satp, pt, pm, 2 * t) && !no_fit(pm, false, t)
    }
}

/// What `copy_room` asks of what is left, `rest` bytes of the stack still
/// to copy.
pub open spec fn copy_rest_room(is_kernel: bool, rest: int, satp: SATP, pt: PageTable, pm: PageManager) -> bool {
    let t = rest / 4096;
    if is_kernel {
        has_room(satp, pt, pm, 3 * t) && !no_fit(pm, true, 3 * t)
    } else {
        has_room(satp, pt, pm, 2 * t) && !no_fit(pm, false, t)
    }
}

impl TaskStack {
    /// The areas cover `[stack_bottom, stack_top)` from the top down, each
    /// whole pages over as many bytes of frames.
    pub open spec fn wf(&self) -> bool {
        &&& self.stack_bottom <= self.stack_top
        &&& if self.area@.len() == 0 {
            self.stack_bottom == self.stack_top
        } else {
            self.area@[0].ved == self.stack_top && self.area@.last().vst == self.stack_bottom
        }
        &&& forall|k: int|
            0 <= k < self.area@.len() ==> {
                let a = #[trigger] self.area@[k];
                &&& a.vst < a.ved
                &&& (a.ved - a.vst) % 4096 == 0
                &&& a.ped == a.pst + (a.ved - a.vst)
            }
        &&& forall|k: int|
            0 < k < self.area@.len() ==> #[trigger] self.area@[k].ved == self.area@[k - 1].vst
    }

    /// An empty stack at `virtual_stack_top` that may grow by `max_page`
    /// pages.
    pub fn new(tid: usize, virtual_stack_top: usize, max_page: usize, is_kernel: bool) -> (r: Self)
        ensures
            r.stack_top == virtual_stack_top,
            r.stack_bottom == virtual_stack_top,
            r.is_kernel == is_kernel,
            r.last_page == max_page,
            r.area@ == Seq::<StackArea>::empty(),
            r.tid == tid,
            r.wf(),
    {
        Self {
            stack_top: virtual_stack_top,
            stack_bottom: virtual_stack_top,
            is_kernel,
            last_page: max_page,
            area: Vec::new(),
            tid,
        }
    }

    /// Grows the stack down by `page_num` pages: takes a run of that many
    /// physical pages (kernel pages for a kernel task, user pages for a
    /// user task), records it as a new area below the old bottom and maps
    /// it page by page as data. `Err`, with the stack as it was, when
    /// `page_num` exceeds the pages left or no run is free (then nothing
    /// else changes either), or when a page cannot be mapped (the pages
    /// taken and the mappings made stay).
    pub fn expand(
        &mut self,
        page_num: usize,
        satp: &mut SATP,
        pt: &mut PageTable,
        pm: &mut PageManager,
    ) -> (r: Result<(), ()>)
        requires
            page_num > 0,
            page_num <= old(self).last_page ==> page_num * PAGE_SIZE <= old(self).stack_bottom,
            old(satp).holds(*old(pt)),
            old(pm).wf(),
            old(pm).page_size_spec() == PAGE_SIZE,
            old(self).stack_bottom + PAGE_SIZE <= usize::MAX,
        ensures
            final(satp).holds(*final(pt)),
            final(pm).wf(),
            final(pm).kernel_base() == old(pm).kernel_base(),
            final(pm).kernel_num() == old(pm).kernel_num(),
            final(pm).user_start() == old(pm).user_start(),
            final(pm).page_size_spec() == old(pm).page_size_spec(),
            satp_root(old(satp).flag) != 0 ==> *final(satp) == *old(satp),
            final(self).stack_top == old(self).stack_top,
            final(self).is_kernel == old(self).is_kernel,
            final(self).tid == old(self).tid,
            page_num > old(self).last_page ==> r is Err && *final(self) == *old(self) && final(pm).pages()
                == old(pm).pages() && *final(pt) == *old(pt) && *final(satp) == *old(satp),
            r is Err ==> page_num > old(self).last_page || no_fit(*old(pm), old(self).is_kernel, page_num as int)
                || !mapping_room(*old(satp), *old(pt), *old(pm), 2 * page_num + (if old(self).is_kernel {
                page_num as int
            } else {
                0
            })),
            old(self).wf() ==> final(self).wf(),
            r is Err ==> final(self).area@ == old(self).area@ && final(self).stack_bottom == old(self).stack_bottom
                && final(self).last_page == old(self).last_page,
            r is Err && no_fit(*old(pm), old(self).is_kernel, page_num as int) ==> final(pm).pages() == old(pm).pages()
                && *final(pt) == *old(pt) && *final(satp) == *old(satp),
            r is Ok ==> {
                let t = page_num * PAGE_SIZE;
                let a = final(self).area@.last();
                &&& page_num <= old(self).last_page
                &&& final(self).stack_bottom == old(self).stack_bottom - t
                &&& final(self).last_page == old(self).last_page - page_num
                &&& final(self).area@ == old(self).area@.push(a)
                &&& a.vst == final(self).stack_bottom
                &&& a.ved == old(self).stack_bottom
                &&& a.ped == a.pst + t
                &&& first_fit_at(*old(pm), old(self).is_kernel, page_num as int, a.pst as int)
                &&& final(pt).written_over(
                    *old(pt),
                    page_writes(
                        a.vst as int,
                        a.pst as int,
                        page_num as int,
                        stack_flag(old(self).is_kernel),
                    ),
                )
            },
    {
        if page_num > self.last_page {
            return Err(());
        }
        let ghost pm0 = *pm;
        let addr;
        if self.is_kernel {
            addr = pm.alloc_kernel_page(page_num);
            proof {
                if let Some(a) = addr {
                    assert(a + page_num * PAGE_SIZE <= usize::MAX);
                }
            }
        } else {
            addr = pm.alloc_user_page(page_num);
        }
        proof {
            if addr is Some {
                if satp_root(old(satp).flag) != 0 && old(pm).page_size_spec() == 4096 && clear_of(*old(pt), pm0) {
                    lemma_clear_of_fewer_free(*old(pt), pm0, *pm);
                }
            }
        }
        if let Some(addr) = addr {
            let ved = self.stack_bottom;
            let t = page_num * PAGE_SIZE;
            self.stack_bottom -= t;
            let vst = self.stack_bottom;
            let pst = addr;
            self.area.push(StackArea::new(vst, ved, pst, pst + t));
            if !satp.map_data_range(pt, pm, vst, pst, page_num, self.is_kernel) {
                self.area.pop();
                self.stack_bottom = ved;
                proof {
                    assert(self.area@ =~= old(self).area@);
                }
                return Err(());
            }
            self.last_page -= page_num;
            Ok(())
        } else {
            Err(())
        }
    }


    /// Makes this stack a copy of `other`'s: the same size below this
    /// stack's top, its pages taken out of the budget; for each area of
    /// `other` from the lowest up, a run of as many fresh pages (kernel or
    /// user by this stack's kind) is taken, mapped as data at the matching
    /// place and recorded as a new area. Gives, for each new area, its
    /// frames, the frames of the area it copies and the bytes to copy.
    /// `Err` when pages could not be had or mapped.
    #[verifier::spinoff_prover]
    #[verifier::rlimit(100)]
    pub fn copy(
        &mut self,
        other: &TaskStack,
        satp: &mut SATP,
        pt: &mut PageTable,
        pm: &mut PageManager,
    ) -> (r: Result<Vec<(usize, usize, usize)>, ()>)
        requires
            other.wf(),
            old(self).stack_top >= other.stack_top - other.stack_bottom,
            old(self).last_page >= (old(self).stack_top - (old(self).stack_top - (other.stack_top
                - other.stack_bottom))) / 4096,
            old(satp).holds(*old(pt)),
            old(pm).wf(),
            old(pm).page_size_spec() == PAGE_SIZE,
        ensures
            copy_room(*old(self), *other, *old(satp), *old(pt), *old(pm)) ==> r is Ok,
            final(satp).holds(*final(pt)),
            final(pm).wf(),
            final(pm).kernel_base() == old(pm).kernel_base(),
            final(pm).kernel_num() == old(pm).kernel_num(),
            final(pm).user_start() == old(pm).user_start(),
            final(pm).page_size_spec() == old(pm).page_size_spec(),
            final(self).stack_top == old(self).stack_top,
            final(self).is_kernel == old(self).is_kernel,
            final(self).tid == old(self).tid,
            final(self).stack_bottom == old(self).stack_top - (other.stack_top - other.stack_bottom),
            final(self).last_page == old(self).last_page - (other.stack_top - other.stack_bottom) / 4096,
            satp_root(old(satp).flag) != 0 ==> *final(satp) == *old(satp),
            r is Ok ==> {
                let n = other.area@.len();
                let m = old(self).area@.len();
                let c = r->Ok_0;
                &&& final(self).area@.len() == m + n
                &&& final(self).area@.subrange(0, m as int) == old(self).area@
                &&& c@.len() == n
                &&& forall|k: int|
                    0 <= k < n ==> {
                        let oa = other.area@[n - 1 - k];
                        let na = #[trigger] final(self).area@[m + k];
                        &&& na.vst == final(self).stack_bottom + (oa.vst - other.stack_bottom)
                        &&& na.ved == na.vst + (oa.ved - oa.vst)
                        &&& na.ped == na.pst + (oa.ved - oa.vst)
                        &&& c@[k] == (na.pst, oa.pst, (oa.ped - oa.pst) as usize)
                    }
                &&& final(pt).written_over(
                    *old(pt),
                    stack_writes(
                        final(self).area@.subrange(m as int, (m + n) as int),
                        stack_flag(old(self).is_kernel),
                    ),
                )
            },
    {
        let size = other.stack_top - other.stack_bottom;
        self.stack_bottom = self.stack_top - size;
        self.last_page = self.last_page - (self.stack_top - self.stack_bottom) / PAGE_SIZE;
        let mut vst = self.stack_bottom;
        let n = other.area.len();
        let ghost m = self.area@.len();
        let ghost pt0 = *pt;
        let mut copies: Vec<(usize, usize, usize)> = Vec::new();
        let mut k: usize = 0;
        proof {
            lemma_written_over_none(pt0);
            assert(self.area@.subrange(m as int, m as int) =~= Seq::<StackArea>::empty());
        }
        while k < n
            invariant
                other.wf(),
                n == other.area@.len(),
                k <= n,
                satp.holds(*pt),
                pm.wf(),
                pm.kernel_base() == old(pm).kernel_base(),
                pm.kernel_num() == old(pm).kernel_num(),
                pm.user_start() == old(pm).user_start(),
                pm.page_size_spec() == old(pm).page_size_spec(),
                pm.page_size_spec() == PAGE_SIZE,
                satp_root(old(satp).flag) != 0 ==> *satp == *old(satp),
                self.stack_top == old(self).stack_top,
                self.is_kernel == old(self).is_kernel,
                self.tid == old(self).tid,
                self.stack_bottom == old(self).stack_top - (other.stack_top - other.stack_bottom),
                self.last_page == old(self).last_page - (other.stack_top - other.stack_bottom) / 4096,
                m == old(self).area@.len(),
                self.area@.len() == m + k,
                self.area@.subrange(0, m as int) == old(self).area@,
                copies@.len() == k,
                vst == self.stack_bottom + (if k == 0 {
                    0
                } else {
                    other.area@[n - k].ved - other.stack_bottom
                }),
                k < n ==> vst == self.stack_bottom + (other.area@[n - 1 - k].vst - other.stack_bottom),
                vst <= self.stack_top,
                forall|j: int|
                    0 <= j < k ==> {
                        let oa = other.area@[n - 1 - j];
                        let na = #[trigger] self.area@[m + j];
                        &&& na.vst == self.stack_bottom + (oa.vst - other.stack_bottom)
                        &&& na.ved == na.vst + (oa.ved - oa.vst)
                        &&& na.ped == na.pst + (oa.ved - oa.vst)
                        &&& copies@[j] == (na.pst, oa.pst, (oa.ped - oa.pst) as usize)
                    },
                pt.written_over(
                    pt0,
                    stack_writes(self.area@.subrange(m as int, (m + k) as int), stack_flag(self.is_kernel)),
                ),
                pt0 == *old(pt),
                copy_room(*old(self), *other, *old(satp), *old(pt), *old(pm)) ==> copy_rest_room(
                    self.is_kernel,
                    self.stack_top - vst,
                    *satp,
                    *pt,
                    *pm,
                ),
            decreases n - k,
        {
            let ghost i = n - 1 - k;
            let area = other.area[n - 1 - k];
            proof {
                assert(other.area@[i].vst < other.area@[i].ved);
                if i > 0 {
                    assert(other.area@[i].ved == other.area@[i - 1].vst);
                    assert(other.area@[i - 1].vst < other.area@[i - 1].ved);
                    lemma_areas_below_top(*other, i - 1);
                } else {
                    assert(other.area@[0].ved == other.stack_top);
                }
                lemma_areas_above_bottom(*other, i);
            }
            let len = area.ved - area.vst;
            let num = len / PAGE_SIZE;
            proof {
                assert(len % 4096 == 0);
                assert(num * 4096 == len) by (nonlinear_arith)
                    requires
                        len % 4096 == 0,
                        num == len / 4096,
                ;
                assert(num > 0);
            }
            let ghost room = copy_room(*old(self), *other, *old(satp), *old(pt), *old(pm));
            let ghost rest = self.stack_top - vst;
            let ghost rb = rest / 4096;
            let ghost pm_a = *pm;
            proof {
                if i > 0 {
                    lemma_areas_below_top(*other, i);
                }
                lemma_areas_below_top(*other, i);
                assert(len <= rest);
                assert(num <= rb) by (nonlinear_arith)
                    requires
                        num * 4096 == len,
                        len <= rest,
                        rb == rest / 4096,
                ;
                assert((rest - len) / 4096 == rb - num) by (nonlinear_arith)
                    requires
                        num * 4096 == len,
                        len <= rest,
                        rb == rest / 4096,
                ;
                if room {
                    if self.is_kernel {
                        lemma_run_shorter(*pm, 3 * rb, num as int);
                    } else {
                        lemma_user_run_shorter(*pm, rb, num as int);
                    }
                }
            }
            let got;
            if self.is_kernel {
                got = pm.alloc_kernel_page(num);
            } else {
                got = pm.alloc_user_page(num);
            }
            let pst = match got {
                Some(a) => a,
                None => {
                    return Err(());
                },
            };
            proof {
                if room {
                    lemma_clear_of_fewer_free(*pt, pm_a, *pm);
                    let w = choose|w: int|
                        #![trigger taken_run(pm_a.pages(), w, num as int)]
                        pm.pages() == taken_run(pm_a.pages(), w, num as int) && if self.is_kernel {
                            is_first_fit(pm_a.pages(), 0, pm_a.kernel_num(), num as int, w)
                        } else {
                            is_first_fit(pm_a.pages(), pm_a.kernel_num(), pm_a.kernel_num() + pm_a.user_num(), num as int, w)
                        };
                    if self.is_kernel {
                        lemma_fit_after_take(pm_a, *pm, true, num as int, w, 3 * rb);
                    } else {
                        lemma_fit_after_take(pm_a, *pm, false, num as int, w, rb);
                    }
                }
            }
            let ghost pm_b = *pm;
            proof {
                if self.is_kernel {
                    assert(pst + num * 4096 <= usize::MAX);
                }
            }
            let a = StackArea { vst, ved: vst + len, pst, ped: pst + len };
            copies.push((pst, area.pst, area.ped - area.pst));
            let ghost before = *pt;
            let ghost s_before = self.area@.subrange(m as int, (m + k) as int);
            let ok = satp.map_range_rooted(pt, pm, vst, pst, num, self.is_kernel);
            proof {
                if room {
                    if self.is_kernel {
                        assert(!no_fit(*pm, true, 3 * rb - 3 * num));
                    } else {
                        lemma_user_fit_kept(pm_b, *pm, rb - num);
                    }
                    assert(copy_rest_room(self.is_kernel, rest - len, *satp, *pt, *pm));
                }
            }
            if !ok {
                return Err(());
            }
            self.area.push(a);
            proof {
                let s_old = self.area@.subrange(m as int, (m + k) as int);
                assert(s_old =~= s_before);
                let s_new = self.area@.subrange(m as int, (m + k + 1) as int);
                assert(s_new.drop_last() =~= s_old);
                assert(s_new.last() == a);
                assert(self.area@.subrange(0, m as int) =~= old(self).area@);
                lemma_written_over_trans(
                    pt0,
                    before,
                    *pt,
                    stack_writes(s_old, stack_flag(self.is_kernel)),
                    page_writes(vst as int, pst as int, num as int, stack_flag(self.is_kernel)),
                );
                assert(self.area@[m + k] == a);
            }
            vst = vst + len;
            k = k + 1;
        }
        Ok(copies)
    }

    /// The physical address of `va` in the first stack area that holds it.
    pub fn virt_to_phy(&self, va: usize) -> (r: usize)
        requires
            first_stack_area(self.area@, va as int) >= 0,
            self.area@[first_stack_area(self.area@, va as int)].pst + (va - self.area@[first_stack_area(
                self.area@,
                va as int,
            )].vst) <= usize::MAX,
        ensures
            r == self.area@[first_stack_area(self.area@, va as int)].pst + (va - self.area@[first_stack_area(
                self.area@,
                va as int,
            )].vst),
    {
        let mut i: usize = 0;
        while i < self.area.len()
            invariant
                i <= self.area@.len(),
                forall|j: int| 0 <= j < i ==> !(#[trigger] self.area@[j].vst <= va < self.area@[j].ved),
                first_stack_area(self.area@, va as int) >= 0,
                self.area@[first_stack_area(self.area@, va as int)].pst + (va - self.area@[first_stack_area(
                    self.area@,
                    va as int,
                )].vst) <= usize::MAX,
            decreases self.area@.len() - i,
        {
            if self.area[i].contain(va) {
                proof {
                    lemma_first_stack_area(self.area@, va as int, i as int);
                }
                return self.area[i].virt_to_phy(va);
            }
            i += 1;
        }
        proof {
            lemma_first_stack_area(self.area@, va as int, i as int);
        }
        0
    }
}


proof fn lemma_areas_below_top(s: TaskStack, i: int)
    requires
        s.wf(),
        0 <= i < s.area@.len(),
    ensures
        s.area@[i].ved <= s.stack_top,
    decreases i,
{
    if i > 0 {
        lemma_areas_below_top(s, i - 1);
        assert(s.area@[i].ved == s.area@[i - 1].vst);
    }
}

proof fn lemma_areas_above_bottom(s: TaskStack, i: int)
    requires
        s.wf(),
        0 <= i < s.area@.len(),
    ensures
        s.area@[i].vst >= s.stack_bottom,
    decreases s.area@.len() - i,
{
    if i < s.area@.len() - 1 {
        lemma_areas_above_bottom(s, i + 1);
        assert(s.area@[i + 1].ved == s.area@[(i + 1) - 1].vst);
    }
}

impl TaskStack {
    /// The pages to give back when the thread goes: the start of each of
    /// the stack's areas, in order.
    pub fn freed_pages(&self) -> (r: Vec<usize>)
        ensures
            r@ == Seq::new(self.area@.len(), |i: int| self.area@[i].pst),
    {
        let mut r: Vec<usize> = Vec::new();
        let mut i: usize = 0;
        while i < self.area.len()
            invariant
                i <= self.area@.len(),
                r@ == Seq::new(i as nat, |k: int| self.area@[k].pst),
            decreases self.area@.len() - i,
        {
            r.push(self.area[i].pst);
            i = i + 1;
            proof {
                assert(r@ =~= Seq::new(i as nat, |k: int| self.area@[k].pst));
            }
        }
        r
    }
}

} // verus!
