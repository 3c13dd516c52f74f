//! A heap pool: a run of physical pages cut into blocks of one power-of-two
//! size, handed out one block at a time, lowest free block first.

use vstd::prelude::*;
use vstd::arithmetic::power2::{pow2, lemma_pow2_unfold, lemma_pow2_strictly_increases, lemma2_to64, lemma2_to64_rest};
use crate::memory::bitmap::{
    count_clear,
    lemma_count_clear_update,
    lemma_count_clear_bound,
    lemma_count_clear_all_set,
    lemma_count_clear_split,
};
use crate::memory::config::PAGE_SIZE;
use crate::memory::map::SATP;
use crate::memory::map::satp::satp_root;
use crate::memory::map::page_table::{PageTable, page_writes, clear_of};
use crate::memory::page::{PageManager, first_fit_at, no_fit, free_kernel_pages};

verus! {

/// Block sizes up to this many bytes share a pool.
pub const MAX_BLOCK_SIZE: usize = 16384;
/// A pool of small blocks holds this many of them.
pub const POOL_RATE: usize = 16;

/// `r` is the smallest power of two that is at least `n` and at least 2.
pub open spec fn is_align_of(n: int, r: int) -> bool {
    exists|k: nat|
        k >= 1 && #[trigger] pow2(k) == r && r >= n && (k == 1 || pow2((k - 1) as nat) < n)
}

/// The bytes a pool of blocks of `block_size` (a power of two) asks for.
pub open spec fn pool_bytes(block_size: int) -> int {
    if block_size <= 16384 {
        block_size * 16
    } else {
        block_size
    }
}

/// The pages a pool of blocks of `block_size` takes.
pub open spec fn pool_pages(block_size: int) -> int {
    (pool_bytes(block_size) + 4095) / 4096
}

/// `i` is the lowest block whose flag is clear.
pub open spec fn lowest_clear(s: Seq<bool>, i: int) -> bool {
    &&& 0 <= i < s.len()
    &&& !s[i]
    &&& forall|j: int| 0 <= j < i ==> #[trigger] s[j]
}

proof fn lemma_half_is_pow2()
    ensures
        usize::MAX / 2 + 1 == pow2((usize::BITS - 1) as nat),
        usize::BITS >= 2,
{
    lemma2_to64();
    lemma2_to64_rest();
    if usize::BITS == 32 {
        assert(usize::MAX == 0xffff_ffff);
        assert((usize::BITS - 1) as nat == 31nat);
        assert(pow2(31) == 0x8000_0000);
    } else {
        assert(usize::MAX == 0xffff_ffff_ffff_ffff);
        assert((usize::BITS - 1) as nat == 63nat);
        assert(pow2(63) == 0x8000_0000_0000_0000);
    }
}

/// The smallest power of two that is at least `n` (and at least 2).
pub fn align(n: usize) -> (r: usize)
    requires
        n <= usize::MAX / 2 + 1,
    ensures
        is_align_of(n as int, r as int),
        r >= 2,
        r <= usize::MAX / 2 + 1,
{
    let mut rt: usize = 2;
    let ghost mut k: nat = 1;
    proof {
        lemma_pow2_unfold(1);
        lemma2_to64();
    }
    while rt < n
        invariant
            n <= usize::MAX / 2 + 1,
            k >= 1,
            rt == pow2(k),
            rt >= 2,
            rt <= usize::MAX / 2 + 1,
            k == 1 || pow2((k - 1) as nat) < n,
        decreases usize::MAX - rt,
    {
        proof {
            lemma_pow2_unfold(k + 1);
            lemma_half_is_pow2();
            let h = (usize::BITS - 1) as nat;
            if k + 1 > h {
                if k > h {
                    lemma_pow2_strictly_increases(h, k);
                }
            } else if k + 1 < h {
                lemma_pow2_strictly_increases(k + 1, h);
            }
        }
        rt = rt * 2;
        proof {
            k = k + 1;
        }
    }
    rt
}

proof fn lemma_block_fits(i: int, block_num: int, block_size: int, total: int)
    requires
        0 <= i < block_num,
        block_size > 0,
        total >= 0,
        block_num == total / block_size,
    ensures
        i * block_size + block_size <= total,
        0 <= i * block_size,
{
    assert(i * block_size + block_size <= block_num * block_size) by (nonlinear_arith)
        requires
            0 <= i < block_num,
            block_size > 0,
    ;
    assert(block_num * block_size <= total) by (nonlinear_arith)
        requires
            block_size > 0,
            total >= 0,
            block_num == total / block_size,
    ;
    assert(0 <= i * block_size) by (nonlinear_arith)
        requires
            0 <= i,
            block_size > 0,
    ;
}

/// A pool: `page_num` pages from `physic_addr`, seen at
/// `[virtual_base, virtual_top)`, cut into `block_num` blocks of
/// `block_size` bytes; `record[i]` is set while block `i` is in use.
#[derive(Debug)]
pub struct HeapPool {
    pub physic_addr: usize,
    pub virtual_base: usize,
    pub virtual_top: usize,
    pub page_num: usize,
    pub block_size: usize,
    pub total_size: usize,
    pub record: Vec<bool>,
    pub use_num: usize,
    pub block_num: usize,
    pub is_kernel: bool,
}

impl HeapPool {
    /// The pool's layout holds together and `use_num` counts the blocks in
    /// use.
    pub open spec fn wf(&self) -> bool {
        &&& self.block_size >= 2
        &&& self.record@.len() == self.block_num
        &&& self.use_num + count_clear(self.record@, self.block_num as int) == self.block_num
        &&& self.total_size == self.page_num * 4096
        &&& self.block_num == self.total_size / self.block_size
        &&& self.virtual_top == self.virtual_base + self.total_size
        &&& self.physic_addr + self.total_size <= usize::MAX
    }

    /// `self` and `other` describe the same pages and blocks.
    pub open spec fn same_layout(&self, other: HeapPool) -> bool {
        &&& self.physic_addr == other.physic_addr
        &&& self.virtual_base == other.virtual_base
        &&& self.virtual_top == other.virtual_top
        &&& self.page_num == other.page_num
        &&& self.block_size == other.block_size
        &&& self.total_size == other.total_size
        &&& self.block_num == other.block_num
        &&& self.is_kernel == other.is_kernel
    }

    /// `self` is `before` with its lowest free block `i` taken.
    pub open spec fn took_block(&self, before: HeapPool, i: int) -> bool {
        &&& self.same_layout(before)
        &&& lowest_clear(before.record@, i)
        &&& self.record@ == before.record@.update(i, true)
        &&& self.use_num == before.use_num + 1
    }

    /// A pool for blocks of `block_size` bytes (rounded up to a power of
    /// two) at `virtual_addr`: sixteen blocks for sizes up to 16 KiB, one
    /// block otherwise, over whole pages taken from the kernel pages or the
    /// user pages. `None` when no run of that many pages is free.
    pub fn new(virtual_addr: usize, block_size: usize, is_kernel: bool, pm: &mut PageManager) -> (r:
        Option<Self>)
        requires
            block_size <= usize::MAX / 2 + 1,
            old(pm).wf(),
            old(pm).page_size_spec() == PAGE_SIZE,
            forall|b: int|
                is_align_of(block_size as int, b) ==> virtual_addr + pool_pages(b) * 4096
                    <= usize::MAX,
        ensures
            final(pm).wf(),
            final(pm).kernel_base() == old(pm).kernel_base(),
            final(pm).kernel_num() == old(pm).kernel_num(),
            final(pm).user_start() == old(pm).user_start(),
            final(pm).page_size_spec() == old(pm).page_size_spec(),
            match r {
                Some(p) => {
                    &&& p.wf()
                    &&& is_align_of(block_size as int, p.block_size as int)
                    &&& p.page_num == pool_pages(p.block_size as int)
                    &&& p.page_num > 0
                    &&& p.virtual_base == virtual_addr
                    &&& p.is_kernel == is_kernel
                    &&& p.use_num == 0
                    &&& p.block_num > 0
                    &&& forall|j: int| 0 <= j < p.block_num ==> !#[trigger] p.record@[j]
                    &&& first_fit_at(*old(pm), is_kernel, p.page_num as int, p.physic_addr as int)
                    &&& free_kernel_pages(*final(pm)) + (if is_kernel {
                        p.page_num as int
                    } else {
                        0
                    }) == free_kernel_pages(*old(pm))
                },
                None => exists|b: int|
                    is_align_of(block_size as int, b) && #[trigger] no_fit(
                        *old(pm),
                        is_kernel,
                        pool_pages(b),
                    ) && final(pm).pages() == old(pm).pages(),
            },
            forall|j: int|
                0 <= j < old(pm).pages().len() && #[trigger] final(pm).pages()[j].flag == 0
                    ==> old(pm).pages()[j].flag == 0,
    {
        let block_size = align(block_size);
        let size;
        if block_size <= MAX_BLOCK_SIZE {
            size = block_size * POOL_RATE;
        } else {
            size = block_size;
        }
        let page_num = (size + PAGE_SIZE - 1) / PAGE_SIZE;
        assert(virtual_addr + pool_pages(block_size as int) * 4096 <= usize::MAX);
        let physic_addr;
        if is_kernel {
            physic_addr = pm.alloc_kernel_page(page_num);
        } else {
            physic_addr = pm.alloc_user_page(page_num);
        }
        match physic_addr {
            Some(physic_addr) => {
                let total_size = PAGE_SIZE * page_num;
                let block_num = total_size / block_size;
                proof {
                    assert(block_num >= 1) by (nonlinear_arith)
                        requires
                            block_num == total_size / block_size,
                            total_size >= size,
                            size >= block_size,
                            block_size >= 2,
                    ;
                }
                let mut record: Vec<bool> = Vec::new();
                let mut i: usize = 0;
                while i < block_num
                    invariant
                        i <= block_num,
                        record@.len() == i,
                        forall|j: int| 0 <= j < i ==> !#[trigger] record@[j],
                    decreases block_num - i,
                {
                    record.push(false);
                    i = i + 1;
                }
                proof {
                    lemma_count_clear_split(record@, 0, block_num as int);
                }
                Some(
                    Self {
                        physic_addr,
                        virtual_base: virtual_addr,
                        virtual_top: total_size + virtual_addr,
                        page_num,
                        total_size,
                        block_size,
                        record,
                        use_num: 0,
                        block_num,
                        is_kernel,
                    },
                )
            },
            None => {
                assert(no_fit(*old(pm), is_kernel, pool_pages(block_size as int)));
                None
            },
        }
    }

    /// Takes the lowest free block and gives its virtual and physical
    /// addresses; `None` when every block is in use.
    pub fn allocate(&mut self) -> (r: Option<(usize, usize)>)
        requires
            old(self).wf(),
        ensures
            final(self).wf(),
            match r {
                None => old(self).use_num >= old(self).block_num && *final(self) == *old(self),
                Some((va, pa)) => exists|i: int|
                    #[trigger] final(self).took_block(*old(self), i) && va == i * old(self).block_size + old(self).virtual_base && pa == i * old(self).block_size + old(self).physic_addr,
            },
            old(self).use_num < old(self).block_num ==> r is Some,
    {
        if self.use_num >= self.block_num {
            return None;
        }
        let mut i: usize = 0;
        while i < self.block_num
            invariant
                self.wf(),
                *self == *old(self),
                self.use_num < self.block_num,
                i <= self.block_num,
                forall|j: int| 0 <= j < i ==> #[trigger] self.record@[j],
            decreases self.block_num - i,
        {
            if !self.record[i] {
                proof {
                    lemma_count_clear_update(self.record@, self.block_num as int, i as int, true);
                    lemma_count_clear_bound(
                        self.record@.update(i as int, true),
                        self.block_num as int,
                    );
                    lemma_block_fits(
                        i as int,
                        self.block_num as int,
                        self.block_size as int,
                        self.total_size as int,
                    );
                }
                self.use_num = self.use_num + 1;
                self.record.set(i, true);
                let t = i * self.block_size;
                let r = (t + self.virtual_base, t + self.physic_addr);
                assert(self.took_block(*old(self), i as int));
                return Some(r);
            }
            i = i + 1;
        }
        proof {
            lemma_count_clear_all_set(self.record@, self.block_num as int);
        }
        None
    }

    /// Gives back the block that holds `va`.
    pub fn free(&mut self, va: usize)
        requires
            old(self).wf(),
            old(self).virtual_base <= va,
            (va - old(self).virtual_base) / (old(self).block_size as int) < old(self).block_num,
            old(self).record@[(va - old(self).virtual_base) / (old(self).block_size as int)],
        ensures
            final(self).wf(),
            final(self).same_layout(*old(self)),
            final(self).record@ == old(self).record@.update(
                (va - old(self).virtual_base) / (old(self).block_size as int),
                false,
            ),
            final(self).use_num == old(self).use_num - 1,
    {
        let offset = va - self.virtual_base;
        let idx = offset / self.block_size;
        proof {
            lemma_count_clear_update(self.record@, self.block_num as int, idx as int, false);
            lemma_count_clear_bound(self.record@.update(idx as int, false), self.block_num as int);
        }
        self.record.set(idx, false);
        self.use_num = self.use_num - 1;
    }

    /// Maps the pool's pages as data pages at its virtual addresses.
    /// `false` when a table could not be created.
    pub fn map(&self, satp: &mut SATP, pt: &mut PageTable, pm: &mut PageManager) -> (r: bool)
        requires
            self.wf(),
            old(satp).holds(*old(pt)),
            old(pm).wf(),
        ensures
            final(satp).holds(*final(pt)),
            final(pm).wf(),
            final(pm).kernel_base() == old(pm).kernel_base(),
            final(pm).kernel_num() == old(pm).kernel_num(),
            final(pm).user_start() == old(pm).user_start(),
            final(pm).page_size_spec() == old(pm).page_size_spec(),
            satp_root(old(satp).flag) != 0 ==> *final(satp) == *old(satp),
            r ==> final(pt).written_over(
                *old(pt),
                page_writes(
                    self.virtual_base as int,
                    self.physic_addr as int,
                    self.page_num as int,
                    if self.is_kernel { 6u64 } else { 22u64 },
                ),
            ),
            satp_root(old(satp).flag) != 0 ==> free_kernel_pages(*final(pm)) <= free_kernel_pages(*old(pm))
                <= free_kernel_pages(*final(pm)) + 2 * self.page_num,
            satp_root(old(satp).flag) != 0 && old(pm).page_size_spec() == 4096 && clear_of(*old(pt), *old(pm))
                ==> clear_of(*final(pt), *final(pm)),
            satp_root(old(satp).flag) != 0 && old(pm).page_size_spec() == 4096 && clear_of(*old(pt), *old(pm))
                && free_kernel_pages(*old(pm)) >= 2 * self.page_num ==> r,
    {
        satp.map_data_range(pt, pm, self.virtual_base, self.physic_addr, self.page_num, self.is_kernel)
    }

    /// Whether every block is in use.
    pub fn full(&self) -> (r: bool)
        ensures
            r == (self.use_num == self.block_num),
    {
        self.use_num == self.block_num
    }

    /// Whether the pool's virtual range holds `va`.
    pub fn contain(&self, va: usize) -> (r: bool)
        ensures
            r == (self.virtual_base <= va && self.virtual_top > va),
    {
        self.virtual_base <= va && self.virtual_top > va
    }

    /// The physical address of `va`.
    pub fn virt_to_phy(&self, va: usize) -> (r: usize)
        requires
            self.physic_addr + va <= usize::MAX,
            self.physic_addr + va >= self.virtual_base,
        ensures
            r == self.physic_addr + va - self.virtual_base,
    {
        self.physic_addr + va - self.virtual_base
    }
}


/// The block an allocation hands out can be given back at once, and giving
/// it back restores the pool the allocation found.
pub proof fn lemma_pool_free_undoes_alloc(before: HeapPool, taken: HeapPool, freed: HeapPool, i: int)
    requires
        before.wf(),
        taken.took_block(before, i),
        freed.same_layout(taken),
        freed.record@ == taken.record@.update(
            (i * before.block_size + before.virtual_base - taken.virtual_base) / (taken.block_size as int),
            false,
        ),
        freed.use_num == taken.use_num - 1,
    ensures
        (i * before.block_size + before.virtual_base - taken.virtual_base) / (taken.block_size as int)
            == i,
        i < taken.block_num,
        taken.record@[i],
        freed.same_layout(before),
        freed.record@ == before.record@,
        freed.use_num == before.use_num,
{
    let b = before.block_size as int;
    assert((i * b) / b == i) by (nonlinear_arith)
        requires
            b > 0,
    ;
    assert(freed.record@ =~= before.record@);
}

} // verus!
