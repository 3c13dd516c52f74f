//! The heap of a task: pools laid one after another upwards from a fixed
//! virtual address, kept in order of block size. A request is served by
//! the first pool whose blocks are large enough and not all in use; when
//! there is none, a new pool is made for it.

use vstd::prelude::*;
use crate::memory::config::PAGE_SIZE;
use crate::memory::map::SATP;
use crate::memory::map::satp::satp_root;
use crate::memory::map::page_table::{PageTable, page_writes, clear_of, lemma_clear_of_fewer_free};
use crate::memory::page::{PageManager, first_fit_at, no_fit, free_kernel_pages};
use super::heap_pool::{HeapPool, is_align_of, pool_pages, lowest_clear};

verus! {

/// The most virtual memory a task heap may span: 4096 pages.
pub const MAX_HEAP_SIZE: usize = 16777216;

/// Pool `p` can serve a request of `size` bytes.
pub open spec fn serves(p: HeapPool, size: int) -> bool {
    p.block_size >= size && p.use_num != p.block_num
}

/// `i` is the first of the pools `s` that can serve `size` bytes.
pub open spec fn is_first_server(s: Seq<HeapPool>, size: int, i: int) -> bool {
    &&& 0 <= i < s.len()
    &&& serves(s[i], size)
    &&& forall|j: int| 0 <= j < i ==> !#[trigger] serves(s[j], size)
}

/// No pool of `s` can serve `size` bytes.
pub open spec fn no_server(s: Seq<HeapPool>, size: int) -> bool {
    forall|j: int| 0 <= j < s.len() ==> !#[trigger] serves(s[j], size)
}

/// `i` is the first of the pools `s` whose virtual range holds `va`.
pub open spec fn is_first_holder(s: Seq<HeapPool>, va: int, i: int) -> bool {
    &&& 0 <= i < s.len()
    &&& s[i].virtual_base <= va < s[i].virtual_top
    &&& forall|j: int| 0 <= j < i ==> !(#[trigger] s[j].virtual_base <= va < s[j].virtual_top)
}

/// The pools `s` are in order of block size.
pub open spec fn sorted_by_size(s: Seq<HeapPool>) -> bool {
    forall|i: int, j: int| 0 <= i < j < s.len() ==> #[trigger] s[i].block_size <= #[trigger] s[j].block_size
}

/// The virtual ranges of the pools `s` lie in `[lo, hi)`.
pub open spec fn pools_within(s: Seq<HeapPool>, lo: int, hi: int) -> bool {
    forall|i: int| 0 <= i < s.len() ==> lo <= #[trigger] s[i].virtual_base && s[i].virtual_top <= hi
}

/// No two of the pools `s` share a virtual address.
pub open spec fn pools_apart(s: Seq<HeapPool>) -> bool {
    forall|i: int, j: int|
        0 <= i < s.len() && 0 <= j < s.len() && i != j ==> #[trigger] s[i].virtual_top <= #[trigger] s[j].virtual_base
            || s[j].virtual_top <= s[i].virtual_base
}

/// `i` is where a pool of blocks of `b` bytes goes in the pools `s`: after
/// every pool with blocks no larger, before every pool with larger ones.
pub open spec fn insert_point(s: Seq<HeapPool>, b: int, i: int) -> bool {
    &&& 0 <= i <= s.len()
    &&& forall|j: int| 0 <= j < i ==> #[trigger] s[j].block_size <= b
    &&& forall|j: int| i <= j < s.len() ==> #[trigger] s[j].block_size > b
}

/// The heap of a task: `[virtual_heap_start, virtual_heap_top)` is covered
/// by the pools of `memory_area`.
#[derive(Debug)]
pub struct TaskHeap {
    pub virtual_heap_start: usize,
    pub virtual_heap_top: usize,
    pub memory_area: Vec<HeapPool>,
    pub is_kernel: bool,
}

/// What taking a block of `size` bytes from heap `h0` leaves, with the
/// result `r`, the heap `h1`, and the page table going from `pt0` to
/// `pt1` over pages from `pm0`: the first pool that serves the size gives
/// one of its free blocks; when none serves it, a new pool of the aligned
/// size is made at the heap's top from first-fit pages, mapped, put in its
/// place by block size, and gives its first block, or nothing changes when
/// it cannot be made.
pub open spec fn heap_took(
    h0: TaskHeap,
    h1: TaskHeap,
    size: int,
    r: Option<(usize, usize)>,
    pm0: PageManager,
    pt0: PageTable,
    pt1: PageTable,
) -> bool {
    &&& forall|i: int|
                #[trigger] is_first_server(h0.memory_area@, size, i) ==> {
                    &&& h1.virtual_heap_top == h0.virtual_heap_top
                    &&& h1.memory_area@.len() == h0.memory_area@.len()
                    &&& forall|j: int|
                        0 <= j < h0.memory_area@.len() && j != i ==> #[trigger] h1.memory_area@[j] == h0.memory_area@[j]
                    &&& exists|k: int|
                        #[trigger] h1.memory_area@[i].took_block(h0.memory_area@[i], k)
                            && r == Some(
                            (
                                (k * h0.memory_area@[i].block_size + h0.memory_area@[i].virtual_base) as usize,
                                (k * h0.memory_area@[i].block_size + h0.memory_area@[i].physic_addr) as usize,
                            ),
                        )
                }
    &&& no_server(h0.memory_area@, size) ==> match r {
                None => h1 == h0,
                Some((va, pa)) => exists|p: HeapPool, q: HeapPool, pos: int|
                    #![trigger h0.memory_area@.insert(pos, p), p.took_block(q, 0)]
                    {
                        &&& q.wf()
                        &&& q.virtual_base == h0.virtual_heap_top
                        &&& q.is_kernel == h0.is_kernel
                        &&& is_align_of(size, q.block_size as int)
                        &&& q.page_num == pool_pages(q.block_size as int)
                        &&& q.use_num == 0
                        &&& forall|j: int| 0 <= j < q.block_num ==> !#[trigger] q.record@[j]
                        &&& first_fit_at(
                            pm0,
                            h0.is_kernel,
                            q.page_num as int,
                            q.physic_addr as int,
                        )
                        &&& pt1.written_over(
                            pt0,
                            page_writes(
                                q.virtual_base as int,
                                q.physic_addr as int,
                                q.page_num as int,
                                if h0.is_kernel { 6u64 } else { 22u64 },
                            ),
                        )
                        &&& p.took_block(q, 0)
                        &&& insert_point(h0.memory_area@, q.block_size as int, pos)
                        &&& h1.memory_area@ == h0.memory_area@.insert(pos, p)
                        &&& h1.virtual_heap_top == h0.virtual_heap_top + q.total_size
                        &&& va == q.virtual_base
                        &&& pa == q.physic_addr
                    },
            }
}

/// What giving back the block at `va` of heap `h0` leaves, `h1`: the
/// first pool holding `va` marks that block free and counts one block
/// less in use; the other pools stay.
pub open spec fn heap_freed(h0: TaskHeap, h1: TaskHeap, va: int) -> bool {
    &&& h1.memory_area@.len() == h0.memory_area@.len()
    &&& forall|i: int|
        #[trigger] is_first_holder(h0.memory_area@, va, i) ==> {
            let p = h0.memory_area@[i];
            let q = h1.memory_area@[i];
            &&& q.same_layout(p)
            &&& q.record@ == p.record@.update((va - p.virtual_base) / (p.block_size as int), false)
            &&& q.use_num == p.use_num - 1
            &&& forall|j: int|
                0 <= j < h0.memory_area@.len() && j != i ==> #[trigger] h1.memory_area@[j] == h0.memory_area@[j]
        }
}

/// Giving back a block just taken, and asking again for the same size,
/// gives the same block: when `h1` came from `h0` by taking a block of
/// `size` bytes (from a pool that served it, or from a new pool made for
/// it), `h2` came from `h1` by giving it back and `h3` from `h2` by
/// taking a block of `size` bytes again, the same virtual and physical
/// addresses come out, and no new pool is made.
pub proof fn lemma_heap_free_then_take(
    h0: TaskHeap,
    h1: TaskHeap,
    h2: TaskHeap,
    h3: TaskHeap,
    size: int,
    va: usize,
    pa: usize,
    r2: Option<(usize, usize)>,
    pm0: PageManager,
    pm2: PageManager,
    pt0: PageTable,
    pt1: PageTable,
    pt2: PageTable,
    pt3: PageTable,
)
    requires
        h0.wf(),
        heap_took(h0, h1, size, Some((va, pa)), pm0, pt0, pt1),
        h1.wf(),
        heap_freed(h1, h2, va as int),
        heap_took(h2, h3, size, r2, pm2, pt2, pt3),
    ensures
        r2 == Some((va, pa)),
        h3.memory_area@.len() == h2.memory_area@.len(),
{
    if no_server(h0.memory_area@, size) {
        lemma_take_from_new_pool(h0, h1, h2, h3, size, va, pa, r2, pm0, pm2, pt0, pt1, pt2, pt3);
    } else {
        lemma_take_from_server(h0, h1, h2, h3, size, va, pa, r2, pm0, pm2, pt0, pt1, pt2, pt3);
    }
}

/// The case of `lemma_heap_free_then_take` where the first block came from
/// a new pool.
proof fn lemma_take_from_new_pool(
    h0: TaskHeap,
    h1: TaskHeap,
    h2: TaskHeap,
    h3: TaskHeap,
    size: int,
    va: usize,
    pa: usize,
    r2: Option<(usize, usize)>,
    pm0: PageManager,
    pm2: PageManager,
    pt0: PageTable,
    pt1: PageTable,
    pt2: PageTable,
    pt3: PageTable,
)
    requires
        h0.wf(),
        no_server(h0.memory_area@, size),
        heap_took(h0, h1, size, Some((va, pa)), pm0, pt0, pt1),
        h1.wf(),
        heap_freed(h1, h2, va as int),
        heap_took(h2, h3, size, r2, pm2, pt2, pt3),
    ensures
        r2 == Some((va, pa)),
        h3.memory_area@.len() == h2.memory_area@.len(),
{
    let (p, q, pos) = choose|p: HeapPool, q: HeapPool, pos: int|
        #![trigger h0.memory_area@.insert(pos, p), p.took_block(q, 0)]
        {
            &&& q.wf()
            &&& is_align_of(size, q.block_size as int)
            &&& q.use_num == 0
            &&& forall|j: int| 0 <= j < q.block_num ==> !#[trigger] q.record@[j]
            &&& p.took_block(q, 0)
            &&& insert_point(h0.memory_area@, q.block_size as int, pos)
            &&& h1.memory_area@ == h0.memory_area@.insert(pos, p)
            &&& va == q.virtual_base
            &&& pa == q.physic_addr
        };
    let s1 = h1.memory_area@;
    assert(s1[pos] == p);
    lemma_block_in_pool(q, 0);
    lemma_only_holder(s1, pos, va as int);
    assert((va - p.virtual_base) / (p.block_size as int) == 0);
    let p2 = h2.memory_area@[pos];
    assert(p2.record@ =~= q.record@);
    assert(p2.use_num == 0);
    assert forall|j: int| 0 <= j < pos implies !#[trigger] serves(h2.memory_area@[j], size) by {
        assert(h2.memory_area@[j] == s1[j]);
        assert(s1[j] == h0.memory_area@[j]);
    }
    assert(serves(p2, size));
    assert(is_first_server(h2.memory_area@, size, pos));
    let k2 = choose|k2: int|
        #[trigger] h3.memory_area@[pos].took_block(p2, k2) && r2 == Some(
            (
                (k2 * p2.block_size + p2.virtual_base) as usize,
                (k2 * p2.block_size + p2.physic_addr) as usize,
            ),
        );
    if k2 > 0 {
        assert(p2.record@[0]);
    }
    assert(k2 == 0);
}

/// The case of `lemma_heap_free_then_take` where the first block came from
/// a pool that already served its size.
proof fn lemma_take_from_server(
    h0: TaskHeap,
    h1: TaskHeap,
    h2: TaskHeap,
    h3: TaskHeap,
    size: int,
    va: usize,
    pa: usize,
    r2: Option<(usize, usize)>,
    pm0: PageManager,
    pm2: PageManager,
    pt0: PageTable,
    pt1: PageTable,
    pt2: PageTable,
    pt3: PageTable,
)
    requires
        h0.wf(),
        !no_server(h0.memory_area@, size),
        heap_took(h0, h1, size, Some((va, pa)), pm0, pt0, pt1),
        h1.wf(),
        heap_freed(h1, h2, va as int),
        heap_took(h2, h3, size, r2, pm2, pt2, pt3),
    ensures
        r2 == Some((va, pa)),
        h3.memory_area@.len() == h2.memory_area@.len(),
{
    let n = choose|n: int| 0 <= n < h0.memory_area@.len() && #[trigger] serves(h0.memory_area@[n], size);
    lemma_first_server_exists(h0.memory_area@, size, n);
    let i = choose|i: int| #[trigger] is_first_server(h0.memory_area@, size, i);
    let p0 = h0.memory_area@[i];
    let p1 = h1.memory_area@[i];
    let p2 = h2.memory_area@[i];
    let k = choose|k: int|
        #[trigger] p1.took_block(p0, k) && Some((va, pa)) == Some(
            (
                (k * p0.block_size + p0.virtual_base) as usize,
                (k * p0.block_size + p0.physic_addr) as usize,
            ),
        );
    assert(p0.wf());
    assert(k * p0.block_size + p0.block_size <= p0.total_size) by (nonlinear_arith)
        requires
            0 <= k < p0.block_num,
            p0.block_num == p0.total_size / p0.block_size,
            p0.block_size >= 2,
    {
        assert(p0.block_num * p0.block_size <= p0.total_size);
        assert((k + 1) * p0.block_size <= p0.block_num * p0.block_size);
    }
    assert(k * p0.block_size + p0.virtual_base < p0.virtual_top);
    assert(0 <= k * p0.block_size) by (nonlinear_arith)
        requires
            0 <= k,
            p0.block_size >= 2,
    ;
    assert(va as int == k * p0.block_size + p0.virtual_base);
    assert((va - p0.virtual_base) / (p0.block_size as int) == k) by (nonlinear_arith)
        requires
            va - p0.virtual_base == k * p0.block_size,
            p0.block_size >= 2,
    ;
    assert forall|j: int| 0 <= j < i implies !(#[trigger] h1.memory_area@[j].virtual_base <= va
        < h1.memory_area@[j].virtual_top) by {
        assert(h1.memory_area@[i] == p1);
    }
    assert(is_first_holder(h1.memory_area@, va as int, i));
    assert(p2.record@ =~= p0.record@);
    assert(p2.use_num == p0.use_num);
    assert forall|j: int| 0 <= j < i implies !#[trigger] serves(h2.memory_area@[j], size) by {
        assert(h2.memory_area@[j] == h1.memory_area@[j]);
        assert(h1.memory_area@[j] == h0.memory_area@[j]);
    }
    assert(is_first_server(h2.memory_area@, size, i));
    let k2 = choose|k2: int|
        #[trigger] h3.memory_area@[i].took_block(p2, k2) && r2 == Some(
            (
                (k2 * p2.block_size + p2.virtual_base) as usize,
                (k2 * p2.block_size + p2.physic_addr) as usize,
            ),
        );
    if k2 < k {
        assert(p0.record@[k2]);
    } else if k < k2 {
        assert(p2.record@[k]);
    }
    assert(k2 == k);
}

/// Block `k` of a pool lies inside the pool.
proof fn lemma_block_in_pool(p: HeapPool, k: int)
    requires
        p.wf(),
        0 <= k < p.block_num,
    ensures
        p.virtual_base <= k * p.block_size + p.virtual_base < p.virtual_top,
        k * p.block_size + p.virtual_base + p.block_size <= p.virtual_top,
        k * p.block_size + p.physic_addr < p.physic_addr + p.total_size,
{
    assert(k * p.block_size + p.block_size <= p.total_size) by (nonlinear_arith)
        requires
            0 <= k < p.block_num,
            p.block_num == p.total_size / p.block_size,
            p.block_size >= 2,
    {
        assert(p.block_num * p.block_size <= p.total_size);
        assert((k + 1) * p.block_size <= p.block_num * p.block_size);
    }
    assert(0 <= k * p.block_size) by (nonlinear_arith)
        requires
            0 <= k,
            p.block_size >= 2,
    ;
}

/// In pools kept apart, the pool whose range holds `va` is the first to.
proof fn lemma_only_holder(s: Seq<HeapPool>, i: int, va: int)
    requires
        pools_apart(s),
        0 <= i < s.len(),
        s[i].virtual_base <= va < s[i].virtual_top,
    ensures
        is_first_holder(s, va, i),
{
    assert forall|j: int| 0 <= j < i implies !(#[trigger] s[j].virtual_base <= va < s[j].virtual_top) by {
        assert(s[i].virtual_top <= s[j].virtual_base || s[j].virtual_top <= s[i].virtual_base);
    }
}

/// Where some pool from `n` down serves `size` bytes, a first such pool
/// exists.
proof fn lemma_first_server_exists(s: Seq<HeapPool>, size: int, n: int)
    requires
        0 <= n < s.len(),
        serves(s[n], size),
    ensures
        exists|i: int| #[trigger] is_first_server(s, size, i),
    decreases n,
{
    if forall|j: int| 0 <= j < n ==> !#[trigger] serves(s[j], size) {
        assert(is_first_server(s, size, n));
    } else {
        let j = choose|j: int| 0 <= j < n && #[trigger] serves(s[j], size);
        lemma_first_server_exists(s, size, j);
    }
}

impl TaskHeap {
    /// Every pool holds together, the pools are in order of block size and
    /// the heap spans at most `MAX_HEAP_SIZE` bytes.
    pub open spec fn wf(&self) -> bool {
        &&& self.virtual_heap_start <= self.virtual_heap_top
        &&& self.virtual_heap_top - self.virtual_heap_start <= MAX_HEAP_SIZE
        &&& self.virtual_heap_start + MAX_HEAP_SIZE <= usize::MAX
        &&& forall|i: int| 0 <= i < self.memory_area@.len() ==> #[trigger] self.memory_area@[i].wf()
        &&& sorted_by_size(self.memory_area@)
        &&& pools_within(self.memory_area@, self.virtual_heap_start as int, self.virtual_heap_top as int)
        &&& pools_apart(self.memory_area@)
    }

    /// An empty heap that starts at `virtual_heap_start`.
    pub fn new(virtual_heap_start: usize, is_kernel: bool) -> (r: Self)
        ensures
            r.virtual_heap_start == virtual_heap_start,
            r.virtual_heap_top == virtual_heap_start,
            r.memory_area@ == Seq::<HeapPool>::empty(),
            r.is_kernel == is_kernel,
            virtual_heap_start + MAX_HEAP_SIZE <= usize::MAX ==> r.wf(),
    {
        Self {
            virtual_heap_start,
            virtual_heap_top: virtual_heap_start,
            memory_area: Vec::new(),
            is_kernel,
        }
    }

    fn find_server(&self, size: usize) -> (r: Option<usize>)
        ensures
            match r {
                Some(i) => is_first_server(self.memory_area@, size as int, i as int),
                None => no_server(self.memory_area@, size as int),
            },
    {
        let mut i: usize = 0;
        while i < self.memory_area.len()
            invariant
                i <= self.memory_area@.len(),
                forall|j: int| 0 <= j < i ==> !#[trigger] serves(self.memory_area@[j], size as int),
            decreases self.memory_area@.len() - i,
        {
            let p = &self.memory_area[i];
            if p.block_size >= size && !p.full() {
                return Some(i);
            }
            i = i + 1;
        }
        None
    }

    fn find_holder(&self, va: usize) -> (r: Option<usize>)
        ensures
            match r {
                Some(i) => is_first_holder(self.memory_area@, va as int, i as int),
                None => forall|j: int|
                    0 <= j < self.memory_area@.len() ==> !(#[trigger] self.memory_area@[j].virtual_base
                        <= va < self.memory_area@[j].virtual_top),
            },
    {
        let mut i: usize = 0;
        while i < self.memory_area.len()
            invariant
                i <= self.memory_area@.len(),
                forall|j: int|
                    0 <= j < i ==> !(#[trigger] self.memory_area@[j].virtual_base <= va
                        < self.memory_area@[j].virtual_top),
            decreases self.memory_area@.len() - i,
        {
            if self.memory_area[i].contain(va) {
                return Some(i);
            }
            i = i + 1;
        }
        None
    }

    /// Takes `size` bytes: a block of the first pool that can serve them,
    /// else of a new pool made for them at the top of the heap and put
    /// after the pools with blocks no larger. Gives the virtual and the
    /// physical address. `None` (the heap unchanged) when a new pool was
    /// needed and its pages could not be had or mapped.
    pub fn alloc_block(
        &mut self,
        size: usize,
        satp: &mut SATP,
        pt: &mut PageTable,
        pm: &mut PageManager,
    ) -> (r: Option<(usize, usize)>)
        requires
            old(self).wf(),
            old(satp).holds(*old(pt)),
            old(pm).wf(),
            old(pm).page_size_spec() == PAGE_SIZE,
            size <= usize::MAX / 2 + 1,
            no_server(old(self).memory_area@, size as int) ==> forall|b: int|
                is_align_of(size as int, b) ==> old(self).virtual_heap_top + pool_pages(b) * 4096
                    - old(self).virtual_heap_start <= MAX_HEAP_SIZE,
        ensures
            final(self).wf(),
            final(satp).holds(*final(pt)),
            final(pm).wf(),
            final(pm).kernel_base() == old(pm).kernel_base(),
            final(pm).kernel_num() == old(pm).kernel_num(),
            final(pm).user_start() == old(pm).user_start(),
            final(pm).page_size_spec() == old(pm).page_size_spec(),
            satp_root(old(satp).flag) != 0 ==> *final(satp) == *old(satp),
            final(self).virtual_heap_start == old(self).virtual_heap_start,
            final(self).is_kernel == old(self).is_kernel,
            heap_took(*old(self), *final(self), size as int, r, *old(pm), *old(pt), *final(pt)),
            r matches Some((va, pa)) ==> final(self).virtual_heap_start <= va && va + size
                <= final(self).virtual_heap_top && exists|i: int|
                #[trigger] is_first_holder(final(self).memory_area@, va as int, i) && pa
                    == final(self).memory_area@[i].physic_addr + va - final(self).memory_area@[i].virtual_base,
            r is None ==> no_server(old(self).memory_area@, size as int) && exists|b: int|
                #[trigger] is_align_of(size as int, b) && (no_fit(*old(pm), old(self).is_kernel, pool_pages(b))
                    || !(satp_root(old(satp).flag) != 0 && old(pm).page_size_spec() == 4096 && clear_of(
                    *old(pt),
                    *old(pm),
                ) && free_kernel_pages(*old(pm)) >= 2 * pool_pages(b) + (if old(self).is_kernel {
                    pool_pages(b)
                } else {
                    0
                }))),
    {
        match self.find_server(size) {
            Some(i) => {
                let ghost before = self.memory_area@[i as int];
                proof {
                    assert(self.memory_area@[i as int].wf());
                }
                let r = self.memory_area[i].allocate();
                proof {
                    assert forall|i2: int|
                        #[trigger] is_first_server(old(self).memory_area@, size as int, i2) implies i2
                        == i by {
                        if i2 < i {
                            assert(!serves(old(self).memory_area@[i2], size as int));
                        } else if i2 > i {
                            assert(!serves(old(self).memory_area@[i as int], size as int));
                        }
                    }
                    assert forall|j: int| 0 <= j < self.memory_area@.len() implies #[trigger] self.memory_area@[j].wf() by {
                        if j != i {
                            assert(self.memory_area@[j] == old(self).memory_area@[j]);
                        }
                    }
                    assert forall|a: int, b: int| 0 <= a < b < self.memory_area@.len() implies #[trigger] self.memory_area@[a].block_size <= #[trigger] self.memory_area@[b].block_size by {
                        assert(old(self).memory_area@[a].block_size <= old(self).memory_area@[b].block_size);
                    }
                    if let Some((va, pa)) = r {
                        let k = choose|k: int|
                            #[trigger] self.memory_area@[i as int].took_block(before, k) && va == k * before.block_size
                                + before.virtual_base && pa == k * before.block_size + before.physic_addr;
                        lemma_block_in_pool(before, k);
                        lemma_only_holder(self.memory_area@, i as int, va as int);
                    }
                }
                r
            },
            None => {
                let ghost pm0 = *pm;
                let ghost pt0 = *pt;
                let pool = HeapPool::new(self.virtual_heap_top, size, self.is_kernel, pm);
                match pool {
                    None => None,
                    Some(pool) => {
                        let ghost pm1 = *pm;
                        proof {
                            if satp_root(old(satp).flag) != 0 && old(pm).page_size_spec() == 4096 && clear_of(pt0, pm0) {
                                lemma_clear_of_fewer_free(pt0, pm0, pm1);
                            }
                        }
                        if !pool.map(satp, pt, pm) {
                            return None;
                        }
                        self.virtual_heap_top = self.virtual_heap_top + pool.total_size;
                        let mut pos: usize = 0;
                        while pos < self.memory_area.len() && self.memory_area[pos].block_size
                            <= pool.block_size
                            invariant
                                pos <= self.memory_area@.len(),
                                forall|j: int|
                                    0 <= j < pos ==> #[trigger] self.memory_area@[j].block_size
                                        <= pool.block_size,
                            decreases self.memory_area@.len() - pos,
                        {
                            pos = pos + 1;
                        }
                        proof {
                            assert forall|j: int|
                                pos <= j < self.memory_area@.len() implies #[trigger] self.memory_area@[j].block_size
                                > pool.block_size by {
                                if j > pos {
                                    assert(self.memory_area@[pos as int].block_size
                                        <= self.memory_area@[j].block_size);
                                }
                            }
                        }
                        let ghost q = pool;
                        let mut pool = pool;
                        let r = pool.allocate();
                        proof {
                            assert(lowest_clear(q.record@, 0));
                            assert forall|k: int| #[trigger] lowest_clear(q.record@, k) implies k == 0 by {
                                if k > 0 {
                                    assert(q.record@[0]);
                                }
                            }
                        }
                        let ghost p = pool;
                        self.memory_area.insert(pos, pool);
                        proof {
                            let s = self.memory_area@;
                            assert forall|j: int| 0 <= j < s.len() implies #[trigger] s[j].wf() by {
                                if j < pos {
                                    assert(s[j] == old(self).memory_area@[j]);
                                } else if j > pos {
                                    assert(s[j] == old(self).memory_area@[j - 1]);
                                }
                            }
                            assert forall|a: int, b: int| 0 <= a < b < s.len() implies #[trigger] s[a].block_size <= #[trigger] s[b].block_size by {
                                if b < pos {
                                    assert(old(self).memory_area@[a].block_size <= old(self).memory_area@[b].block_size);
                                } else if a > pos {
                                    assert(old(self).memory_area@[a - 1].block_size <= old(self).memory_area@[b - 1].block_size);
                                } else if a < pos && b > pos {
                                    assert(s[a].block_size <= p.block_size);
                                    assert(s[b] == old(self).memory_area@[b - 1]);
                                } else if a == pos {
                                    assert(s[b] == old(self).memory_area@[b - 1]);
                                } else {
                                    assert(s[a] == old(self).memory_area@[a]);
                                }
                            }
                            assert(self.memory_area@ == old(self).memory_area@.insert(pos as int, p));
                            assert(p.took_block(q, 0));
                            assert(insert_point(old(self).memory_area@, q.block_size as int, pos as int));
                            let k = choose|k: int|
                                #[trigger] p.took_block(q, k) && r == Some(
                                    (
                                        (k * q.block_size + q.virtual_base) as usize,
                                        (k * q.block_size + q.physic_addr) as usize,
                                    ),
                                );
                            assert(k == 0);
                            assert(0 * q.block_size == 0);
                            assert(r == Some((q.virtual_base, q.physic_addr)));
                            assert(is_align_of(size as int, q.block_size as int));
                            assert(q.block_size >= size);
                            lemma_block_in_pool(q, 0);
                            assert(s[pos as int] == p);
                            lemma_only_holder(s, pos as int, q.virtual_base as int);
                        }
                        r
                    },
                }
            },
        }
    }

    /// Gives back the block at `va` to the first pool that holds it.
    pub fn free(&mut self, va: usize)
        requires
            old(self).wf(),
            exists|i: int|
                #[trigger] is_first_holder(old(self).memory_area@, va as int, i) && (va
                    - old(self).memory_area@[i].virtual_base) / (old(self).memory_area@[i].block_size as int) < old(self).memory_area@[i].block_num
                    && old(self).memory_area@[i].record@[(va - old(self).memory_area@[i].virtual_base)
                    / (old(self).memory_area@[i].block_size as int)],
        ensures
            final(self).wf(),
            final(self).virtual_heap_start == old(self).virtual_heap_start,
            final(self).virtual_heap_top == old(self).virtual_heap_top,
            final(self).is_kernel == old(self).is_kernel,
            heap_freed(*old(self), *final(self), va as int),
    {
        let i = self.find_holder(va).unwrap();
        proof {
            let w = choose|w: int|
                #[trigger] is_first_holder(old(self).memory_area@, va as int, w) && (va
                    - old(self).memory_area@[w].virtual_base) / (old(self).memory_area@[w].block_size as int) < old(self).memory_area@[w].block_num
                    && old(self).memory_area@[w].record@[(va - old(self).memory_area@[w].virtual_base)
                    / (old(self).memory_area@[w].block_size as int)];
            if w < i {
                assert(!(old(self).memory_area@[w].virtual_base <= va < old(self).memory_area@[w].virtual_top));
            } else if w > i {
                assert(!(old(self).memory_area@[i as int].virtual_base <= va < old(self).memory_area@[i as int].virtual_top));
            }
            assert(old(self).memory_area@[i as int].wf());
        }
        self.memory_area[i].free(va);
        proof {
            assert forall|i2: int|
                #[trigger] is_first_holder(old(self).memory_area@, va as int, i2) implies i2 == i by {
                if i2 < i {
                    assert(!(old(self).memory_area@[i2].virtual_base <= va < old(self).memory_area@[i2].virtual_top));
                } else if i2 > i {
                    assert(!(old(self).memory_area@[i as int].virtual_base <= va < old(self).memory_area@[i as int].virtual_top));
                }
            }
            assert forall|j: int| 0 <= j < self.memory_area@.len() implies #[trigger] self.memory_area@[j].wf() by {
                if j != i {
                    assert(self.memory_area@[j] == old(self).memory_area@[j]);
                }
            }
            assert forall|a: int, b: int| 0 <= a < b < self.memory_area@.len() implies #[trigger] self.memory_area@[a].block_size <= #[trigger] self.memory_area@[b].block_size by {
                assert(old(self).memory_area@[a].block_size <= old(self).memory_area@[b].block_size);
            }
        }
    }

    /// The physical address of `va` in the first pool that holds it.
    pub fn virt_to_phy(&self, va: usize) -> (r: usize)
        requires
            exists|i: int|
                #[trigger] is_first_holder(self.memory_area@, va as int, i)
                    && self.memory_area@[i].physic_addr + va <= usize::MAX,
        ensures
            forall|i: int|
                #[trigger] is_first_holder(self.memory_area@, va as int, i) ==> r
                    == self.memory_area@[i].physic_addr + va - self.memory_area@[i].virtual_base,
    {
        let i = self.find_holder(va).unwrap();
        proof {
            assert forall|i2: int|
                #[trigger] is_first_holder(self.memory_area@, va as int, i2) implies i2 == i by {
                if i2 < i {
                    assert(!(self.memory_area@[i2].virtual_base <= va < self.memory_area@[i2].virtual_top));
                } else if i2 > i {
                    assert(!(self.memory_area@[i as int].virtual_base <= va < self.memory_area@[i as int].virtual_top));
                }
            }
        }
        self.memory_area[i].virt_to_phy(va)
    }
}

} // verus!
