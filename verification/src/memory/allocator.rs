//! A block allocator over pages: requests are rounded up to a power of two,
//! and each size has nodes, each a run of pages cut into blocks of that size
//! with a bitmap of the blocks in use. The nodes are kept in order of block
//! size. A node's own record takes the first blocks of its pages when its
//! blocks are small, and a block of the allocator itself otherwise.

use vstd::prelude::*;
use crate::memory::bitmap::Bitmap;
use crate::memory::config::PAGE_SIZE;
use crate::memory::heap_memory::heap_pool::{align, is_align_of, lowest_clear};
use crate::memory::page::{PageManager, first_fit_at, no_fit, took_pages};
use vstd::arithmetic::power2::{pow2, lemma_pow2_unfold, lemma_pow2_strictly_increases, lemma2_to64};

verus! {

/// Blocks of this size or more do not keep the node record in their pages
/// when it comes to giving pages back.
pub const MEMORY_TOO_BIG: usize = 4096;
/// Blocks smaller than this keep the node record in their own pages.
pub const MEMORY_SIZE_INSIDE: usize = 204;
/// Bytes of a node record.
pub const NODE_SIZE: usize = 80;

/// The pages a node of blocks of `sz` bytes takes: enough for one block
/// when the blocks are larger than a page, for four blocks otherwise.
pub open spec fn decide_pages(sz: int) -> int {
    if sz > 4096 {
        (sz + 4095) / 4096
    } else {
        (sz * 4 + 4095) / 4096
    }
}

/// The blocks of a node of blocks of `sz` bytes.
pub open spec fn node_blocks(sz: int) -> int {
    decide_pages(sz) * 4096 / sz
}

/// The bytes of the record of a node of blocks of `sz` bytes: a byte per
/// block for the bitmap, and the record itself.
pub open spec fn record_size(sz: int) -> int {
    node_blocks(sz) + 80
}

/// The blocks of a new node of blocks of `sz` bytes that are free: all of
/// them when the record lives elsewhere, else those after the record.
pub open spec fn node_free(sz: int) -> int {
    if sz >= 204 {
        node_blocks(sz)
    } else {
        (decide_pages(sz) * 4096 - record_size(sz)) / sz
    }
}

/// A request of `size` bytes is rounded up past 128 bytes.
pub open spec fn big_request(size: int) -> int {
    if size > 128 {
        1
    } else {
        0
    }
}

/// One node: `bitmap.total_cnt` blocks of `size` bytes from `physic_base`;
/// its record is at `struct_addr`.
#[derive(Debug)]
pub struct MemoryNode {
    pub physic_base: usize,
    pub size: usize,
    pub bitmap: Bitmap,
    pub struct_addr: usize,
}

impl MemoryNode {
    /// The bitmap holds together and the blocks fit in the address space.
    pub open spec fn wf(&self) -> bool {
        &&& self.bitmap.wf()
        &&& self.size >= 2
        &&& self.physic_base + self.bitmap.total_cnt * self.size <= usize::MAX
    }

    /// The node's blocks cover `addr`.
    pub open spec fn holds(&self, addr: int) -> bool {
        self.physic_base <= addr < self.physic_base + self.bitmap.total_cnt * self.size
    }

    /// Whether the node's blocks cover `addr`.
    pub fn is_contain(&self, addr: usize) -> (r: bool)
        requires
            self.wf(),
        ensures
            r == self.holds(addr as int),
    {
        let st = self.physic_base;
        let ed = st + self.bitmap.total_cnt * self.size;
        addr >= st && addr < ed
    }

    /// Whether the node counts as one whose record is in its own pages when
    /// its pages are given back: blocks under a page.
    pub fn is_inside(&self) -> (r: bool)
        ensures
            r == (self.size < 4096),
    {
        self.size < MEMORY_TOO_BIG
    }

    /// Gives back the block that holds `addr`.
    pub fn free_bitmap(&mut self, addr: usize)
        requires
            old(self).wf(),
            old(self).holds(addr as int),
            old(self).bitmap@[(addr - old(self).physic_base) / (old(self).size as int)],
        ensures
            final(self).wf(),
            final(self).physic_base == old(self).physic_base,
            final(self).size == old(self).size,
            final(self).struct_addr == old(self).struct_addr,
            final(self).bitmap.total_cnt == old(self).bitmap.total_cnt,
            final(self).bitmap@ == old(self).bitmap@.update(
                (addr - old(self).physic_base) / (old(self).size as int),
                false,
            ),
            final(self).bitmap.use_cnt == old(self).bitmap.use_cnt - 1,
            final(self).bitmap.free_cnt == old(self).bitmap.free_cnt + 1,
    {
        let st = self.physic_base;
        let idx = (addr - st) / self.size;
        proof {
            let t = self.bitmap.total_cnt as int;
            let s = self.size as int;
            let d = (addr - st) as int;
            assert(d / s < t) by (nonlinear_arith)
                requires
                    0 <= d < t * s,
                    s > 0,
            ;
        }
        self.bitmap.free(idx);
    }
}

/// `i` is the first of the nodes `s` with blocks of `sz` bytes and a free
/// block.
pub open spec fn is_first_contain(s: Seq<MemoryNode>, sz: int, i: int) -> bool {
    &&& 0 <= i < s.len()
    &&& s[i].size == sz && s[i].bitmap.free_cnt != 0
    &&& forall|j: int| 0 <= j < i ==> !(#[trigger] s[j].size == sz && s[j].bitmap.free_cnt != 0)
}

/// The nodes `s` are in order of block size.
pub open spec fn nodes_sorted(s: Seq<MemoryNode>) -> bool {
    forall|i: int, j: int| 0 <= i < j < s.len() ==> #[trigger] s[i].size <= #[trigger] s[j].size
}


/// Nodes of `s` with blocks of `size` bytes and no block in use.
pub open spec fn count_idle(s: Seq<MemoryNode>, size: int) -> nat
    decreases s.len(),
{
    if s.len() == 0 {
        0
    } else {
        count_idle(s.drop_last(), size) + if s.last().size == size && s.last().bitmap.use_cnt == 0 {
            1nat
        } else {
            0nat
        }
    }
}

/// `i` is the first of the nodes `s` whose blocks cover `addr`.
pub open spec fn is_first_holder(s: Seq<MemoryNode>, addr: int, i: int) -> bool {
    &&& 0 <= i < s.len()
    &&& s[i].holds(addr)
    &&& forall|j: int| 0 <= j < i ==> !#[trigger] s[j].holds(addr)
}

/// The block of node `n` that holds `addr`.
pub open spec fn block_of(n: MemoryNode, addr: int) -> int {
    (addr - n.physic_base) / (n.size as int)
}

/// `m` is `n` with the block holding `addr` given back.
pub open spec fn freed_node(m: MemoryNode, n: MemoryNode, addr: int) -> bool {
    &&& m.physic_base == n.physic_base
    &&& m.size == n.size
    &&& m.struct_addr == n.struct_addr
    &&& m.bitmap.total_cnt == n.bitmap.total_cnt
    &&& m.bitmap@ == n.bitmap@.update(block_of(n, addr), false)
    &&& m.bitmap.use_cnt == n.bitmap.use_cnt - 1
    &&& m.bitmap.free_cnt == n.bitmap.free_cnt + 1
}


/// One of the nodes `s1` was made for blocks of `size` bytes when no node
/// of `s0` had one free, `a` is its first block after its record, and the
/// other nodes are those of `s0` (see `node_added`).
pub open spec fn made_fresh(s0: Seq<MemoryNode>, s1: Seq<MemoryNode>, size: int, pm: PageManager, is_kernel: bool, a: int) -> bool {
    exists|i: int|
        0 <= i < s1.len() && #[trigger] fresh_block(s1[i], size, pm, is_kernel, a) && node_added(
            s0,
            s1,
            i,
            is_kernel,
        )
}

/// `s1` is `s0` with its node `i` put in: for blocks under 204 bytes
/// nothing else changes; for larger blocks the block of the node's record
/// was taken first, as `record_taken` says.
pub open spec fn node_added(s0: Seq<MemoryNode>, s1: Seq<MemoryNode>, i: int, is_kernel: bool) -> bool {
    let n = s1[i];
    if n.size < 204 {
        s1 == s0.insert(i, n)
    } else {
        exists|mid: Seq<MemoryNode>, pa: PageManager|
            #[trigger] record_taken(s0, mid, record_size(n.size as int), pa, is_kernel, n.struct_addr as int)
                && s1 == mid.insert(i, n)
    }
}

/// A block of `rs` bytes (a node's record, at most 128 bytes), handed out
/// at `a`, turned the nodes `s0` into `s1`: the lowest free block of the
/// first node of that size with one free was taken, or, when there was
/// none, a new node for that size was put in, its first block after its
/// own record taken.
pub open spec fn record_taken(s0: Seq<MemoryNode>, s1: Seq<MemoryNode>, rs: int, pm: PageManager, is_kernel: bool, a: int) -> bool {
    ||| exists|sz: int, i: int, k: int|
        #![trigger is_first_contain(s0, sz, i), lowest_clear(s0[i].bitmap@, k)]
        is_align_of(rs, sz) && is_first_contain(s0, sz, i) && lowest_clear(s0[i].bitmap@, k) && s1.len()
            == s0.len() && (forall|j: int| 0 <= j < s0.len() && j != i ==> #[trigger] s1[j] == s0[j])
            && s1[i].physic_base == s0[i].physic_base && s1[i].size == s0[i].size && s1[i].struct_addr
            == s0[i].struct_addr && s1[i].bitmap@ == s0[i].bitmap@.update(k, true) && a == s0[i].physic_base
            + k * s0[i].size
    ||| no_free_node(s0, rs) && exists|j: int|
        0 <= j < s1.len() && #[trigger] fresh_block(s1[j], rs, pm, is_kernel, a) && s1[j].size < 204
            && s1 == s0.insert(j, s1[j])
}

/// No node of `s` with the aligned size of `size` has a free block.
pub open spec fn no_free_node(s: Seq<MemoryNode>, size: int) -> bool {
    forall|sz: int, i: int| is_align_of(size, sz) ==> !#[trigger] is_first_contain(s, sz, i)
}

/// Node `n` was made for blocks of `size` bytes when no node had one free:
/// its block size is the aligned size, it has the blocks a node of that
/// size has, its pages are the first fit in `pm` for a node of that size,
/// and `a` is its first block after its record, which is in use with the
/// blocks of the record before it and no other.
pub open spec fn fresh_block(n: MemoryNode, size: int, pm: PageManager, is_kernel: bool, a: int) -> bool {
    &&& is_align_of(size, n.size as int)
    &&& n.bitmap.total_cnt == node_blocks(n.size as int)
    &&& first_fit_at(pm, is_kernel, decide_pages(n.size as int), n.physic_base as int)
    &&& a == n.physic_base + (node_blocks(n.size as int) - node_free(n.size as int)) * n.size
    &&& n.bitmap.use_cnt == node_blocks(n.size as int) - node_free(n.size as int) + 1
    &&& n.bitmap.free_cnt == node_free(n.size as int) - 1
    &&& forall|j: int|
        0 <= j < n.bitmap.total_cnt ==> #[trigger] n.bitmap@[j] == (j <= node_blocks(n.size as int) - node_free(
            n.size as int,
        ))
}

/// Giving back the block at `addr` turns the nodes `s0` into `s1` and
/// gives the pages `r` to release: when the first node holding `addr` has
/// that block in use, the block is freed; when that leaves the node idle
/// with enough other idle nodes of its size (see `released`), the node
/// goes, and for blocks
/// under a page the page of its record is released, else its first page
/// is, and then the block of its record is given back in the same way.
/// Otherwise nothing changes.
pub open spec fn freed(s0: Seq<MemoryNode>, addr: int, s1: Seq<MemoryNode>, r: Seq<usize>) -> bool
    decreases s0.len(),
{
    if exists|i: int| #[trigger] is_first_holder(s0, addr, i) && s0[i].bitmap@[block_of(s0[i], addr)] {
        let i = choose|i: int| #[trigger] is_first_holder(s0, addr, i) && s0[i].bitmap@[block_of(s0[i], addr)];
        let n = s0[i];
        let idle = released(s0, n);
        if !idle {
            &&& r.len() == 0
            &&& s1.len() == s0.len()
            &&& freed_node(s1[i], n, addr)
            &&& forall|j: int| 0 <= j < s0.len() && j != i ==> #[trigger] s1[j] == s0[j]
        } else if n.size < 4096 {
            r == seq![n.struct_addr] && s1 == s0.remove(i)
        } else {
            &&& r.len() >= 1
            &&& r[0] == n.physic_base
            &&& freed(s0.remove(i), n.struct_addr as int, s1, r.drop_first())
        }
    } else {
        r.len() == 0 && s1 == s0
    }
}

/// Nodes of `s` with blocks of `size` bytes and some block in use.
pub open spec fn count_used(s: Seq<MemoryNode>, size: int) -> nat
    decreases s.len(),
{
    if s.len() == 0 {
        0
    } else {
        count_used(s.drop_last(), size) + if s.last().size == size && s.last().bitmap.use_cnt != 0 {
            1nat
        } else {
            0nat
        }
    }
}

/// Freeing the last block in use of node `n` among the nodes `s` releases
/// the node: then the idle nodes of its size, `n` among them, are more
/// than one and more than half the nodes of its size still in use.
pub open spec fn released(s: Seq<MemoryNode>, n: MemoryNode) -> bool {
    let sz = n.size as int;
    &&& n.bitmap.use_cnt == 1
    &&& count_idle(s, sz) + 1 > 1
    &&& (count_idle(s, sz) + 1) * 2 > count_used(s, sz) - 1
}

proof fn lemma_count_used_update(s: Seq<MemoryNode>, i: int, m: MemoryNode, size: int)
    requires
        0 <= i < s.len(),
    ensures
        count_used(s.update(i, m), size) + (if s[i].size == size && s[i].bitmap.use_cnt != 0 {
            1int
        } else {
            0int
        }) == count_used(s, size) + (if m.size == size && m.bitmap.use_cnt != 0 {
            1int
        } else {
            0int
        }),
    decreases s.len(),
{
    let t = s.update(i, m);
    if i == s.len() - 1 {
        assert(t.drop_last() =~= s.drop_last());
    } else {
        assert(t.drop_last() =~= s.drop_last().update(i, m));
        lemma_count_used_update(s.drop_last(), i, m, size);
    }
}

proof fn lemma_count_used_prefix(s: Seq<MemoryNode>, size: int, p: int)
    requires
        0 <= p <= s.len(),
        nodes_sorted(s),
        p < s.len() ==> s[p].size > size,
    ensures
        count_used(s.subrange(0, p), size) == count_used(s, size),
    decreases s.len(),
{
    if p < s.len() {
        assert(s.drop_last().subrange(0, p) =~= s.subrange(0, p));
        assert(s.last().size > size) by {
            if s.len() - 1 > p {
                assert(s[p].size <= s[s.len() - 1].size);
            }
        }
        if p < s.len() - 1 {
            lemma_count_used_prefix(s.drop_last(), size, p);
        } else {
            assert(s.drop_last() =~= s.subrange(0, p));
        }
    } else {
        assert(s.subrange(0, p) =~= s);
    }
}

proof fn lemma_count_idle_update(s: Seq<MemoryNode>, i: int, m: MemoryNode, size: int)
    requires
        0 <= i < s.len(),
    ensures
        count_idle(s.update(i, m), size) + (if s[i].size == size && s[i].bitmap.use_cnt == 0 {
            1int
        } else {
            0int
        }) == count_idle(s, size) + (if m.size == size && m.bitmap.use_cnt == 0 {
            1int
        } else {
            0int
        }),
    decreases s.len(),
{
    let t = s.update(i, m);
    if i == s.len() - 1 {
        assert(t.drop_last() =~= s.drop_last());
    } else {
        assert(t.drop_last() =~= s.drop_last().update(i, m));
        lemma_count_idle_update(s.drop_last(), i, m, size);
    }
}

proof fn lemma_count_idle_prefix(s: Seq<MemoryNode>, size: int, p: int)
    requires
        0 <= p <= s.len(),
        nodes_sorted(s),
        p < s.len() ==> s[p].size > size,
    ensures
        count_idle(s.subrange(0, p), size) == count_idle(s, size),
    decreases s.len(),
{
    if p < s.len() {
        assert(s.drop_last().subrange(0, p) =~= s.subrange(0, p));
        assert(s.last().size > size) by {
            if s.len() - 1 > p {
                assert(s[p].size <= s[s.len() - 1].size);
            }
        }
        if p < s.len() - 1 {
            lemma_count_idle_prefix(s.drop_last(), size, p);
        } else {
            assert(s.drop_last() =~= s.subrange(0, p));
        }
    } else {
        assert(s.subrange(0, p) =~= s);
    }
}

/// A new node of blocks of `sz` bytes can get its record: blocks under
/// 204 bytes keep it in their own pages; larger ones need a free block of
/// the record's size, or, once the node's pages are taken from `pm0`, a
/// run of pages for a node of the record's size.
pub open spec fn record_room(pm0: PageManager, nodes: Seq<MemoryNode>, is_kernel: bool, sz: int) -> bool {
    ||| sz < 204
    ||| !no_free_node(nodes, record_size(sz))
    ||| forall|pm1: PageManager, a: usize, rsz: int|
        #![trigger took_pages(pm0, is_kernel, decide_pages(sz), pm1, Some(a)), is_align_of(record_size(sz), rsz)]
        took_pages(pm0, is_kernel, decide_pages(sz), pm1, Some(a)) && is_align_of(record_size(sz), rsz)
            ==> !no_fit(pm1, is_kernel, decide_pages(rsz))
}

/// What handing out a block for `size` bytes does to the allocator `m0`
/// (turned into `m1`) and the page manager `pm0` (turned into `pm1`), with
/// result `r`: when a node of the rounded size has a free block, the first
/// such node has its lowest free block taken and that block is `r`, with
/// nothing else changed; when none has, any block handed out is the first
/// block after the record of a new node of that size, made on the first
/// fit of pages in `pm0`.
pub open spec fn allocated(
    m0: Memory,
    pm0: PageManager,
    size: int,
    m1: Memory,
    pm1: PageManager,
    r: Option<usize>,
) -> bool {
    &&& forall|sz: int, i: int|
        is_align_of(size, sz) && #[trigger] is_first_contain(m0.nodes@, sz, i) ==> {
            let n = m0.nodes@[i];
            let m = m1.nodes@[i];
            &&& pm1 == pm0
            &&& m1.nodes@.len() == m0.nodes@.len()
            &&& forall|j: int|
                0 <= j < m0.nodes@.len() && j != i ==> #[trigger] m1.nodes@[j] == m0.nodes@[j]
            &&& m.physic_base == n.physic_base && m.size == n.size && m.struct_addr == n.struct_addr
            &&& exists|k: int|
                #[trigger] lowest_clear(n.bitmap@, k) && m.bitmap@ == n.bitmap@.update(k, true) && r
                    == Some((n.physic_base + k * n.size) as usize)
        }
    &&& no_free_node(m0.nodes@, size) && r is Some ==> made_fresh(m0.nodes@, m1.nodes@, size, pm0, m0.is_kernel, r->Some_0 as int)
    &&& forall|sz: int|
        #[trigger] is_align_of(size, sz) && !no_fit(pm0, m0.is_kernel, decide_pages(sz)) && record_room(
            pm0,
            m0.nodes@,
            m0.is_kernel,
            sz,
        ) ==> r is Some
    &&& r is None && (forall|sz: int| #[trigger] is_align_of(size, sz) ==> sz < 204) ==> m1.nodes@ == m0.nodes@
}

/// Handing out a record's block (at most 128 bytes) is one of the two
/// ways `record_taken` describes.
proof fn lemma_record_taken(m0: Memory, pa: PageManager, rs: int, m: Memory, pb: PageManager, a: usize)
    requires
        rs <= 128,
        m0.wf(),
        allocated(m0, pa, rs, m, pb, Some(a)),
    ensures
        record_taken(m0.nodes@, m.nodes@, rs, pa, m0.is_kernel, a as int),
{
    if no_free_node(m0.nodes@, rs) {
        let i = choose|i: int|
            0 <= i < m.nodes@.len() && #[trigger] fresh_block(m.nodes@[i], rs, pa, m0.is_kernel, a as int)
                && node_added(m0.nodes@, m.nodes@, i, m0.is_kernel);
        lemma_align_small(rs, m.nodes@[i].size as int);
        assert(0 <= i < m.nodes@.len() && fresh_block(m.nodes@[i], rs, pa, m0.is_kernel, a as int)
            && m.nodes@[i].size < 204 && m.nodes@ == m0.nodes@.insert(i, m.nodes@[i]));
    } else {
        let (sz, i) = choose|sz: int, i: int| is_align_of(rs, sz) && #[trigger] is_first_contain(m0.nodes@, sz, i);
        let k = choose|k: int|
            #[trigger] lowest_clear(m0.nodes@[i].bitmap@, k) && m.nodes@[i].bitmap@ == m0.nodes@[i].bitmap@.update(k, true)
                && Some(a) == Some((m0.nodes@[i].physic_base + k * m0.nodes@[i].size) as usize);
        let n0 = m0.nodes@[i];
        assert(n0.wf());
        assert(k * n0.size + n0.size <= n0.bitmap.total_cnt * n0.size) by (nonlinear_arith)
            requires
                0 <= k < n0.bitmap.total_cnt,
                n0.size >= 2,
        ;
        assert(a == n0.physic_base + k * n0.size);
        assert(is_first_contain(m0.nodes@, sz, i) && lowest_clear(m0.nodes@[i].bitmap@, k));
    }
}

/// The allocator: kernel or user pages, and its nodes.
#[derive(Debug)]
pub struct Memory {
    pub is_kernel: bool,
    pub nodes: Vec<MemoryNode>,
}

proof fn lemma_align_small(size: int, r: int)
    requires
        is_align_of(size, r),
        size <= 128,
    ensures
        r <= 128,
{
    let k = choose|k: nat|
        k >= 1 && #[trigger] pow2(k) == r && r >= size && (k == 1 || pow2((k - 1) as nat) < size);
    lemma2_to64();
    if r > 128 {
        if k > 7 {
            lemma_pow2_unfold(k);
            if k - 1 > 7 {
                lemma_pow2_strictly_increases(7, (k - 1) as nat);
            }
        } else if k < 7 {
            lemma_pow2_strictly_increases(k, 7);
        }
    }
}

/// Every size from 1 to 128 has a power of two it rounds up to.
proof fn lemma_align_exists(n: int)
    requires
        1 <= n <= 128,
    ensures
        exists|r: int| #[trigger] is_align_of(n, r),
{
    lemma2_to64();
    if n <= 2 {
        assert(is_align_of(n, 2)) by {
            assert(pow2(1) == 2);
        }
    } else if n <= 4 {
        assert(is_align_of(n, 4)) by {
            assert(pow2(2) == 4 && pow2(1) == 2);
        }
    } else if n <= 8 {
        assert(is_align_of(n, 8)) by {
            assert(pow2(3) == 8 && pow2(2) == 4);
        }
    } else if n <= 16 {
        assert(is_align_of(n, 16)) by {
            assert(pow2(4) == 16 && pow2(3) == 8);
        }
    } else if n <= 32 {
        assert(is_align_of(n, 32)) by {
            assert(pow2(5) == 32 && pow2(4) == 16);
        }
    } else if n <= 64 {
        assert(is_align_of(n, 64)) by {
            assert(pow2(6) == 64 && pow2(5) == 32);
        }
    } else {
        assert(is_align_of(n, 128)) by {
            assert(pow2(7) == 128 && pow2(6) == 64);
        }
    }
}

proof fn lemma_align_self(n: int, r: int)
    requires
        is_align_of(n, r),
    ensures
        is_align_of(r, r),
{
    let k = choose|k: nat| k >= 1 && #[trigger] pow2(k) == r && r >= n && (k == 1 || pow2((k - 1) as nat) < n);
    if k > 1 {
        vstd::arithmetic::power2::lemma_pow2_strictly_increases((k - 1) as nat, k);
    }
    assert(pow2(k) == r && r >= r && (k == 1 || pow2((k - 1) as nat) < r));
}

proof fn lemma_align_unique(n: int, r1: int, r2: int)
    requires
        is_align_of(n, r1),
        is_align_of(n, r2),
    ensures
        r1 == r2,
{
    let k1 = choose|k: nat|
        k >= 1 && #[trigger] pow2(k) == r1 && r1 >= n && (k == 1 || pow2((k - 1) as nat) < n);
    let k2 = choose|k: nat|
        k >= 1 && #[trigger] pow2(k) == r2 && r2 >= n && (k == 1 || pow2((k - 1) as nat) < n);
    if k1 < k2 {
        if k1 < k2 - 1 {
            lemma_pow2_strictly_increases(k1, (k2 - 1) as nat);
        }
    } else if k2 < k1 {
        if k2 < k1 - 1 {
            lemma_pow2_strictly_increases(k2, (k1 - 1) as nat);
        }
    }
}

proof fn lemma_record_small(sz: int)
    requires
        204 <= sz,
    ensures
        record_size(sz) <= 128,
{
    let p = decide_pages(sz);
    if sz > 4096 {
        assert(p * 4096 <= sz + 4095) by (nonlinear_arith)
            requires
                p == (sz + 4095) / 4096,
        ;
        assert(p * 4096 / sz <= 1) by (nonlinear_arith)
            requires
                p * 4096 <= sz + 4095,
                sz > 4096,
                p >= 0,
        ;
    } else {
        assert(p * 4096 <= sz * 4 + 4095) by (nonlinear_arith)
            requires
                p == (sz * 4 + 4095) / 4096,
        ;
        assert(p * 4096 / sz <= 24) by (nonlinear_arith)
            requires
                p * 4096 <= sz * 4 + 4095,
                sz >= 204,
                p >= 0,
        ;
    }
}

impl Memory {
    /// Every node holds together and the nodes are in order of size.
    pub open spec fn wf(&self) -> bool {
        &&& forall|i: int| 0 <= i < self.nodes@.len() ==> #[trigger] self.nodes@[i].wf()
        &&& nodes_sorted(self.nodes@)
    }

    /// An allocator with no node.
    pub fn empty(is_kernel: bool) -> (r: Self)
        ensures
            r.wf(),
            r.is_kernel == is_kernel,
            r.nodes@.len() == 0,
    {
        Self { is_kernel, nodes: Vec::new() }
    }

    /// The pages for a node of blocks of `size` bytes.
    fn decide_page_num(&self, size: usize) -> (r: usize)
        requires
            2 <= size <= usize::MAX / 2 + 1,
        ensures
            r == decide_pages(size as int),
            r >= 1,
            r * 4096 <= usize::MAX,
            r * 4096 >= size,
    {
        if size > MEMORY_TOO_BIG {
            proof {
                assert((size + 4095) / 4096 * 4096 <= size + 4095) by (nonlinear_arith)
                    requires
                        size >= 0,
                ;
                assert((size + 4095) / 4096 * 4096 >= size) by (nonlinear_arith)
                    requires
                        size >= 0,
                ;
            }
            (size + PAGE_SIZE - 1) / PAGE_SIZE
        } else {
            (size * 4 + PAGE_SIZE - 1) / PAGE_SIZE
        }
    }

    /// The first node with blocks of `size` bytes and a free block.
    fn find_first_contain(&self, size: usize) -> (r: Option<usize>)
        ensures
            match r {
                Some(i) => is_first_contain(self.nodes@, size as int, i as int),
                None => forall|j: int|
                    0 <= j < self.nodes@.len() ==> !(#[trigger] self.nodes@[j].size == size
                        && self.nodes@[j].bitmap.free_cnt != 0),
            },
    {
        let mut i: usize = 0;
        while i < self.nodes.len()
            invariant
                i <= self.nodes@.len(),
                forall|j: int|
                    0 <= j < i ==> !(#[trigger] self.nodes@[j].size == size
                        && self.nodes@[j].bitmap.free_cnt != 0),
            decreases self.nodes@.len() - i,
        {
            if self.nodes[i].size == size && self.nodes[i].bitmap.free_cnt != 0 {
                return Some(i);
            }
            i = i + 1;
        }
        None
    }

    /// Puts `node` before the first node whose blocks are at least as
    /// large, and gives its place.
    fn append(&mut self, node: MemoryNode) -> (r: usize)
        requires
            old(self).wf(),
            node.wf(),
        ensures
            final(self).wf(),
            final(self).is_kernel == old(self).is_kernel,
            r <= old(self).nodes@.len(),
            final(self).nodes@ == old(self).nodes@.insert(r as int, node),
            forall|j: int| 0 <= j < r ==> #[trigger] old(self).nodes@[j].size < node.size,
            forall|j: int| r <= j < old(self).nodes@.len() ==> #[trigger] old(self).nodes@[j].size >= node.size,
    {
        let mut pos: usize = 0;
        while pos < self.nodes.len() && self.nodes[pos].size < node.size
            invariant
                pos <= self.nodes@.len(),
                forall|j: int| 0 <= j < pos ==> #[trigger] self.nodes@[j].size < node.size,
            decreases self.nodes@.len() - pos,
        {
            pos = pos + 1;
        }
        proof {
            assert forall|j: int| pos <= j < self.nodes@.len() implies #[trigger] self.nodes@[j].size >= node.size by {
                if j > pos {
                    assert(self.nodes@[pos as int].size <= self.nodes@[j].size);
                }
            }
        }
        let ghost s0 = self.nodes@;
        self.nodes.insert(pos, node);
        proof {
            let s = self.nodes@;
            assert forall|j: int| 0 <= j < s.len() implies #[trigger] s[j].wf() by {
                if j < pos {
                    assert(s[j] == s0[j]);
                } else if j > pos {
                    assert(s[j] == s0[j - 1]);
                }
            }
            assert forall|a: int, b: int| 0 <= a < b < s.len() implies #[trigger] s[a].size <= #[trigger] s[b].size by {
                if b < pos {
                    assert(s0[a].size <= s0[b].size);
                } else if a > pos {
                    assert(s0[a - 1].size <= s0[b - 1].size);
                } else if a < pos && b > pos {
                    assert(s[b] == s0[b - 1]);
                } else if a == pos {
                    assert(s[b] == s0[b - 1]);
                } else {
                    assert(s[a] == s0[a]);
                }
            }
        }
        pos
    }

    /// Makes a node for blocks of `size` bytes (rounded up to a power of
    /// two): takes its pages, places its record (in its first blocks when
    /// the blocks are small, in a block of this allocator otherwise), and
    /// puts it in order. Gives its place; `None` when the pages or the
    /// record's block could not be had.
    fn new(&mut self, size: usize, pm: &mut PageManager) -> (r: Option<usize>)
        requires
            old(self).wf(),
            old(pm).wf(),
            old(pm).page_size_spec() == PAGE_SIZE,
            size <= usize::MAX / 2 + 1,
        ensures
            final(self).wf(),
            final(self).is_kernel == old(self).is_kernel,
            final(pm).wf(),
            final(pm).kernel_base() == old(pm).kernel_base(),
            final(pm).kernel_num() == old(pm).kernel_num(),
            final(pm).user_start() == old(pm).user_start(),
            final(pm).page_size_spec() == old(pm).page_size_spec(),
            match r {
                Some(i) => {
                    let n = final(self).nodes@[i as int];
                    &&& i < final(self).nodes@.len()
                    &&& is_align_of(size as int, n.size as int)
                    &&& n.bitmap.total_cnt == node_blocks(n.size as int)
                    &&& n.bitmap.free_cnt == node_free(n.size as int)
                    &&& n.bitmap.free_cnt > 0
                    &&& forall|j: int| 0 <= j < n.bitmap.total_cnt ==> #[trigger] n.bitmap@[j]
                        == (j < n.bitmap.total_cnt - n.bitmap.free_cnt)
                    &&& first_fit_at(
                        *old(pm),
                        old(self).is_kernel,
                        decide_pages(n.size as int),
                        n.physic_base as int,
                    )
                    &&& n.bitmap.use_cnt == n.bitmap.total_cnt - n.bitmap.free_cnt
                    &&& n.size < 204 ==> n.struct_addr == n.physic_base && i <= old(self).nodes@.len()
                        && final(self).nodes@ == old(self).nodes@.insert(i as int, n)
                    &&& n.size >= 204 ==> exists|m: Memory, pa: PageManager, pb: PageManager|
                        #[trigger] allocated(*old(self), pa, record_size(n.size as int), m, pb, Some(n.struct_addr))
                            && i <= m.nodes@.len() && final(self).nodes@ == m.nodes@.insert(i as int, n)
                    &&& forall|j: int| 0 <= j < i ==> #[trigger] final(self).nodes@[j].size < n.size
                    &&& forall|j: int|
                        i < j < final(self).nodes@.len() ==> #[trigger] final(self).nodes@[j].size >= n.size
                },
                None => forall|sz: int|
                    #[trigger] is_align_of(size as int, sz) ==> no_fit(
                        *old(pm),
                        old(self).is_kernel,
                        decide_pages(sz),
                    ) || !record_room(*old(pm), old(self).nodes@, old(self).is_kernel, sz),
            },
            r is None && (forall|sz: int| #[trigger] is_align_of(size as int, sz) ==> sz < 204)
                ==> final(self).nodes@ == old(self).nodes@,
            r is None ==> final(self).nodes@ == old(self).nodes@ || exists|
                sz: int,
                m: Memory,
                pa: PageManager,
                pb: PageManager,
                a: usize,
            |
                #[trigger] allocated(*old(self), pa, record_size(sz), m, pb, Some(a)) && is_align_of(size as int, sz)
                    && sz >= 204 && final(self).nodes@ == m.nodes@,
        decreases big_request(size as int), 0int,
    {
        let sz = align(size);
        let num_alloc = self.decide_page_num(sz);
        let total_size = num_alloc * PAGE_SIZE;
        let struct_size = total_size / sz + NODE_SIZE;
        proof {
            assert(total_size / sz <= total_size / 2) by (nonlinear_arith)
                requires
                    sz >= 2,
                    total_size >= 0,
            ;
        }
        let ghost pm0 = *pm;
        let phy_addr;
        if self.is_kernel {
            phy_addr = pm.alloc_kernel_page(num_alloc);
        } else {
            phy_addr = pm.alloc_user_page(num_alloc);
        }
        let struct_addr;
        let free_cnt;
        let ghost mut mrec = *self;
        let ghost mut pa = *pm;
        let ghost mut pb = *pm;
        if sz >= MEMORY_SIZE_INSIDE {
            proof {
                lemma_record_small(sz as int);
                assert(big_request(sz as int) == 1);
                if size <= 128 {
                    lemma_align_small(size as int, sz as int);
                }
            }
            let ghost nodes0 = self.nodes@;
            proof {
                pa = *pm;
            }
            let got = self.allocate(struct_size, pm);
            proof {
                mrec = *self;
                pb = *pm;
            }
            match got {
                Some(addr) => {
                    struct_addr = addr;
                },
                None => {
                    proof {
                        assert(nodes0 == old(self).nodes@);
                        assert(struct_size == record_size(sz as int));
                        assert forall|sz2: int, i: int|
                            is_align_of(struct_size as int, sz2) implies !#[trigger] is_first_contain(nodes0, sz2, i) by {
                            if is_first_contain(nodes0, sz2, i) {
                                assert(got is Some);
                            }
                        }
                        assert forall|s2: int| #[trigger] is_align_of(size as int, s2) implies s2 == sz by {
                            lemma_align_unique(size as int, s2, sz as int);
                        }
                        assert forall|s3: int| #[trigger] is_align_of(struct_size as int, s3) implies s3 < 204 by {
                            lemma_align_small(struct_size as int, s3);
                        }
                        assert(self.nodes@ == old(self).nodes@);
                        assert(num_alloc == decide_pages(sz as int));
                        assert(took_pages(pm0, self.is_kernel, num_alloc as int, pa, phy_addr));
                        if let Some(a) = phy_addr {
                            lemma_align_exists(struct_size as int);
                            let rsz = choose|r: int| #[trigger] is_align_of(struct_size as int, r);
                            assert(rsz < 204);
                            assert(record_room(pa, nodes0, self.is_kernel, rsz));
                            assert(no_fit(pa, self.is_kernel, decide_pages(rsz)));
                            assert(!record_room(pm0, old(self).nodes@, old(self).is_kernel, sz as int));
                        } else {
                            assert(no_fit(pm0, self.is_kernel, decide_pages(sz as int)));
                        }
                    }
                    return None;
                },
            }
            free_cnt = total_size / sz;
        } else {
            struct_addr = match phy_addr {
                Some(a) => a,
                None => 0,
            };
            proof {
                assert(total_size >= 4096);
                assert((total_size - struct_size) as int / sz as int <= total_size as int / sz as int) by (nonlinear_arith)
                    requires
                        sz >= 2,
                        0 <= total_size - struct_size <= total_size,
                ;
            }
            free_cnt = (total_size - struct_size) / sz;
        }
        match phy_addr {
            None => {
                proof {
                    assert(pm0 == *old(pm));
                    assert(no_fit(pm0, self.is_kernel, num_alloc as int));
                    assert forall|s2: int| #[trigger] is_align_of(size as int, s2) implies s2 == sz by {
                        lemma_align_unique(size as int, s2, sz as int);
                    }
                }
                None
            },
            Some(addr) => {
                let total_cnt = total_size / sz;
                proof {
                    assert(total_cnt * sz <= total_size) by (nonlinear_arith)
                        requires
                            total_cnt == total_size as int / sz as int,
                            sz >= 2,
                            total_size >= 0,
                    ;
                    assert(addr + total_size <= usize::MAX);
                    assert(free_cnt > 0) by (nonlinear_arith)
                        requires
                            sz >= 204 ==> free_cnt == total_size as int / sz as int && total_size >= sz,
                            sz < 204 ==> free_cnt == (total_size - struct_size) as int / sz as int
                                && total_size - struct_size >= sz,
                            sz >= 2,
                    ;
                }
                let mut bitmap = Bitmap::empty();
                bitmap.init(total_cnt, free_cnt);
                let node = MemoryNode { physic_base: addr, size: sz, bitmap, struct_addr };
                let ghost nodes_before = self.nodes@;
                let i = self.append(node);
                proof {
                    assert(self.nodes@[i as int] == node);
                    if sz >= 204 {
                        assert(nodes_before == mrec.nodes@);
                        assert(allocated(*old(self), pa, record_size(sz as int), mrec, pb, Some(struct_addr)));
                        let n = self.nodes@[i as int];
                        assert(allocated(*old(self), pa, record_size(n.size as int), mrec, pb, Some(n.struct_addr))
                            && i <= mrec.nodes@.len() && self.nodes@ == mrec.nodes@.insert(i as int, n));
                    } else {
                        assert(nodes_before == old(self).nodes@);
                    }
                }
                Some(i)
            },
        }
    }

    /// Hands out a block for `size` bytes: `size` is rounded up to a power
    /// of two, the lowest free block of the first node of that size with a
    /// free block is taken, and a new node is made when there is none.
    /// `None` when a new node could not be made.
    pub fn allocate(&mut self, size: usize, pm: &mut PageManager) -> (r: Option<usize>)
        requires
            old(self).wf(),
            old(pm).wf(),
            old(pm).page_size_spec() == PAGE_SIZE,
            size <= usize::MAX / 2 + 1,
        ensures
            final(self).wf(),
            final(self).is_kernel == old(self).is_kernel,
            final(pm).wf(),
            final(pm).kernel_base() == old(pm).kernel_base(),
            final(pm).kernel_num() == old(pm).kernel_num(),
            final(pm).user_start() == old(pm).user_start(),
            final(pm).page_size_spec() == old(pm).page_size_spec(),
            allocated(*old(self), *old(pm), size as int, *final(self), *final(pm), r),
        decreases big_request(size as int), 1int,
    {
        let ghost size0 = size;
        let size = align(size);
        proof {
            if size0 <= 128 {
                lemma_align_small(size0 as int, size as int);
            }
        }
        let found = self.find_first_contain(size);
        let ghost pm0 = *pm;
        let node = match found {
            Some(i) => i,
            None => {
                proof {
                    assert forall|sz2: int, i: int|
                        is_align_of(size0 as int, sz2) && #[trigger] is_first_contain(old(self).nodes@, sz2, i)
                        implies false by {
                        lemma_align_unique(size0 as int, sz2, size as int);
                    }
                }
                let made = self.new(size, pm);
                proof {
                    lemma_align_self(size0 as int, size as int);
                }
                match made {
                    Some(i) => i,
                    None => {
                        proof {
                            assert forall|sz: int|
                                #[trigger] is_align_of(size0 as int, sz) && !no_fit(*old(pm), old(self).is_kernel, decide_pages(sz))
                                    && record_room(*old(pm), old(self).nodes@, old(self).is_kernel, sz) implies false by {
                                lemma_align_unique(size0 as int, sz, size as int);
                                assert(is_align_of(size as int, sz));
                            }
                            if forall|sz: int| #[trigger] is_align_of(size0 as int, sz) ==> sz < 204 {
                                assert(is_align_of(size0 as int, size as int));
                                assert forall|s2: int| #[trigger] is_align_of(size as int, s2) implies s2 < 204 by {
                                    lemma_align_unique(size as int, s2, size as int);
                                }
                            }
                        }
                        return None;
                    },
                }
            },
        };
        proof {
            if found.is_some() {
                assert(is_align_of(size0 as int, size as int) && is_first_contain(old(self).nodes@, size as int, node as int));
                assert(!no_free_node(old(self).nodes@, size0 as int));
                assert forall|sz2: int, i: int|
                    is_align_of(size0 as int, sz2) && #[trigger] is_first_contain(old(self).nodes@, sz2, i)
                    implies i == node by {
                    lemma_align_unique(size0 as int, sz2, size as int);
                    if i < node {
                        assert(!(old(self).nodes@[i].size == size && old(self).nodes@[i].bitmap.free_cnt != 0));
                    } else if i > node {
                        assert(!(old(self).nodes@[node as int].size == size && old(self).nodes@[node as int].bitmap.free_cnt != 0));
                    }
                }
            }
        }
        let ghost before = self.nodes@;
        let ghost n = self.nodes@[node as int];
        proof {
            if found.is_none() {
                assert(n.bitmap.free_cnt > 0);
            }
        }
        proof {
            assert(n.wf());
        }
        let got = self.nodes[node].bitmap.alloc_bitmap();
        let ghost m = self.nodes@[node as int];
        proof {
            assert forall|j: int| 0 <= j < self.nodes@.len() implies #[trigger] self.nodes@[j].wf() by {
                if j != node {
                    assert(self.nodes@[j] == before[j]);
                }
            }
            assert forall|a: int, b: int| 0 <= a < b < self.nodes@.len() implies #[trigger] self.nodes@[a].size <= #[trigger] self.nodes@[b].size by {
                assert(before[a].size <= before[b].size);
            }
        }
        match got {
            Some(idx) => {
                proof {
                    assert(idx * n.size + n.size <= n.bitmap.total_cnt * n.size) by (nonlinear_arith)
                        requires
                            idx < n.bitmap.total_cnt,
                            n.size >= 2,
                    ;
                    assert(lowest_clear(n.bitmap@, idx as int));
                }
                let res = idx * self.nodes[node].size + self.nodes[node].physic_base;
                proof {
                    if found.is_none() {
                        let t = n.bitmap.total_cnt as int;
                        let f = n.bitmap.free_cnt as int;
                        if idx > t - f {
                            assert(n.bitmap@[t - f]);
                        }
                        assert(!n.bitmap@[idx as int]);
                        assert(idx == t - f);
                        lemma_align_self(size0 as int, size as int);
                        lemma_align_unique(size as int, size as int, n.size as int);
                        assert(fresh_block(self.nodes@[node as int], size0 as int, *old(pm), old(self).is_kernel, res as int));
                    }
                    if found.is_none() {
                        let s1 = self.nodes@;
                        assert(s1 =~= before.update(node as int, s1[node as int]));
                        if n.size < 204 {
                            assert(before == old(self).nodes@.insert(node as int, n));
                            assert(node <= old(self).nodes@.len());
                            assert forall|j: int| 0 <= j < s1.len() implies #[trigger] s1[j] == old(self).nodes@.insert(node as int, s1[node as int])[j] by {
                                if j != node {
                                    assert(s1[j] == before[j]);
                                }
                            }
                            assert(s1 =~= old(self).nodes@.insert(node as int, s1[node as int]));
                        } else {
                            let (mm, pa, pb) = choose|mm: Memory, pa: PageManager, pb: PageManager|
                                #[trigger] allocated(*old(self), pa, record_size(n.size as int), mm, pb, Some(n.struct_addr))
                                    && node <= mm.nodes@.len() && before == mm.nodes@.insert(node as int, n);
                            lemma_record_small(n.size as int);
                            lemma_record_taken(*old(self), pa, record_size(n.size as int), mm, pb, n.struct_addr);
                            assert(node <= mm.nodes@.len());
                            assert forall|j: int| 0 <= j < s1.len() implies #[trigger] s1[j] == mm.nodes@.insert(node as int, s1[node as int])[j] by {
                                if j != node {
                                    assert(s1[j] == before[j]);
                                }
                            }
                            assert(s1 =~= mm.nodes@.insert(node as int, s1[node as int]));
                            assert(record_taken(old(self).nodes@, mm.nodes@, record_size(s1[node as int].size as int), pa, old(self).is_kernel, s1[node as int].struct_addr as int));
                        }
                        assert(node_added(old(self).nodes@, s1, node as int, old(self).is_kernel));
                        assert(made_fresh(old(self).nodes@, s1, size0 as int, *old(pm), old(self).is_kernel, res as int));
                    }
                }
                Some(res)
            },
            None => None,
        }
    }

    /// The nodes with blocks of `size` bytes and no block in use, counted
    /// from the first node up to the first node with larger blocks.
    fn get_free_block_num(&self, size: usize) -> (r: usize)
        requires
            self.wf(),
        ensures
            r == count_idle(self.nodes@, size as int),
    {
        let mut i: usize = 0;
        let mut cnt: usize = 0;
        while i < self.nodes.len()
            invariant
                self.wf(),
                i <= self.nodes@.len(),
                cnt == count_idle(self.nodes@.subrange(0, i as int), size as int),
                cnt <= i,
            decreases self.nodes@.len() - i,
        {
            proof {
                assert(self.nodes@.subrange(0, i + 1).drop_last() =~= self.nodes@.subrange(0, i as int));
            }
            if self.nodes[i].size == size && self.nodes[i].bitmap.use_cnt == 0 {
                cnt = cnt + 1;
            } else if self.nodes[i].size > size {
                proof {
                    lemma_count_idle_prefix(self.nodes@, size as int, i as int);
                }
                return cnt;
            }
            i = i + 1;
        }
        proof {
            lemma_count_idle_prefix(self.nodes@, size as int, i as int);
        }
        cnt
    }

    /// The nodes with blocks of `size` bytes and some block in use, counted
    /// from the first node up to the first node with larger blocks.
    fn get_used_block_num(&self, size: usize) -> (r: usize)
        requires
            self.wf(),
        ensures
            r == count_used(self.nodes@, size as int),
    {
        let mut i: usize = 0;
        let mut cnt: usize = 0;
        while i < self.nodes.len()
            invariant
                self.wf(),
                i <= self.nodes@.len(),
                cnt == count_used(self.nodes@.subrange(0, i as int), size as int),
                cnt <= i,
            decreases self.nodes@.len() - i,
        {
            proof {
                assert(self.nodes@.subrange(0, i + 1).drop_last() =~= self.nodes@.subrange(0, i as int));
            }
            if self.nodes[i].size == size && self.nodes[i].bitmap.use_cnt != 0 {
                cnt = cnt + 1;
            } else if self.nodes[i].size > size {
                proof {
                    lemma_count_used_prefix(self.nodes@, size as int, i as int);
                }
                return cnt;
            }
            i = i + 1;
        }
        proof {
            lemma_count_used_prefix(self.nodes@, size as int, i as int);
        }
        cnt
    }

    /// Whether a node holds the block at `addr` in use: the first node
    /// whose blocks cover `addr` has that block taken.
    pub fn holds_in_use(&self, addr: usize) -> (r: bool)
        requires
            self.wf(),
        ensures
            r == exists|i: int|
                #[trigger] is_first_holder(self.nodes@, addr as int, i) && self.nodes@[i].bitmap@[block_of(
                    self.nodes@[i],
                    addr as int,
                )],
    {
        match self.find_holder(addr) {
            Some(i) => {
                let n = &self.nodes[i];
                assert(self.nodes@[i as int].wf());
                assert(n.size >= 2);
                let idx = (addr - n.physic_base) / n.size;
                proof {
                    let t = n.bitmap.total_cnt as int;
                    let s = n.size as int;
                    let d = (addr - n.physic_base) as int;
                    assert(d / s < t) by (nonlinear_arith)
                        requires
                            0 <= d < t * s,
                            s > 0,
                    ;
                    assert forall|j: int| #[trigger] is_first_holder(self.nodes@, addr as int, j) implies j == i by {
                        if j < i {
                            assert(!self.nodes@[j].holds(addr as int));
                        } else if j > i {
                            assert(!self.nodes@[i as int].holds(addr as int));
                        }
                    }
                }
                n.bitmap.is_bit_alloc(idx)
            },
            None => false,
        }
    }

    fn find_holder(&self, addr: usize) -> (r: Option<usize>)
        requires
            self.wf(),
        ensures
            match r {
                Some(i) => is_first_holder(self.nodes@, addr as int, i as int),
                None => forall|j: int| 0 <= j < self.nodes@.len() ==> !#[trigger] self.nodes@[j].holds(addr as int),
            },
    {
        let mut i: usize = 0;
        while i < self.nodes.len()
            invariant
                self.wf(),
                i <= self.nodes@.len(),
                forall|j: int| 0 <= j < i ==> !#[trigger] self.nodes@[j].holds(addr as int),
            decreases self.nodes@.len() - i,
        {
            if self.nodes[i].is_contain(addr) {
                return Some(i);
            }
            i = i + 1;
        }
        None
    }

    /// Gives back the block at `addr` when a node holds it in use; gives
    /// the pages to release.
    fn free_block(&mut self, addr: usize) -> (r: Vec<usize>)
        requires
            old(self).wf(),
        ensures
            final(self).wf(),
            final(self).is_kernel == old(self).is_kernel,
            final(self).nodes@.len() <= old(self).nodes@.len(),
            forall|i: int|
                #[trigger] is_first_holder(old(self).nodes@, addr as int, i) && old(self).nodes@[i].bitmap@[block_of(
                    old(self).nodes@[i],
                    addr as int,
                )] ==> {
                    let n = old(self).nodes@[i];
                    let idle = released(old(self).nodes@, n);
                    &&& !idle ==> r@.len() == 0 && final(self).nodes@.len() == old(self).nodes@.len()
                        && freed_node(final(self).nodes@[i], n, addr as int) && forall|j: int|
                        0 <= j < old(self).nodes@.len() && j != i ==> #[trigger] final(self).nodes@[j]
                            == old(self).nodes@[j]
                    &&& idle && n.size < 4096 ==> r@ == seq![n.struct_addr] && final(self).nodes@
                        == old(self).nodes@.remove(i)
                    &&& idle && n.size >= 4096 ==> r@.len() >= 1 && r@[0] == n.physic_base
                        && final(self).nodes@.len() < old(self).nodes@.len()
                },
            freed(old(self).nodes@, addr as int, final(self).nodes@, r@),
        decreases old(self).nodes@.len(),
    {
        let i = match self.find_holder(addr) {
            Some(i) => i,
            None => {
                return Vec::new();
            },
        };
        let ghost n = self.nodes@[i as int];
        let ghost s0 = self.nodes@;
        proof {
            assert(n.wf());
            let t = n.bitmap.total_cnt as int;
            let sz = n.size as int;
            let d = addr - n.physic_base;
            assert(d / sz < t) by (nonlinear_arith)
                requires
                    0 <= d < t * sz,
                    sz > 0,
            ;
        }
        if self.nodes[i].bitmap.is_bit_alloc((addr - self.nodes[i].physic_base) / self.nodes[i].size) {
        } else {
            return Vec::new();
        }
        self.nodes[i].free_bitmap(addr);
        let ghost s1 = self.nodes@;
        proof {
            assert forall|j: int| 0 <= j < s1.len() implies #[trigger] s1[j].wf() by {
                if j != i {
                    assert(s1[j] == s0[j]);
                }
            }
            assert forall|a: int, b: int| 0 <= a < b < s1.len() implies #[trigger] s1[a].size <= #[trigger] s1[b].size by {
                assert(s0[a].size <= s0[b].size);
            }
            assert forall|i2: int|
                #[trigger] is_first_holder(s0, addr as int, i2) implies i2 == i by {
                if i2 < i {
                    assert(!s0[i2].holds(addr as int));
                } else if i2 > i {
                    assert(!s0[i as int].holds(addr as int));
                }
            }
            lemma_count_idle_update(s0, i as int, s1[i as int], n.size as int);
            lemma_count_used_update(s0, i as int, s1[i as int], n.size as int);
            assert(s1 =~= s0.update(i as int, s1[i as int]));
        }
        let mut pages: Vec<usize> = Vec::new();
        if self.nodes[i].bitmap.use_cnt == 0 {
            let size = self.nodes[i].size;
            let free_cnt = self.get_free_block_num(size);
            let use_cnt = self.get_used_block_num(size);
            if free_cnt > 1 && free_cnt > use_cnt / 2 {
                let node = self.nodes.remove(i);
                proof {
                    let s2 = self.nodes@;
                    assert forall|j: int| 0 <= j < s2.len() implies #[trigger] s2[j].wf() by {
                        if j < i {
                            assert(s2[j] == s1[j]);
                        } else {
                            assert(s2[j] == s1[j + 1]);
                        }
                    }
                    assert forall|a: int, b: int| 0 <= a < b < s2.len() implies #[trigger] s2[a].size <= #[trigger] s2[b].size by {
                        if b < i {
                            assert(s1[a].size <= s1[b].size);
                        } else if a >= i {
                            assert(s1[a + 1].size <= s1[b + 1].size);
                        } else {
                            assert(s1[a].size <= s1[b + 1].size);
                        }
                    }
                    assert(s2 =~= s0.remove(i as int));
                }
                if node.is_inside() {
                    pages.push(node.struct_addr);
                    proof {
                        assert(pages@ =~= seq![n.struct_addr]);
                    }
                } else {
                    pages.push(node.physic_base);
                    let mut more = self.free_block(node.struct_addr);
                    let ghost m = more@;
                    pages.append(&mut more);
                    proof {
                        assert(pages@.drop_first() =~= m);
                    }
                }
            }
        }
        proof {
            assert(is_first_holder(s0, addr as int, i as int) && s0[i as int].bitmap@[block_of(s0[i as int], addr as int)]);
            let c = choose|c: int| #[trigger] is_first_holder(s0, addr as int, c) && s0[c].bitmap@[block_of(s0[c], addr as int)];
            assert(c == i);
        }
        pages
    }

    /// Gives back the block at `addr`, which a node holds in use. When that
    /// leaves the node with no block in use and the idle nodes of its size
    /// are then more than one and more than half those still in use, the
    /// node is dropped and its pages are given: the page of
    /// its record for blocks under a page, else its first page and then
    /// whatever giving back its record's block frees. Gives the addresses
    /// of the pages to release, in order.
    pub fn free(&mut self, addr: usize) -> (r: Vec<usize>)
        requires
            old(self).wf(),
            exists|i: int|
                #[trigger] is_first_holder(old(self).nodes@, addr as int, i) && old(self).nodes@[i].bitmap@[block_of(
                    old(self).nodes@[i],
                    addr as int,
                )],
        ensures
            final(self).wf(),
            final(self).is_kernel == old(self).is_kernel,
            forall|i: int|
                #[trigger] is_first_holder(old(self).nodes@, addr as int, i) ==> {
                    let n = old(self).nodes@[i];
                    let idle = released(old(self).nodes@, n);
                    &&& !idle ==> r@.len() == 0 && final(self).nodes@.len() == old(self).nodes@.len()
                        && freed_node(final(self).nodes@[i], n, addr as int) && forall|j: int|
                        0 <= j < old(self).nodes@.len() && j != i ==> #[trigger] final(self).nodes@[j]
                            == old(self).nodes@[j]
                    &&& idle && n.size < 4096 ==> r@ == seq![n.struct_addr] && final(self).nodes@
                        == old(self).nodes@.remove(i)
                    &&& idle && n.size >= 4096 ==> r@.len() >= 1 && r@[0] == n.physic_base
                        && final(self).nodes@.len() < old(self).nodes@.len()
                },
            freed(old(self).nodes@, addr as int, final(self).nodes@, r@),
    {
        proof {
            let w = choose|i: int|
                #[trigger] is_first_holder(old(self).nodes@, addr as int, i) && old(self).nodes@[i].bitmap@[block_of(
                    old(self).nodes@[i],
                    addr as int,
                )];
            assert forall|i: int| #[trigger] is_first_holder(old(self).nodes@, addr as int, i) implies i == w by {
                if i < w {
                    assert(!old(self).nodes@[i].holds(addr as int));
                } else if i > w {
                    assert(!old(self).nodes@[w].holds(addr as int));
                }
            }
        }
        self.free_block(addr)
    }
}


/// The block an allocation takes from a node can be given back to it, and
/// giving it back restores the node's blocks as the allocation found them.
pub proof fn lemma_node_free_undoes_alloc(n: MemoryNode, m: MemoryNode, f: MemoryNode, k: int)
    requires
        n.wf(),
        lowest_clear(n.bitmap@, k),
        m.physic_base == n.physic_base,
        m.size == n.size,
        m.bitmap.total_cnt == n.bitmap.total_cnt,
        m.bitmap@ == n.bitmap@.update(k, true),
        freed_node(f, m, n.physic_base + k * n.size),
    ensures
        m.holds(n.physic_base + k * n.size),
        block_of(m, n.physic_base + k * n.size) == k,
        m.bitmap@[k],
        f.bitmap@ == n.bitmap@,
{
    let sz = n.size as int;
    assert((k * sz) / sz == k) by (nonlinear_arith)
        requires
            sz > 0,
    ;
    assert(k * sz + sz <= n.bitmap.total_cnt * sz) by (nonlinear_arith)
        requires
            0 <= k < n.bitmap.total_cnt,
            sz > 0,
    ;
    assert(k * sz >= 0) by (nonlinear_arith)
        requires
            0 <= k,
            sz > 0,
    ;
    assert(f.bitmap@ =~= n.bitmap@);
}

} // verus!
