//! Sv39 page-table entries and three-level page tables.
//!
//! A page table is a tree of tables of 512 entries. The root and the middle
//! tables hold entries that point at the next table by physical page number;
//! the last tables hold the leaf entries that map a virtual page onto a
//! physical page. The tables of one tree are kept here by the physical
//! frame address that the entries pointing at them carry; new tables get
//! their page from the page manager.

use vstd::prelude::*;
use crate::memory::page::{PageManager, no_fit, taken_run, free_kernel_pages, is_first_fit, lemma_count_taken_one, user_pages_kept, kernel_run_kept, lemma_run_kept_same, lemma_run_after_take, lemma_run_kept_trans, lemma_run_kept_more};
use super::pagebit::PageBit;

verus! {

/// Entries in one table.
pub const ENTRY_NUM: usize = 512;

/// Mask of the flag bits of an entry (the ten low bits).
pub const FLAG_MASK: u64 = 0x3ff;

/// A page-table entry: flag bits in the ten low bits, the physical page
/// number above them.
#[derive(Clone, Copy, Debug, PartialEq, Eq)]
pub struct PTE {
    flag: u64,
}

/// The bits after an entry is pointed at physical address `ppn`: the flag
/// bits stay, the page number is replaced.
pub open spec fn node_bits(old: u64, ppn: u64) -> u64 {
    (old & 0x3ff) | ((ppn >> 12u64) << 10u64)
}

/// The physical address that entry bits point at.
pub open spec fn target_of(bits: u64) -> usize {
    ((bits & !0x3ffu64) << 2u64) as usize
}

/// Every free kernel page of `pm` lies on a frame that holds no table of
/// `t`.
pub open spec fn clear_of(t: PageTable, pm: PageManager) -> bool {
    forall|w: int|
        0 <= w < pm.kernel_num() && #[trigger] pm.pages()[w].flag == 0 ==> !t.frames().contains(
            frame_of((pm.kernel_base() + w * pm.page_size_spec()) as u64),
        )
}

/// `t1` and `pm1` come from `t0` and `pm0` with at most one kernel page
/// taken, a free one, on whose frame a new table may have been added.
pub open spec fn took_table_page(t0: PageTable, pm0: PageManager, t1: PageTable, pm1: PageManager) -> bool {
    ||| pm1.pages() == pm0.pages() && t1.frames() == t0.frames()
    ||| exists|w: int|
        #![trigger taken_run(pm0.pages(), w, 1)]
        0 <= w < pm0.kernel_num() && pm0.pages()[w].flag == 0 && pm1.pages() == taken_run(
            pm0.pages(),
            w,
            1,
        ) && (t1.frames() == t0.frames() || t1.frames() == t0.frames().push(
            frame_of((pm0.kernel_base() + w * pm0.page_size_spec()) as u64),
        ))
}

/// Taking a table page keeps the free kernel pages clear of the tables,
/// and leaves at most one free kernel page less.
pub proof fn lemma_took_table_page(t0: PageTable, pm0: PageManager, t1: PageTable, pm1: PageManager)
    requires
        pm0.wf(),
        pm1.kernel_base() == pm0.kernel_base(),
        pm1.kernel_num() == pm0.kernel_num(),
        pm1.page_size_spec() == pm0.page_size_spec(),
        took_table_page(t0, pm0, t1, pm1),
    ensures
        pm0.page_size_spec() == 4096 && clear_of(t0, pm0) ==> clear_of(t1, pm1),
        free_kernel_pages(pm1) <= free_kernel_pages(pm0) <= free_kernel_pages(pm1) + 1,
{
    pm0.lemma_layout();
    if pm1.pages() == pm0.pages() && t1.frames() == t0.frames() {
    } else {
        let w = choose|w: int|
            #![trigger taken_run(pm0.pages(), w, 1)]
            0 <= w < pm0.kernel_num() && pm0.pages()[w].flag == 0 && pm1.pages() == taken_run(
                pm0.pages(),
                w,
                1,
            ) && (t1.frames() == t0.frames() || t1.frames() == t0.frames().push(
                frame_of((pm0.kernel_base() + w * pm0.page_size_spec()) as u64),
            ));
        lemma_count_taken_one(pm0.pages(), w, pm0.kernel_num());
        if pm0.page_size_spec() == 4096 && clear_of(t0, pm0) {
            assert forall|v: int|
                0 <= v < pm1.kernel_num() && #[trigger] pm1.pages()[v].flag == 0 implies !t1.frames().contains(
                frame_of((pm1.kernel_base() + v * pm1.page_size_spec()) as u64),
            ) by {
                assert(v != w);
                assert(pm0.pages()[v].flag == 0);
                lemma_kernel_frames_differ(pm0, v, w);
                let f = frame_of((pm0.kernel_base() + v * pm0.page_size_spec()) as u64);
                assert(!t0.frames().contains(f));
                if t1.frames() != t0.frames() {
                    if t1.frames().contains(f) {
                        let i = choose|i: int| 0 <= i < t1.frames().len() && t1.frames()[i] == f;
                        if i < t0.frames().len() {
                            assert(t0.frames()[i] == f);
                        }
                    }
                }
            }
        }
    }
}

/// Taking free pages keeps the remaining free kernel pages clear of the
/// tables.
pub proof fn lemma_clear_of_fewer_free(t: PageTable, pm0: PageManager, pm1: PageManager)
    requires
        pm0.wf(),
        clear_of(t, pm0),
        pm1.kernel_base() == pm0.kernel_base(),
        pm1.kernel_num() == pm0.kernel_num(),
        pm1.page_size_spec() == pm0.page_size_spec(),
        forall|j: int|
            0 <= j < pm0.pages().len() && #[trigger] pm1.pages()[j].flag == 0 ==> pm0.pages()[j].flag
                == 0,
    ensures
        clear_of(t, pm1),
{
    pm0.lemma_layout();
    assert forall|w: int| 0 <= w < pm1.kernel_num() && #[trigger] pm1.pages()[w].flag == 0 implies !t.frames().contains(
        frame_of((pm1.kernel_base() + w * pm1.page_size_spec()) as u64),
    ) by {
        assert(pm0.pages()[w].flag == 0);
    }
}

/// The frame of a kernel page is no other kernel page's address, for pages
/// of 4 KiB.
pub proof fn lemma_frame_not_page(pm: PageManager, a: int, b: int)
    requires
        pm.wf(),
        pm.page_size_spec() == 4096,
        0 <= a < pm.kernel_num(),
        0 <= b < pm.kernel_num(),
        a != b,
    ensures
        frame_of((pm.kernel_base() + a * pm.page_size_spec()) as u64) != (pm.kernel_base() + b
            * pm.page_size_spec()) as usize,
{
    pm.lemma_layout();
    let kb = pm.kernel_base();
    let n = pm.kernel_num();
    assert(a * 4096 < n * 4096 && b * 4096 < n * 4096) by (nonlinear_arith)
        requires
            0 <= a < n,
            0 <= b < n,
    ;
    let x = kb + a * 4096;
    let y = kb + b * 4096;
    let xu = x as u64;
    assert(xu == x);
    assert((xu >> 12u64) << 12u64 == (xu / 4096u64) * 4096u64) by (bit_vector);
    assert((xu / 4096u64) * 4096u64 <= xu) by (nonlinear_arith);
    assert((x / 4096) * 4096 != y) by (nonlinear_arith)
        requires
            x == kb + a * 4096,
            y == kb + b * 4096,
            kb >= 0,
            a != b,
    ;
}

/// The frames of two different kernel pages differ, for pages of 4 KiB.
pub proof fn lemma_kernel_frames_differ(pm: PageManager, a: int, b: int)
    requires
        pm.wf(),
        pm.page_size_spec() == 4096,
        0 <= a < pm.kernel_num(),
        0 <= b < pm.kernel_num(),
        a != b,
    ensures
        frame_of((pm.kernel_base() + a * pm.page_size_spec()) as u64) != frame_of(
            (pm.kernel_base() + b * pm.page_size_spec()) as u64,
        ),
{
    pm.lemma_layout();
    let kb = pm.kernel_base();
    let n = pm.kernel_num();
    assert(a * 4096 < n * 4096 && b * 4096 < n * 4096) by (nonlinear_arith)
        requires
            0 <= a < n,
            0 <= b < n,
    ;
    let x = kb + a * 4096;
    let y = kb + b * 4096;
    assert(x / 4096 == kb / 4096 + a && y / 4096 == kb / 4096 + b) by (nonlinear_arith)
        requires
            x == kb + a * 4096,
            y == kb + b * 4096,
            kb >= 0,
    ;
    let xu = x as u64;
    let yu = y as u64;
    assert(xu == x && yu == y);
    assert((xu >> 12u64) << 12u64 == (xu / 4096u64) * 4096u64) by (bit_vector);
    assert((yu >> 12u64) << 12u64 == (yu / 4096u64) * 4096u64) by (bit_vector);
    assert((xu / 4096u64) * 4096u64 <= xu) by (nonlinear_arith);
    assert((yu / 4096u64) * 4096u64 <= yu) by (nonlinear_arith);
    assert((xu / 4096u64) * 4096u64 != (yu / 4096u64) * 4096u64) by (nonlinear_arith)
        requires
            xu / 4096u64 != yu / 4096u64,
    ;
}

/// Whether entry bits carry the valid bit.
pub open spec fn bits_valid(bits: u64) -> bool {
    bits & 1 != 0
}

/// The physical frame (page-aligned address) that an entry pointed at `a`
/// yields back.
pub open spec fn frame_of(a: u64) -> usize {
    ((a >> 12u64) << 12u64) as usize
}

/// The bits of the leaf entry that `map` writes for `pa` with `flag`.
pub open spec fn leaf_bits(pa: u64, flag: u64) -> u64 {
    (node_bits(0, pa) | flag) | 1
}

impl PTE {
    /// The raw bits of the entry.
    pub closed spec fn bits(self) -> u64 {
        self.flag
    }

    /// An entry with no bit set.
    pub fn zero() -> (p: PTE)
        ensures
            p.bits() == 0,
    {
        PTE { flag: 0 }
    }

    /// The raw bits of the entry.
    pub fn val(&self) -> (r: u64)
        ensures
            r == self.bits(),
    {
        self.flag
    }

    /// Whether the valid bit is set.
    pub fn is_valid(&self) -> (r: bool)
        ensures
            r == bits_valid(self.bits()),
    {
        self.flag & PageBit::Valid.val() != 0
    }

    /// Points the entry at the table at physical address `ppn`.
    pub fn set_node_ppn(&mut self, ppn: u64)
        ensures
            final(self).bits() == node_bits(old(self).bits(), ppn),
    {
        self.flag = (self.flag & 0x3ff) | ((ppn >> 12) << 10);
    }

    /// Points the entry at the page at physical address `ppn`.
    pub fn set_leaf_ppn(&mut self, ppn: u64)
        ensures
            final(self).bits() == node_bits(old(self).bits(), ppn),
    {
        self.flag = (self.flag & 0x3ff) | ((ppn >> 12) << 10);
    }

    /// The physical address the entry points at.
    pub fn get_ppn(&self) -> (r: usize)
        ensures
            r == target_of(self.bits()),
    {
        ((self.flag & !0x3ff) << 2) as usize
    }

    /// Sets the given bits.
    pub fn set_flag(&mut self, flag: u64)
        ensures
            final(self).bits() == old(self).bits() | flag,
    {
        self.flag = self.flag | flag;
    }

    /// Sets the valid bit.
    pub fn set_valid(&mut self)
        ensures
            final(self).bits() == old(self).bits() | 1,
    {
        self.flag = self.flag | PageBit::Valid.val();
    }
}

/// An entry pointed at `ppn` yields back the page-aligned `ppn`, whatever
/// flag bits below the page number are added to it.
pub proof fn lemma_node_target(old: u64, ppn: u64, low: u64)
    requires
        low < 0x400,
    ensures
        target_of(node_bits(old, ppn) | low) == frame_of(ppn),
        target_of(node_bits(old, ppn)) == frame_of(ppn),
{
    assert(((((old & 0x3ff) | ((ppn >> 12u64) << 10u64)) | low) & !0x3ffu64) << 2u64 == (ppn
        >> 12u64) << 12u64) by (bit_vector)
        requires
            low < 0x400u64,
    ;
    assert((((old & 0x3ff) | ((ppn >> 12u64) << 10u64)) & !0x3ffu64) << 2u64 == (ppn >> 12u64)
        << 12u64) by (bit_vector);
}

/// Pointing an entry at a new address keeps its ten flag bits.
pub proof fn lemma_node_keeps_flags(old: u64, ppn: u64)
    ensures
        node_bits(old, ppn) & 0x3ff == old & 0x3ff,
{
    assert(((old & 0x3ff) | ((ppn >> 12u64) << 10u64)) & 0x3ff == old & 0x3ff) by (bit_vector);
}

/// Pointing an entry at a page-aligned address below 2^56 (as
/// `set_leaf_ppn` and `set_node_ppn` do) reads that address back through
/// `get_ppn` on a 64-bit machine, and keeps the ten flag bits (the
/// valid bit among them).
pub proof fn lemma_leaf_round_trip(old: u64, ppn: u64)
    requires
        ppn % 4096 == 0,
        ppn < 0x100_0000_0000_0000,
        usize::BITS == 64,
    ensures
        target_of(node_bits(old, ppn)) as int == ppn as int,
        node_bits(old, ppn) & 0x3ff == old & 0x3ff,
        bits_valid(node_bits(old, ppn)) == bits_valid(old),
{
    lemma_node_target(old, ppn, 0);
    lemma_node_keeps_flags(old, ppn);
    assert((ppn >> 12u64) << 12u64 == ppn && (node_bits(old, ppn) & 1 != 0) == (old & 1 != 0)) by (bit_vector)
        requires
            ppn % 4096 == 0,
            node_bits(old, ppn) & 0x3ff == old & 0x3ff,
    ;
    assert(usize::MAX == 0xffff_ffff_ffff_ffff) by {
        assert(usize::BITS == 64);
    }
}

proof fn lemma_set_valid_is_valid(b: u64)
    ensures
        bits_valid(b | 1),
{
    assert((b | 1) & 1 != 0) by (bit_vector);
}

proof fn lemma_zero_invalid()
    ensures
        !bits_valid(0),
{
    assert(0u64 & 1 == 0) by (bit_vector);
}

proof fn lemma_dir_flag_small(flag: u64)
    requires
        flag < 0x400,
    ensures
        (flag & !2u64 & !4u64 & !8u64) < 0x400,
        (flag & !2u64 & !4u64 & !8u64) | 1 < 0x400,
        flag | 1 < 0x400,
{
    assert((flag & !2u64 & !4u64 & !8u64) < 0x400) by (bit_vector)
        requires
            flag < 0x400u64,
    ;
    assert((flag & !2u64 & !4u64 & !8u64) | 1 < 0x400) by (bit_vector)
        requires
            flag < 0x400u64,
    ;
    assert(flag | 1 < 0x400) by (bit_vector)
        requires
            flag < 0x400u64,
    ;
}

proof fn lemma_or_assoc(a: u64, b: u64)
    ensures
        (a | b) | 1 == a | (b | 1),
{
    assert((a | b) | 1 == a | (b | 1)) by (bit_vector);
}

/// The index of the table entry that translates `va` at `level` (2 is the
/// root level, 0 the leaf level).
pub open spec fn vpn(va: usize, level: int) -> int {
    if level == 2 {
        ((va >> 30usize) & 0x1ff) as int
    } else if level == 1 {
        ((va >> 21usize) & 0x1ff) as int
    } else {
        ((va >> 12usize) & 0x1ff) as int
    }
}

proof fn lemma_vpn_bound(va: usize)
    ensures
        0 <= vpn(va, 2) < 512,
        0 <= vpn(va, 1) < 512,
        0 <= vpn(va, 0) < 512,
{
    assert((va >> 30usize) & 0x1ff <= 0x1ff) by (bit_vector);
    assert((va >> 21usize) & 0x1ff <= 0x1ff) by (bit_vector);
    assert((va >> 12usize) & 0x1ff <= 0x1ff) by (bit_vector);
}

/// Two virtual addresses lie in the same page.
pub open spec fn same_page(a: usize, b: usize) -> bool {
    vpn(a, 2) == vpn(b, 2) && vpn(a, 1) == vpn(b, 1) && vpn(a, 0) == vpn(b, 0)
}

/// One mapping written into a page table: virtual address, physical
/// address and permission bits.
pub type MapWrite = (usize, usize, u64);

/// The leaf bits that the last of the writes `ws` to the page of `va`
/// left, if any write went to that page.
pub open spec fn last_write(ws: Seq<MapWrite>, va: usize) -> Option<u64>
    decreases ws.len(),
{
    if ws.len() == 0 {
        None
    } else if same_page(ws.last().0, va) {
        Some(leaf_bits(ws.last().1 as u64, ws.last().2))
    } else {
        last_write(ws.drop_last(), va)
    }
}

/// The mappings of `n` consecutive pages from `va` onto consecutive pages
/// from `pa`, all with `flag`.
pub open spec fn page_writes(va: int, pa: int, n: int, flag: u64) -> Seq<MapWrite> {
    Seq::new(n as nat, |k: int| ((va + k * 4096) as usize, (pa + k * 4096) as usize, flag))
}


/// The pages from `st` up to `ed`, a page apart, each mapped onto itself
/// with permissions `flag`.
pub open spec fn identity_writes(st: int, ed: int, flag: u64) -> Seq<MapWrite> {
    page_writes(st, st, if ed > st { (ed - st + 4095) / 4096 } else { 0 }, flag)
}

/// An Sv39 page table: the frames of its tables (the root first), their
/// entries, 512 per table, and the level of each table (0 for the root).
pub struct PageTable {
    tables: Vec<usize>,
    entry: Vec<PTE>,
    levels: Ghost<Seq<int>>,
}

impl PageTable {
    /// The frames of the tables, the root first.
    pub closed spec fn frames(&self) -> Seq<usize> {
        self.tables@
    }

    /// Entry `s` of table `k`.
    pub closed spec fn slot(&self, k: int, s: int) -> PTE {
        self.entry@[k * 512 + s]
    }

    /// The level of table `k`.
    pub closed spec fn level(&self, k: int) -> int {
        self.levels@[k]
    }

    /// The index of the table at frame `f`, or -1.
    pub closed spec fn index_of(&self, f: usize) -> int {
        if exists|k: int| 0 <= k < self.tables@.len() && self.tables@[k] == f {
            choose|k: int| 0 <= k < self.tables@.len() && self.tables@[k] == f
        } else {
            -1
        }
    }

    /// The frame of the root table.
    pub open spec fn root(&self) -> usize {
        self.frames()[0]
    }

    /// Entry `s` of table `k` points at a table one level down.
    pub closed spec fn points_down(&self, k: int, s: int) -> bool {
        let t = self.index_of(target_of(self.slot(k, s).bits()));
        t >= 1 && self.level(t) == self.level(k) + 1
    }

    /// The tree invariant: one table per frame, 512 entries each, the root
    /// at level 0, and every valid entry of a root or middle table pointing
    /// at a table one level down that no other entry points at.
    pub closed spec fn wf(&self) -> bool {
        &&& self.entry@.len() == self.tables@.len() * 512
        &&& self.levels@.len() == self.tables@.len()
        &&& forall|i: int, j: int|
            0 <= i < self.tables@.len() && 0 <= j < self.tables@.len() && i != j
                ==> self.tables@[i] != self.tables@[j]
        &&& self.tables@.len() > 0 ==> self.level(0) == 0
        &&& forall|k: int|
            0 <= k < self.tables@.len() ==> 0 <= #[trigger] self.level(k) <= 2 && (k > 0
                ==> self.level(k) >= 1)
        &&& forall|k: int, s: int|
            0 <= k < self.tables@.len() && 0 <= s < 512 && self.level(k) < 2 && bits_valid(
                #[trigger] self.slot(k, s).bits(),
            ) ==> self.points_down(k, s)
        &&& forall|k1: int, s1: int, k2: int, s2: int|
            0 <= k1 < self.tables@.len() && 0 <= s1 < 512 && self.level(k1) < 2 && bits_valid(
                #[trigger] self.slot(k1, s1).bits(),
            ) && 0 <= k2 < self.tables@.len() && 0 <= s2 < 512 && self.level(k2) < 2
                && bits_valid(#[trigger] self.slot(k2, s2).bits()) && target_of(
                self.slot(k1, s1).bits(),
            ) == target_of(self.slot(k2, s2).bits()) ==> k1 == k2 && s1 == s2
    }

    /// The leaf entry that the tree gives for `va`, if every entry on the way
    /// is valid.
    pub closed spec fn translate(&self, va: usize) -> Option<PTE> {
        if self.tables@.len() == 0 {
            None
        } else {
            let e0 = self.slot(0, vpn(va, 2));
            if !bits_valid(e0.bits()) {
                None
            } else {
                let k1 = self.index_of(target_of(e0.bits()));
                let e1 = self.slot(k1, vpn(va, 1));
                if k1 < 0 || !bits_valid(e1.bits()) {
                    None
                } else {
                    let k2 = self.index_of(target_of(e1.bits()));
                    let e2 = self.slot(k2, vpn(va, 0));
                    if k2 < 0 || !bits_valid(e2.bits()) {
                        None
                    } else {
                        Some(e2)
                    }
                }
            }
        }
    }

    proof fn lemma_index_of(&self, k: int)
        requires
            self.wf(),
            0 <= k < self.tables@.len(),
        ensures
            self.index_of(self.tables@[k]) == k,
    {
        let f = self.tables@[k];
        assert(exists|k2: int| 0 <= k2 < self.tables@.len() && self.tables@[k2] == f);
    }

    proof fn lemma_index_of_absent(&self, f: usize)
        requires
            forall|k: int| 0 <= k < self.tables@.len() ==> self.tables@[k] != f,
        ensures
            self.index_of(f) == -1,
    {
    }

    proof fn lemma_index_of_range(&self, f: usize)
        ensures
            -1 <= self.index_of(f) < self.tables@.len(),
            self.index_of(f) >= 0 ==> self.tables@[self.index_of(f)] == f,
    {
    }

    /// A page table with no table yet (its SATP maps nothing).
    pub fn empty() -> (r: PageTable)
        ensures
            r.wf(),
            r.frames().len() == 0,
            forall|va: usize| r.translate(va).is_none(),
    {
        PageTable { tables: Vec::new(), entry: Vec::new(), levels: Ghost(Seq::empty()) }
    }

    /// A page table whose root table sits at frame `root`, all entries
    /// invalid.
    pub fn with_root(root: usize) -> (r: PageTable)
        ensures
            r.wf(),
            r.frames() == seq![root],
            forall|va: usize| r.translate(va).is_none(),
    {
        let mut t = PageTable::empty();
        t.push_table(root, Ghost(0));
        proof {
            lemma_zero_invalid();
            assert forall|va: usize| t.translate(va).is_none() by {
                lemma_vpn_bound(va);
                assert(t.slot(0, vpn(va, 2)).bits() == 0);
            }
        }
        t
    }

    /// A page table whose root table takes a new kernel page from `pm`;
    /// `None` when no kernel page is free.
    pub fn new(pm: &mut PageManager) -> (r: Option<PageTable>)
        requires
            old(pm).wf(),
        ensures
            final(pm).wf(),
            final(pm).kernel_base() == old(pm).kernel_base(),
            final(pm).kernel_num() == old(pm).kernel_num(),
            final(pm).user_start() == old(pm).user_start(),
            final(pm).page_size_spec() == old(pm).page_size_spec(),
            match r {
                Some(t) => t.wf() && t.frames().len() == 1 && (forall|va: usize|
                    t.translate(va).is_none()) && free_kernel_pages(*final(pm)) + 1 == free_kernel_pages(*old(pm))
                    && (old(pm).page_size_spec() == 4096 ==> clear_of(t, *final(pm))),
                None => final(pm).pages() == old(pm).pages() && no_fit(*old(pm), true, 1),
            },
    {
        match pm.alloc_kernel_page(1) {
            Some(addr) => {
                let t = PageTable::with_root(addr);
                proof {
                    old(pm).lemma_layout();
                    if old(pm).page_size_spec() == 4096 {
                        let w = choose|w: int|
                            #![trigger taken_run(old(pm).pages(), w, 1)]
                            is_first_fit(old(pm).pages(), 0, old(pm).kernel_num(), 1, w) && addr
                                == old(pm).kernel_base() + w * old(pm).page_size_spec() && pm.pages()
                                == taken_run(old(pm).pages(), w, 1);
                        assert forall|v: int|
                            0 <= v < pm.kernel_num() && #[trigger] pm.pages()[v].flag == 0 implies !t.frames().contains(
                            frame_of((pm.kernel_base() + v * pm.page_size_spec()) as u64),
                        ) by {
                            assert(v != w);
                            lemma_frame_not_page(*old(pm), v, w);
                            assert(t.frames()[0] == addr);
                        }
                    }
                }
                Some(t)
            },
            None => None,
        }
    }

    /// The index of the table at frame `key`.
    fn find(&self, key: usize) -> (r: Option<usize>)
        requires
            self.wf(),
        ensures
            match r {
                Some(k) => k < self.tables@.len() && self.tables@[k as int] == key
                    && self.index_of(key) == k,
                None => forall|k: int| 0 <= k < self.tables@.len() ==> self.tables@[k] != key,
            },
    {
        let mut i: usize = 0;
        while i < self.tables.len()
            invariant
                self.wf(),
                i <= self.tables@.len(),
                forall|k: int| 0 <= k < i ==> self.tables@[k] != key,
            decreases self.tables@.len() - i,
        {
            if self.tables[i] == key {
                proof {
                    self.lemma_index_of(i as int);
                }
                return Some(i);
            }
            i += 1;
        }
        None
    }

    /// Appends an empty table at frame `key`, at `level`.
    fn push_table(&mut self, key: usize, level: Ghost<int>)
        requires
            old(self).wf(),
            forall|k: int| 0 <= k < old(self).tables@.len() ==> old(self).tables@[k] != key,
            0 <= level@ <= 2,
            old(self).tables@.len() == 0 <==> level@ == 0,
        ensures
            final(self).wf(),
            final(self).tables@ == old(self).tables@.push(key),
            final(self).levels@ == old(self).levels@.push(level@),
            forall|k: int, s: int|
                0 <= k < old(self).tables@.len() && 0 <= s < 512 ==> #[trigger] final(self).slot(
                    k,
                    s,
                ) == old(self).slot(k, s),
            forall|s: int| 0 <= s < 512 ==> #[trigger] final(self).slot(
                old(self).tables@.len() as int,
                s,
            ).bits() == 0,
            forall|f: usize| f != key ==> #[trigger] final(self).index_of(f) == old(self).index_of(f),
            final(self).index_of(key) == old(self).tables@.len(),
    {
        let ghost old_self = *self;
        let n = self.tables.len();
        let mut i: usize = 0;
        while i < ENTRY_NUM
            invariant
                old_self.wf(),
                self.entry@.len() == old_self.entry@.len() + i,
                old_self.entry@.len() == n * 512,
                i <= 512,
                forall|j: int| 0 <= j < old_self.entry@.len() ==> self.entry@[j] == old_self.entry@[j],
                forall|j: int|
                    old_self.entry@.len() <= j < self.entry@.len() ==> self.entry@[j].bits() == 0,
                self.tables@ == old_self.tables@,
                self.levels@ == old_self.levels@,
            decreases 512 - i,
        {
            self.entry.push(PTE::zero());
            i += 1;
        }
        self.tables.push(key);
        self.levels = Ghost(self.levels@.push(level@));
        proof {
            lemma_zero_invalid();
            let n = old_self.tables@.len();
            assert forall|f: usize| f != key implies #[trigger] self.index_of(f) == old_self.index_of(f) by {
                if exists|k: int| 0 <= k < n && old_self.tables@[k] == f {
                    let k = choose|k: int| 0 <= k < n && old_self.tables@[k] == f;
                    old_self.lemma_index_of(k);
                    assert(self.tables@[k] == f);
                    assert forall|j: int|
                        0 <= j < self.tables@.len() && j != k implies self.tables@[j] != f by {
                        if j < n {
                        } else {
                            assert(self.tables@[j] == key);
                        }
                    }
                    assert(self.index_of(f) == k);
                } else {
                    assert forall|j: int| 0 <= j < self.tables@.len() implies self.tables@[j] != f by {
                        if j < n {
                        } else {
                            assert(self.tables@[j] == key);
                        }
                    }
                }
            }
            assert(self.tables@[n as int] == key);
            assert forall|j: int| 0 <= j < self.tables@.len() && j != n implies self.tables@[j]
                != key by {
            }
            assert(self.index_of(key) == n);
            assert forall|k: int, s: int|
                0 <= k < n && 0 <= s < 512 implies #[trigger] self.slot(k, s) == old_self.slot(k, s) by {
                assert(k * 512 + s < n * 512);
            }
            assert forall|s: int| 0 <= s < 512 implies #[trigger] self.slot(n as int, s).bits() == 0 by {
                assert(n * 512 + s >= n * 512);
            }
            assert forall|k: int, s: int|
                0 <= k < self.tables@.len() && 0 <= s < 512 && self.level(k) < 2 && bits_valid(
                    #[trigger] self.slot(k, s).bits(),
                ) implies self.points_down(k, s) by {
                if k < n {
                    assert(self.slot(k, s) == old_self.slot(k, s));
                    assert(old_self.points_down(k, s));
                    let t = target_of(old_self.slot(k, s).bits());
                    let ti = old_self.index_of(t);
                    old_self.lemma_index_of_range(t);
                    assert(t != key);
                } else {
                    assert(self.slot(k, s).bits() == 0);
                }
            }
            assert(self.entry@.len() == self.tables@.len() * 512);
            assert(self.levels@.len() == self.tables@.len());
            assert forall|i: int, j: int|
                0 <= i < self.tables@.len() && 0 <= j < self.tables@.len() && i != j
                    implies self.tables@[i] != self.tables@[j] by {
                if i < n && j < n {
                } else if i == n {
                    assert(self.tables@[i] == key);
                } else {
                    assert(self.tables@[j] == key);
                }
            }
            assert(self.tables@.len() > 0 ==> self.level(0) == 0);
            assert forall|k: int|
                0 <= k < self.tables@.len() implies 0 <= #[trigger] self.level(k) <= 2 && (k > 0
                    ==> self.level(k) >= 1) by {
                if k < n {
                    assert(self.level(k) == old_self.level(k));
                }
            }
            assert forall|k1: int, s1: int, k2: int, s2: int|
                0 <= k1 < self.tables@.len() && 0 <= s1 < 512 && self.level(k1) < 2 && bits_valid(
                    #[trigger] self.slot(k1, s1).bits(),
                ) && 0 <= k2 < self.tables@.len() && 0 <= s2 < 512 && self.level(k2) < 2
                    && bits_valid(#[trigger] self.slot(k2, s2).bits()) && target_of(
                    self.slot(k1, s1).bits(),
                ) == target_of(self.slot(k2, s2).bits()) implies k1 == k2 && s1 == s2 by {
                if k1 >= n {
                    assert(self.slot(k1, s1).bits() == 0);
                }
                if k2 >= n {
                    assert(self.slot(k2, s2).bits() == 0);
                }
                assert(self.slot(k1, s1) == old_self.slot(k1, s1));
                assert(self.slot(k2, s2) == old_self.slot(k2, s2));
            }
        }
    }

    /// Writes entry `s` of table `k`.
    fn write_slot(&mut self, k: usize, s: usize, e: PTE)
        requires
            k < old(self).tables@.len(),
            s < 512,
            old(self).entry@.len() == old(self).tables@.len() * 512,
        ensures
            final(self).tables@ == old(self).tables@,
            final(self).levels@ == old(self).levels@,
            final(self).entry@.len() == old(self).entry@.len(),
            final(self).slot(k as int, s as int) == e,
            forall|k2: int, s2: int|
                0 <= k2 < old(self).tables@.len() && 0 <= s2 < 512 && (k2 != k || s2 != s)
                    ==> #[trigger] final(self).slot(k2, s2) == old(self).slot(k2, s2),
            forall|f: usize| #[trigger] final(self).index_of(f) == old(self).index_of(f),
    {
        let len = self.entry.len();
        proof {
            assert(k * 512 + s < self.tables@.len() * 512) by (nonlinear_arith)
                requires
                    k < self.tables@.len(),
                    s < 512,
            ;
        }
        self.entry.set(k * ENTRY_NUM + s, e);
        proof {
            assert forall|f: usize| #[trigger] self.index_of(f) == old(self).index_of(f) by {
                assert(self.tables@ == old(self).tables@);
            }
            assert forall|k2: int, s2: int|
                0 <= k2 < old(self).tables@.len() && 0 <= s2 < 512 && (k2 != k || s2 != s)
                    implies #[trigger] self.slot(k2, s2) == old(self).slot(k2, s2) by {
                assert(k2 * 512 + s2 != k * 512 + s);
            }
        }
    }

    /// The table that entry `s` of table `k` points at, creating an empty
    /// one on a new kernel page when the entry is not valid (the entry then
    /// takes the bits of `flag` without the read, write and execute bits).
    /// `None` when no kernel page is free, or when the page handed out
    /// already holds a table of this tree.
    fn next_table(&mut self, pm: &mut PageManager, k: usize, s: usize, flag: u64) -> (r: Option<
        usize,
    >)
        requires
            old(self).wf(),
            old(pm).wf(),
            k < old(self).tables@.len(),
            old(self).level(k as int) < 2,
            s < 512,
            flag < 0x400,
        ensures
            kernel_run_kept(*old(pm), *final(pm), 1),
            user_pages_kept(*old(pm), *final(pm)),
            final(self).wf(),
            final(pm).wf(),
            final(pm).kernel_base() == old(pm).kernel_base(),
            final(pm).kernel_num() == old(pm).kernel_num(),
            final(pm).user_start() == old(pm).user_start(),
            final(pm).page_size_spec() == old(pm).page_size_spec(),
            final(self).tables@.len() >= old(self).tables@.len(),
            forall|j: int|
                0 <= j < old(self).tables@.len() ==> #[trigger] final(self).tables@[j]
                    == old(self).tables@[j] && final(self).level(j) == old(self).level(j),
            forall|k2: int, s2: int|
                0 <= k2 < old(self).tables@.len() && 0 <= s2 < 512 && (k2 != k || s2 != s)
                    ==> #[trigger] final(self).slot(k2, s2) == old(self).slot(k2, s2),
            forall|j: int, s2: int|
                old(self).tables@.len() <= j < final(self).tables@.len() && 0 <= s2 < 512
                    ==> !bits_valid(#[trigger] final(self).slot(j, s2).bits()),
            forall|va: usize| #[trigger] final(self).translate(va) == old(self).translate(va),
            forall|f: usize|
                old(self).index_of(f) >= 0 ==> #[trigger] final(self).index_of(f) == old(self).index_of(f),
            bits_valid(old(self).slot(k as int, s as int).bits()) ==> final(self).slot(
                k as int,
                s as int,
            ) == old(self).slot(k as int, s as int),
            match r {
                Some(k1) => {
                    &&& k1 < final(self).tables@.len()
                    &&& bits_valid(final(self).slot(k as int, s as int).bits())
                    &&& final(self).index_of(target_of(final(self).slot(k as int, s as int).bits()))
                        == k1
                    &&& final(self).level(k1 as int) == old(self).level(k as int) + 1
                },
                None => true,
            },
            took_table_page(*old(self), *old(pm), *final(self), *final(pm)),
            free_kernel_pages(*old(pm)) > 0 && clear_of(*old(self), *old(pm)) ==> r is Some,
    {
        let len = self.entry.len();
        let e = self.entry[k * ENTRY_NUM + s];
        proof {
            assert(k * 512 + s < self.tables@.len() * 512) by (nonlinear_arith)
                requires
                    k < self.tables@.len(),
                    s < 512,
            ;
            assert(e == self.slot(k as int, s as int));
        }
        if e.is_valid() {
            let target = e.get_ppn();
            let found = self.find(target);
            proof {
                assert(self.points_down(k as int, s as int));
                self.lemma_index_of_range(target);
                lemma_run_kept_same(*old(pm), *pm, 1);
            }
            return found;
        }
        let page = pm.alloc_kernel_page(1);
        proof {
            match page {
                Some(a) => {
                    let w = choose|w: int|
                        #![trigger taken_run(old(pm).pages(), w, 1)]
                        is_first_fit(old(pm).pages(), 0, old(pm).kernel_num(), 1, w) && a
                            == old(pm).kernel_base() + w * old(pm).page_size_spec() && pm.pages()
                            == taken_run(old(pm).pages(), w, 1);
                    assert forall|m: int| m >= 1 && !#[trigger] no_fit(*old(pm), true, m) implies !no_fit(*pm, true, m - 1) by {
                        lemma_run_after_take(*old(pm), *pm, w, m);
                    }
                },
                None => {
                    lemma_run_kept_same(*old(pm), *pm, 1);
                },
            }
        }
        let addr = match page {
            Some(a) => a,
            None => {
                return None;
            },
        };
        let mut d = e;
        d.set_node_ppn(addr as u64);
        d.set_flag(flag & !PageBit::Read.val() & !PageBit::Write.val() & !PageBit::Excute.val());
        d.set_valid();
        let key = d.get_ppn();
        proof {
            lemma_dir_flag_small(flag);
            let fl = flag & !2u64 & !4u64 & !8u64;
            lemma_or_assoc(node_bits(e.bits(), addr as u64), fl);
            lemma_node_target(e.bits(), addr as u64, fl | 1);
            assert(key == frame_of(addr as u64));
            if clear_of(*old(self), *old(pm)) {
                let w = choose|w: int|
                    #![trigger taken_run(old(pm).pages(), w, 1)]
                    is_first_fit(old(pm).pages(), 0, old(pm).kernel_num(), 1, w) && addr
                        == old(pm).kernel_base() + w * old(pm).page_size_spec() && pm.pages()
                        == taken_run(old(pm).pages(), w, 1);
                assert(old(pm).pages()[w].flag == 0);
                assert(!self.frames().contains(key));
                assert forall|j: int| 0 <= j < self.tables@.len() implies self.tables@[j] != key by {
                    if self.tables@[j] == key {
                        assert(self.frames()[j] == key);
                    }
                }
            }
        }
        if self.find(key).is_some() {
            return None;
        }
        let ghost mid = *self;
        let n = self.tables.len();
        let ghost lvl = self.level(k as int) + 1;
        self.push_table(key, Ghost(lvl));
        let ghost pushed = *self;
        self.write_slot(k, s, d);
        proof {
            lemma_zero_invalid();
            let fl = flag & !2u64 & !4u64 & !8u64;
            lemma_set_valid_is_valid(node_bits(e.bits(), addr as u64) | fl);
            lemma_dir_flag_small(flag);
            assert(d.bits() == (node_bits(e.bits(), addr as u64) | fl) | 1);
            lemma_or_assoc(node_bits(e.bits(), addr as u64), fl);
            lemma_node_target(e.bits(), addr as u64, fl | 1);
            assert(self.index_of(key) == n);
            // pointer invariants
            assert forall|k2: int, s2: int|
                0 <= k2 < self.tables@.len() && 0 <= s2 < 512 && self.level(k2) < 2 && bits_valid(
                    #[trigger] self.slot(k2, s2).bits(),
                ) implies self.points_down(k2, s2) by {
                if k2 == k && s2 == s {
                } else {
                    assert(self.slot(k2, s2) == pushed.slot(k2, s2));
                    assert(pushed.points_down(k2, s2));
                }
            }
            assert forall|k1: int, s1: int, k2: int, s2: int|
                0 <= k1 < self.tables@.len() && 0 <= s1 < 512 && self.level(k1) < 2 && bits_valid(
                    #[trigger] self.slot(k1, s1).bits(),
                ) && 0 <= k2 < self.tables@.len() && 0 <= s2 < 512 && self.level(k2) < 2
                    && bits_valid(#[trigger] self.slot(k2, s2).bits()) && target_of(
                    self.slot(k1, s1).bits(),
                ) == target_of(self.slot(k2, s2).bits()) implies k1 == k2 && s1 == s2 by {
                if k1 == k && s1 == s && !(k2 == k && s2 == s) {
                    assert(self.slot(k2, s2) == pushed.slot(k2, s2));
                    assert(pushed.points_down(k2, s2));
                    pushed.lemma_index_of_range(target_of(pushed.slot(k2, s2).bits()));
                    assert(pushed.index_of(key) == n);
                    if k2 >= n {
                        assert(pushed.slot(k2, s2).bits() == 0);
                    }
                    assert(pushed.index_of(target_of(pushed.slot(k2, s2).bits())) < n) by {
                        assert(mid.points_down(k2, s2));
                        mid.lemma_index_of_range(target_of(mid.slot(k2, s2).bits()));
                    }
                } else if k2 == k && s2 == s && !(k1 == k && s1 == s) {
                    assert(self.slot(k1, s1) == pushed.slot(k1, s1));
                    if k1 >= n {
                        assert(pushed.slot(k1, s1).bits() == 0);
                    }
                    assert(mid.points_down(k1, s1));
                    mid.lemma_index_of_range(target_of(mid.slot(k1, s1).bits()));
                } else if !(k1 == k && s1 == s) && !(k2 == k && s2 == s) {
                    assert(self.slot(k1, s1) == pushed.slot(k1, s1));
                    assert(self.slot(k2, s2) == pushed.slot(k2, s2));
                }
            }
            assert forall|j: int, s2: int|
                mid.tables@.len() <= j < self.tables@.len() && 0 <= s2 < 512 implies !bits_valid(
                    #[trigger] self.slot(j, s2).bits(),
                ) by {
                assert(j == n);
                assert(self.slot(j, s2) == pushed.slot(j, s2));
            }
            assert(self.slot(k as int, s as int) == d);
            assert(target_of(d.bits()) == key);
            assert(self.index_of(key) == pushed.index_of(key));
            assert(self.level(n as int) == lvl);
            assert(mid.level(k as int) == old(self).level(k as int));
            assert(self.level(n as int) == old(self).level(k as int) + 1);
            assert(n < self.tables@.len());
            assert(bits_valid(self.slot(k as int, s as int).bits()));
            assert(self.index_of(target_of(self.slot(k as int, s as int).bits())) == n);
            mid.lemma_index_of_absent(key);
            assert forall|f: usize|
                mid.index_of(f) >= 0 implies #[trigger] self.index_of(f) == mid.index_of(f) by {
                assert(f != key);
                assert(self.index_of(f) == pushed.index_of(f));
            }
            assert forall|va: usize| #[trigger] self.translate(va) == mid.translate(va) by {
                lemma_vpn_bound(va);
                let w2 = vpn(va, 2);
                let w1 = vpn(va, 1);
                let w0 = vpn(va, 0);
                lemma_zero_invalid();
                if k == 0 && w2 == s {
                    assert(self.slot(0, w2) == d);
                    assert(self.index_of(target_of(d.bits())) == n);
                    assert(self.slot(n as int, w1).bits() == 0);
                    assert(!bits_valid(mid.slot(0, w2).bits()));
                } else {
                    assert(self.slot(0, w2) == mid.slot(0, w2));
                    let e0 = mid.slot(0, w2);
                    if bits_valid(e0.bits()) {
                        assert(mid.level(0) == 0);
                        assert(mid.points_down(0, w2));
                        let t1 = target_of(e0.bits());
                        let k1 = mid.index_of(t1);
                        assert(self.index_of(t1) == k1);
                        assert(mid.level(k1) == 1);
                        if k1 == k && w1 == s {
                            assert(self.slot(k1, w1) == d);
                            assert(self.slot(n as int, w0).bits() == 0);
                            assert(!bits_valid(mid.slot(k1, w1).bits()));
                        } else {
                            assert(self.slot(k1, w1) == mid.slot(k1, w1));
                            let e1 = mid.slot(k1, w1);
                            if bits_valid(e1.bits()) {
                                assert(mid.points_down(k1, w1));
                                let t2 = target_of(e1.bits());
                                let k2 = mid.index_of(t2);
                                assert(self.index_of(t2) == k2);
                                assert(mid.level(k2) == 2);
                                assert(k2 != k);
                                assert(self.slot(k2, w0) == mid.slot(k2, w0));
                            }
                        }
                    }
                }
            }
            assert(self.entry@.len() == self.tables@.len() * 512);
            assert(self.levels@.len() == self.tables@.len());
            assert forall|i: int, j: int|
                0 <= i < self.tables@.len() && 0 <= j < self.tables@.len() && i != j
                    implies self.tables@[i] != self.tables@[j] by {
                assert(self.tables@ == pushed.tables@);
            }
            assert(self.tables@.len() > 0 ==> self.level(0) == 0);
            assert forall|kk: int|
                0 <= kk < self.tables@.len() implies 0 <= #[trigger] self.level(kk) <= 2 && (kk > 0
                    ==> self.level(kk) >= 1) by {
                assert(self.level(kk) == pushed.level(kk));
            }
        }
        Some(n)
    }

    /// Maps the page of virtual address `virtual_addr` onto the page of
    /// `physic_addr` with the permission bits `flag`, creating the middle
    /// and last tables on the way as needed. `false` when a needed table
    /// could not be created; the translations of other pages are then as
    /// before.
    pub(crate) fn map(&mut self, pm: &mut PageManager, virtual_addr: usize, physic_addr: usize, flag: u64) -> (r:
        bool)
        requires
            old(self).wf(),
            old(self).frames().len() > 0,
            old(pm).wf(),
            flag < 0x400,
        ensures
            kernel_run_kept(*old(pm), *final(pm), 2),
            user_pages_kept(*old(pm), *final(pm)),
            final(self).wf(),
            final(self).frames().len() > 0,
            final(self).root() == old(self).root(),
            final(pm).wf(),
            final(pm).kernel_base() == old(pm).kernel_base(),
            final(pm).kernel_num() == old(pm).kernel_num(),
            final(pm).user_start() == old(pm).user_start(),
            final(pm).page_size_spec() == old(pm).page_size_spec(),
            r ==> final(self).translate(virtual_addr).is_some() && final(self).translate(virtual_addr).unwrap().bits() == leaf_bits(physic_addr as u64, flag),
            forall|va2: usize|
                !same_page(virtual_addr, va2) || !r ==> #[trigger] final(self).translate(va2)
                    == old(self).translate(va2),
            free_kernel_pages(*final(pm)) <= free_kernel_pages(*old(pm)) <= free_kernel_pages(*final(pm)) + 2,
            old(pm).page_size_spec() == 4096 && clear_of(*old(self), *old(pm)) ==> clear_of(*final(self), *final(pm)),
            old(pm).page_size_spec() == 4096 && free_kernel_pages(*old(pm)) >= 2 && clear_of(*old(self), *old(pm)) ==> r,
    {
        proof {
            lemma_vpn_bound(virtual_addr);
        }
        let vpn2 = (virtual_addr >> 30) & 0x1ff;
        let vpn1 = (virtual_addr >> 21) & 0x1ff;
        let vpn0 = (virtual_addr >> 12) & 0x1ff;
        assert(vpn2 == vpn(virtual_addr, 2));
        assert(vpn1 == vpn(virtual_addr, 1));
        assert(vpn0 == vpn(virtual_addr, 0));
        let ghost s0 = *self;
        let ghost pm0 = *pm;
        let k1 = match self.next_table(pm, 0, vpn2, flag) {
            Some(k1) => k1,
            None => {
                proof {
                    lemma_took_table_page(s0, pm0, *self, *pm);
                    lemma_run_kept_more(pm0, *pm, 1, 2);
                }
                return false;
            },
        };
        let ghost s1 = *self;
        let ghost pm1 = *pm;
        proof {
            lemma_took_table_page(s0, pm0, s1, pm1);
        }
        let k2 = match self.next_table(pm, k1, vpn1, flag) {
            Some(k2) => k2,
            None => {
                proof {
                    lemma_took_table_page(s1, pm1, *self, *pm);
                    lemma_run_kept_trans(pm0, pm1, *pm, 1, 1);
                }
                return false;
            },
        };
        let ghost s2 = *self;
        proof {
            lemma_took_table_page(s1, pm1, s2, *pm);
            lemma_run_kept_trans(pm0, pm1, *pm, 1, 1);
        }
        let mut leaf = PTE::zero();
        leaf.set_leaf_ppn(physic_addr as u64);
        leaf.set_flag(flag);
        leaf.set_valid();
        proof {
            assert(s1.level(k1 as int) == 1);
            assert(s2.level(k2 as int) == 2);
            assert(k1 != 0 && k2 != 0 && k1 != k2);
            assert(s2.slot(0, vpn2 as int) == s1.slot(0, vpn2 as int));
        }
        let ghost before_leaf = *self;
        self.write_slot(k2, vpn0, leaf);
        proof {
            lemma_set_valid_is_valid(node_bits(0, physic_addr as u64) | flag);
            assert(self.slot(0, vpn2 as int) == s1.slot(0, vpn2 as int));
            assert(self.slot(k1 as int, vpn1 as int) == s2.slot(k1 as int, vpn1 as int));
            assert forall|k: int, s: int|
                0 <= k < self.tables@.len() && 0 <= s < 512 && self.level(k) < 2 && bits_valid(
                    #[trigger] self.slot(k, s).bits(),
                ) implies self.points_down(k, s) by {
                assert(self.slot(k, s) == before_leaf.slot(k, s));
            }
            assert forall|ka: int, sa: int, kb: int, sb: int|
                0 <= ka < self.tables@.len() && 0 <= sa < 512 && self.level(ka) < 2 && bits_valid(
                    #[trigger] self.slot(ka, sa).bits(),
                ) && 0 <= kb < self.tables@.len() && 0 <= sb < 512 && self.level(kb) < 2
                    && bits_valid(#[trigger] self.slot(kb, sb).bits()) && target_of(
                    self.slot(ka, sa).bits(),
                ) == target_of(self.slot(kb, sb).bits()) implies ka == kb && sa == sb by {
                assert(self.slot(ka, sa) == before_leaf.slot(ka, sa));
                assert(self.slot(kb, sb) == before_leaf.slot(kb, sb));
            }
            assert(self.tables@[0] == s0.tables@[0]);
            assert(self.entry@.len() == self.tables@.len() * 512);
            assert(self.levels@.len() == self.tables@.len());
            assert(self.tables@ == before_leaf.tables@);
            assert(self.levels@ == before_leaf.levels@);
            assert forall|k: int|
                0 <= k < self.tables@.len() implies 0 <= #[trigger] self.level(k) <= 2 && (k > 0
                    ==> self.level(k) >= 1) by {
                assert(self.level(k) == before_leaf.level(k));
            }
            // the walk for virtual_addr
            let e0 = self.slot(0, vpn2 as int);
            assert(bits_valid(e0.bits()));
            s1.lemma_index_of_range(target_of(e0.bits()));
            assert(s1.tables@[k1 as int] == target_of(e0.bits()));
            assert(self.tables@[k1 as int] == s1.tables@[k1 as int]);
            self.lemma_index_of(k1 as int);
            assert(self.index_of(target_of(e0.bits())) == k1);
            let e1 = self.slot(k1 as int, vpn1 as int);
            assert(bits_valid(e1.bits()));
            s2.lemma_index_of_range(target_of(e1.bits()));
            assert(self.tables@[k2 as int] == target_of(e1.bits()));
            self.lemma_index_of(k2 as int);
            assert(self.index_of(target_of(e1.bits())) == k2);
            assert(self.slot(k2 as int, vpn0 as int) == leaf);
            assert(leaf.bits() == leaf_bits(physic_addr as u64, flag));
            let sb = before_leaf;
            assert forall|va2: usize| !same_page(virtual_addr, va2) implies #[trigger] self.translate(
                va2,
            ) == sb.translate(va2) by {
                lemma_vpn_bound(va2);
                let w2 = vpn(va2, 2);
                let w1 = vpn(va2, 1);
                let w0 = vpn(va2, 0);
                assert(self.slot(0, w2) == sb.slot(0, w2));
                let e0 = sb.slot(0, w2);
                if bits_valid(e0.bits()) {
                    assert(sb.level(0) == 0);
                    assert(sb.points_down(0, w2));
                    let t1 = target_of(e0.bits());
                    let j1 = sb.index_of(t1);
                    assert(sb.level(j1) == 1);
                    assert(self.slot(j1, w1) == sb.slot(j1, w1));
                    let e1 = sb.slot(j1, w1);
                    if bits_valid(e1.bits()) {
                        assert(sb.points_down(j1, w1));
                        let t2 = target_of(e1.bits());
                        let j2 = sb.index_of(t2);
                        if j2 == k2 && w0 == vpn0 {
                            // both (j1, w1) and (k1, vpn1) point at table k2
                            let ek = sb.slot(k1 as int, vpn1 as int);
                            assert(bits_valid(ek.bits()));
                            sb.lemma_index_of_range(t2);
                            sb.lemma_index_of_range(target_of(ek.bits()));
                            assert(target_of(ek.bits()) == t2);
                            assert(j1 == k1 && w1 == vpn1);
                            let er = sb.slot(0, vpn2 as int);
                            sb.lemma_index_of_range(t1);
                            sb.lemma_index_of_range(target_of(er.bits()));
                            assert(target_of(er.bits()) == t1);
                            assert(w2 == vpn2);
                            assert(false);
                        }
                        assert(self.slot(j2, w0) == sb.slot(j2, w0));
                    }
                }
            }
        }
        true
    }


    /// Maps each page from `st` up to (not including) `ed`, a page apart,
    /// onto itself with permissions `flag`. `false` when a table could not
    /// be created; the pages before that one stay mapped.
    pub fn map_identity(&mut self, pm: &mut PageManager, st: usize, ed: usize, flag: u64) -> (r: bool)
        requires
            old(self).wf(),
            old(self).frames().len() > 0,
            old(pm).wf(),
            flag < 0x400,
            ed + 4096 <= usize::MAX,
        ensures
            final(self).wf(),
            final(self).frames().len() > 0,
            final(self).root() == old(self).root(),
            final(pm).wf(),
            final(pm).kernel_base() == old(pm).kernel_base(),
            final(pm).kernel_num() == old(pm).kernel_num(),
            final(pm).user_start() == old(pm).user_start(),
            final(pm).page_size_spec() == old(pm).page_size_spec(),
            r ==> final(self).written_over(*old(self), identity_writes(st as int, ed as int, flag)),
            free_kernel_pages(*final(pm)) <= free_kernel_pages(*old(pm)) <= free_kernel_pages(*final(pm)) + 2
                * identity_writes(st as int, ed as int, flag).len(),
            old(pm).page_size_spec() == 4096 && clear_of(*old(self), *old(pm)) ==> clear_of(*final(self), *final(pm)),
            old(pm).page_size_spec() == 4096 && clear_of(*old(self), *old(pm)) && free_kernel_pages(*old(pm)) >= 2 * (
            if ed > st {
                (ed - st + 4095) / 4096
            } else {
                0
            }) ==> r,
    {
        let ghost start = *self;
        let ghost pm_start = *pm;
        let ghost n: int = if ed > st { (ed - st + 4095) / 4096 } else { 0 };
        let ghost w = identity_writes(st as int, ed as int, flag);
        proof {
            lemma_written_over_none(start);
            assert(w.subrange(0, 0) =~= Seq::<MapWrite>::empty());
        }
        let mut addr = st;
        let ghost mut k: int = 0;
        while addr < ed
            invariant
                self.wf(),
                self.frames().len() > 0,
                self.root() == old(self).root(),
                pm.wf(),
                pm.kernel_base() == old(pm).kernel_base(),
                pm.kernel_num() == old(pm).kernel_num(),
                pm.user_start() == old(pm).user_start(),
                pm.page_size_spec() == old(pm).page_size_spec(),
                flag < 0x400,
                ed + 4096 <= usize::MAX,
                start == *old(self),
                w == identity_writes(st as int, ed as int, flag),
                n == (if ed > st { (ed - st + 4095) / 4096 } else { 0 }),
                0 <= k,
                addr == st + k * 4096,
                addr < ed ==> k < n,
                addr >= ed ==> k == n,
                k <= n,
                self.written_over(start, w.subrange(0, k)),
                pm_start == *old(pm),
                pm.page_size_spec() == 4096 && clear_of(start, pm_start) ==> clear_of(*self, *pm),
                free_kernel_pages(*pm) + 2 * k >= free_kernel_pages(pm_start),
                free_kernel_pages(*pm) <= free_kernel_pages(pm_start),
                w.len() == n,
            decreases n - k,
        {
            let ghost before = *self;
            if !self.map(pm, addr, addr, flag) {
                return false;
            }
            proof {
                lemma_written_over_step(start, before, *self, w.subrange(0, k), addr, addr, flag);
                assert(w.subrange(0, k).push(w[k]) =~= w.subrange(0, k + 1));
                assert(ed > st);
                assert((k + 1) * 4096 >= ed - st ==> k + 1 == n) by (nonlinear_arith)
                    requires
                        n == (ed - st + 4095) / 4096,
                        k < n,
                        k >= 0,
                        st + k * 4096 < ed,
                ;
                assert((k + 1) * 4096 < ed - st ==> k + 1 < n) by (nonlinear_arith)
                    requires
                        n == (ed - st + 4095) / 4096,
                        k >= 0,
                ;
            }
            addr = addr + 4096;
            proof {
                k = k + 1;
            }
        }
        proof {
            if ed > st {
                assert(k == n);
            } else {
                assert(k == 0);
            }
            assert(w.subrange(0, k) =~= w);
        }
        true
    }

    /// Maps a kernel page readable, writable and executable.
    pub fn map_kernel(&mut self, pm: &mut PageManager, virtual_addr: usize, physic_addr: usize) -> (r:
        bool)
        requires
            old(self).wf(),
            old(self).frames().len() > 0,
            old(pm).wf(),
        ensures
            kernel_run_kept(*old(pm), *final(pm), 2),
            user_pages_kept(*old(pm), *final(pm)),
            final(self).wf(),
            final(self).frames().len() > 0,
            final(self).root() == old(self).root(),
            final(pm).wf(),
            final(pm).kernel_base() == old(pm).kernel_base(),
            final(pm).kernel_num() == old(pm).kernel_num(),
            final(pm).user_start() == old(pm).user_start(),
            final(pm).page_size_spec() == old(pm).page_size_spec(),
            r ==> final(self).translate(virtual_addr).is_some() && final(self).translate(virtual_addr).unwrap().bits() == leaf_bits(physic_addr as u64, 14u64),
            forall|va2: usize|
                !same_page(virtual_addr, va2) || !r ==> #[trigger] final(self).translate(va2)
                    == old(self).translate(va2),
            free_kernel_pages(*final(pm)) <= free_kernel_pages(*old(pm)) <= free_kernel_pages(*final(pm)) + 2,
            old(pm).page_size_spec() == 4096 && clear_of(*old(self), *old(pm)) ==> clear_of(*final(self), *final(pm)),
            old(pm).page_size_spec() == 4096 && free_kernel_pages(*old(pm)) >= 2 && clear_of(*old(self), *old(pm)) ==> r,
    {
        assert(2u64 | 4u64 | 8u64 == 14u64) by (bit_vector);
        self.map(
            pm,
            virtual_addr,
            physic_addr,
            PageBit::Read.val() | PageBit::Write.val() | PageBit::Excute.val(),
        )
    }

    /// Maps a kernel data page, readable and writable.
    pub fn map_kernel_data(&mut self, pm: &mut PageManager, virtual_addr: usize, physic_addr: usize) -> (r:
        bool)
        requires
            old(self).wf(),
            old(self).frames().len() > 0,
            old(pm).wf(),
        ensures
            kernel_run_kept(*old(pm), *final(pm), 2),
            user_pages_kept(*old(pm), *final(pm)),
            final(self).wf(),
            final(self).frames().len() > 0,
            final(self).root() == old(self).root(),
            final(pm).wf(),
            final(pm).kernel_base() == old(pm).kernel_base(),
            final(pm).kernel_num() == old(pm).kernel_num(),
            final(pm).user_start() == old(pm).user_start(),
            final(pm).page_size_spec() == old(pm).page_size_spec(),
            r ==> final(self).translate(virtual_addr).is_some() && final(self).translate(virtual_addr).unwrap().bits() == leaf_bits(physic_addr as u64, 6u64),
            forall|va2: usize|
                !same_page(virtual_addr, va2) || !r ==> #[trigger] final(self).translate(va2)
                    == old(self).translate(va2),
            free_kernel_pages(*final(pm)) <= free_kernel_pages(*old(pm)) <= free_kernel_pages(*final(pm)) + 2,
            old(pm).page_size_spec() == 4096 && clear_of(*old(self), *old(pm)) ==> clear_of(*final(self), *final(pm)),
            old(pm).page_size_spec() == 4096 && free_kernel_pages(*old(pm)) >= 2 && clear_of(*old(self), *old(pm)) ==> r,
    {
        assert(2u64 | 4u64 == 6u64) by (bit_vector);
        self.map(pm, virtual_addr, physic_addr, PageBit::Read.val() | PageBit::Write.val())
    }

    /// Maps a kernel code page, readable and executable.
    pub fn map_kernel_code(&mut self, pm: &mut PageManager, virtual_addr: usize, physic_addr: usize) -> (r:
        bool)
        requires
            old(self).wf(),
            old(self).frames().len() > 0,
            old(pm).wf(),
        ensures
            kernel_run_kept(*old(pm), *final(pm), 2),
            user_pages_kept(*old(pm), *final(pm)),
            final(self).wf(),
            final(self).frames().len() > 0,
            final(self).root() == old(self).root(),
            final(pm).wf(),
            final(pm).kernel_base() == old(pm).kernel_base(),
            final(pm).kernel_num() == old(pm).kernel_num(),
            final(pm).user_start() == old(pm).user_start(),
            final(pm).page_size_spec() == old(pm).page_size_spec(),
            r ==> final(self).translate(virtual_addr).is_some() && final(self).translate(virtual_addr).unwrap().bits() == leaf_bits(physic_addr as u64, 10u64),
            forall|va2: usize|
                !same_page(virtual_addr, va2) || !r ==> #[trigger] final(self).translate(va2)
                    == old(self).translate(va2),
            free_kernel_pages(*final(pm)) <= free_kernel_pages(*old(pm)) <= free_kernel_pages(*final(pm)) + 2,
            old(pm).page_size_spec() == 4096 && clear_of(*old(self), *old(pm)) ==> clear_of(*final(self), *final(pm)),
            old(pm).page_size_spec() == 4096 && free_kernel_pages(*old(pm)) >= 2 && clear_of(*old(self), *old(pm)) ==> r,
    {
        assert(2u64 | 8u64 == 10u64) by (bit_vector);
        self.map(pm, virtual_addr, physic_addr, PageBit::Read.val() | PageBit::Excute.val())
    }

    /// Maps a user data page, readable, writable and open to user mode.
    pub fn map_user_data(&mut self, pm: &mut PageManager, virtual_addr: usize, physic_addr: usize) -> (r:
        bool)
        requires
            old(self).wf(),
            old(self).frames().len() > 0,
            old(pm).wf(),
        ensures
            kernel_run_kept(*old(pm), *final(pm), 2),
            user_pages_kept(*old(pm), *final(pm)),
            final(self).wf(),
            final(self).frames().len() > 0,
            final(self).root() == old(self).root(),
            final(pm).wf(),
            final(pm).kernel_base() == old(pm).kernel_base(),
            final(pm).kernel_num() == old(pm).kernel_num(),
            final(pm).user_start() == old(pm).user_start(),
            final(pm).page_size_spec() == old(pm).page_size_spec(),
            r ==> final(self).translate(virtual_addr).is_some() && final(self).translate(virtual_addr).unwrap().bits() == leaf_bits(physic_addr as u64, 22u64),
            forall|va2: usize|
                !same_page(virtual_addr, va2) || !r ==> #[trigger] final(self).translate(va2)
                    == old(self).translate(va2),
            free_kernel_pages(*final(pm)) <= free_kernel_pages(*old(pm)) <= free_kernel_pages(*final(pm)) + 2,
            old(pm).page_size_spec() == 4096 && clear_of(*old(self), *old(pm)) ==> clear_of(*final(self), *final(pm)),
            old(pm).page_size_spec() == 4096 && free_kernel_pages(*old(pm)) >= 2 && clear_of(*old(self), *old(pm)) ==> r,
    {
        assert(2u64 | 4u64 | 16u64 == 22u64) by (bit_vector);
        self.map(
            pm,
            virtual_addr,
            physic_addr,
            PageBit::Read.val() | PageBit::Write.val() | PageBit::User.val(),
        )
    }

    /// Maps a user code page, readable, executable and open to user mode.
    pub fn map_user_code(&mut self, pm: &mut PageManager, virtual_addr: usize, physic_addr: usize) -> (r:
        bool)
        requires
            old(self).wf(),
            old(self).frames().len() > 0,
            old(pm).wf(),
        ensures
            kernel_run_kept(*old(pm), *final(pm), 2),
            user_pages_kept(*old(pm), *final(pm)),
            final(self).wf(),
            final(self).frames().len() > 0,
            final(self).root() == old(self).root(),
            final(pm).wf(),
            final(pm).kernel_base() == old(pm).kernel_base(),
            final(pm).kernel_num() == old(pm).kernel_num(),
            final(pm).user_start() == old(pm).user_start(),
            final(pm).page_size_spec() == old(pm).page_size_spec(),
            r ==> final(self).translate(virtual_addr).is_some() && final(self).translate(virtual_addr).unwrap().bits() == leaf_bits(physic_addr as u64, 26u64),
            forall|va2: usize|
                !same_page(virtual_addr, va2) || !r ==> #[trigger] final(self).translate(va2)
                    == old(self).translate(va2),
            free_kernel_pages(*final(pm)) <= free_kernel_pages(*old(pm)) <= free_kernel_pages(*final(pm)) + 2,
            old(pm).page_size_spec() == 4096 && clear_of(*old(self), *old(pm)) ==> clear_of(*final(self), *final(pm)),
            old(pm).page_size_spec() == 4096 && free_kernel_pages(*old(pm)) >= 2 && clear_of(*old(self), *old(pm)) ==> r,
    {
        assert(2u64 | 16u64 | 8u64 == 26u64) by (bit_vector);
        self.map(
            pm,
            virtual_addr,
            physic_addr,
            PageBit::Read.val() | PageBit::User.val() | PageBit::Excute.val(),
        )
    }

    /// Maps a user page with every permission.
    pub fn map_user(&mut self, pm: &mut PageManager, virtual_addr: usize, physic_addr: usize) -> (r:
        bool)
        requires
            old(self).wf(),
            old(self).frames().len() > 0,
            old(pm).wf(),
        ensures
            kernel_run_kept(*old(pm), *final(pm), 2),
            user_pages_kept(*old(pm), *final(pm)),
            final(self).wf(),
            final(self).frames().len() > 0,
            final(self).root() == old(self).root(),
            final(pm).wf(),
            final(pm).kernel_base() == old(pm).kernel_base(),
            final(pm).kernel_num() == old(pm).kernel_num(),
            final(pm).user_start() == old(pm).user_start(),
            final(pm).page_size_spec() == old(pm).page_size_spec(),
            r ==> final(self).translate(virtual_addr).is_some() && final(self).translate(virtual_addr).unwrap().bits() == leaf_bits(physic_addr as u64, 30u64),
            forall|va2: usize|
                !same_page(virtual_addr, va2) || !r ==> #[trigger] final(self).translate(va2)
                    == old(self).translate(va2),
            free_kernel_pages(*final(pm)) <= free_kernel_pages(*old(pm)) <= free_kernel_pages(*final(pm)) + 2,
            old(pm).page_size_spec() == 4096 && clear_of(*old(self), *old(pm)) ==> clear_of(*final(self), *final(pm)),
            old(pm).page_size_spec() == 4096 && free_kernel_pages(*old(pm)) >= 2 && clear_of(*old(self), *old(pm)) ==> r,
    {
        assert(2u64 | 16u64 | 8u64 | 4u64 == 30u64) by (bit_vector);
        self.map(
            pm,
            virtual_addr,
            physic_addr,
            PageBit::Read.val() | PageBit::User.val() | PageBit::Excute.val()
                | PageBit::Write.val(),
        )
    }

    /// The frames that the valid entries of table `k` point at, from entry
    /// `j` on, in entry order.
    pub closed spec fn targets_from(&self, k: int, j: int) -> Seq<usize>
        decreases 512 - j,
    {
        if j >= 512 || j < 0 {
            Seq::empty()
        } else {
            let e = self.slot(k, j);
            let rest = self.targets_from(k, j + 1);
            if bits_valid(e.bits()) {
                seq![target_of(e.bits())].add(rest)
            } else {
                rest
            }
        }
    }

    /// The frames that freeing the tree gives back from root entry `i` on:
    /// for each valid root entry, the frames its table points at, then the
    /// frame of that table.
    pub closed spec fn frees_from(&self, i: int) -> Seq<usize>
        decreases 512 - i,
    {
        if i >= 512 || i < 0 {
            Seq::empty()
        } else {
            let e = self.slot(0, i);
            let rest = self.frees_from(i + 1);
            if bits_valid(e.bits()) {
                self.targets_from(self.index_of(target_of(e.bits())), 0).push(
                    target_of(e.bits()),
                ).add(rest)
            } else {
                rest
            }
        }
    }

    /// The frames that freeing the whole tree gives back, in order: the
    /// tables below the root (each middle table after the tables it points
    /// at), then the root.
    pub closed spec fn free_list(&self) -> Seq<usize> {
        if self.tables@.len() == 0 {
            Seq::empty()
        } else {
            self.frees_from(0).push(self.tables@[0])
        }
    }

    /// The frames that the valid entries of table `k` point at, in order.
    fn collect_targets(&self, k: usize, out: &mut Vec<usize>)
        requires
            self.wf(),
            k < self.tables@.len(),
        ensures
            final(out)@ == old(out)@.add(self.targets_from(k as int, 0)),
    {
        let len = self.entry.len();
        let mut j: usize = 512;
        let ghost start = old(out)@;
        let mut acc: Vec<usize> = Vec::new();
        // walk from the last entry down so that the tail is known
        while j > 0
            invariant
                self.wf(),
                k < self.tables@.len(),
                len == self.entry@.len(),
                j <= 512,
                acc@ == self.targets_from(k as int, j as int),
            decreases j,
        {
            j -= 1;
            proof {
                assert(k * 512 + j < self.tables@.len() * 512) by (nonlinear_arith)
                    requires
                        k < self.tables@.len(),
                        j < 512,
                ;
            }
            let e = self.entry[k * ENTRY_NUM + j];
            assert(e == self.slot(k as int, j as int));
            if e.is_valid() {
                let mut next: Vec<usize> = Vec::new();
                next.push(e.get_ppn());
                let mut t: usize = 0;
                let ghost a0 = acc@;
                while t < acc.len()
                    invariant
                        next@ == seq![target_of(e.bits())].add(a0.subrange(0, t as int)),
                        t <= acc@.len(),
                        acc@ == a0,
                    decreases acc@.len() - t,
                {
                    next.push(acc[t]);
                    t += 1;
                    proof {
                        assert(a0.subrange(0, t as int) == a0.subrange(0, t - 1).push(a0[t - 1]));
                    }
                }
                assert(a0.subrange(0, a0.len() as int) == a0);
                acc = next;
            }
        }
        let mut t: usize = 0;
        let ghost o0 = out@;
        while t < acc.len()
            invariant
                out@ == o0.add(acc@.subrange(0, t as int)),
                t <= acc@.len(),
            decreases acc@.len() - t,
        {
            out.push(acc[t]);
            t += 1;
            proof {
                assert(acc@.subrange(0, t as int) == acc@.subrange(0, t - 1).push(acc@[t - 1]));
            }
        }
        assert(acc@.subrange(0, acc@.len() as int) == acc@);
    }

    /// Empties the tree and gives back the frames of its tables in the
    /// order they are to be freed (see `free_list`).
    pub fn free(&mut self) -> (r: Vec<usize>)
        requires
            old(self).wf(),
        ensures
            r@ == old(self).free_list(),
            final(self).wf(),
            final(self).frames().len() == 0,
    {
        let mut out: Vec<usize> = Vec::new();
        if self.tables.len() == 0 {
            return out;
        }
        let len = self.entry.len();
        let mut i: usize = 512;
        let mut acc: Vec<usize> = Vec::new();
        while i > 0
            invariant
                self.wf(),
                self.tables@.len() > 0,
                len == self.entry@.len(),
                i <= 512,
                acc@ == self.frees_from(i as int),
            decreases i,
        {
            i -= 1;
            let e = self.entry[i];
            assert(e == self.slot(0, i as int));
            if e.is_valid() {
                let target = e.get_ppn();
                let mut part: Vec<usize> = Vec::new();
                proof {
                    assert(self.level(0) == 0);
                    assert(self.points_down(0, i as int));
                    self.lemma_index_of_range(target);
                }
                match self.find(target) {
                    Some(kt) => {
                        self.collect_targets(kt, &mut part);
                    },
                    None => {
                        assert(false);
                    },
                }
                part.push(target);
                let mut t: usize = 0;
                let ghost a0 = acc@;
                let ghost p0 = part@;
                while t < acc.len()
                    invariant
                        part@ == p0.add(a0.subrange(0, t as int)),
                        t <= acc@.len(),
                        acc@ == a0,
                    decreases acc@.len() - t,
                {
                    part.push(acc[t]);
                    t += 1;
                    proof {
                        assert(a0.subrange(0, t as int) == a0.subrange(0, t - 1).push(a0[t - 1]));
                    }
                }
                assert(a0.subrange(0, a0.len() as int) == a0);
                acc = part;
            }
        }
        let root = self.tables[0];
        acc.push(root);
        *self = PageTable::empty();
        acc
    }

    /// A page table without tables gives back nothing.
    pub proof fn lemma_free_list_empty(&self)
        requires
            self.frames().len() == 0,
        ensures
            self.free_list() == Seq::<usize>::empty(),
    {
    }

    /// A page table without tables translates nothing.
    pub proof fn lemma_translate_empty(&self, va: usize)
        requires
            self.frames().len() == 0,
        ensures
            self.translate(va).is_none(),
    {
    }

    /// The bits of the leaf entry that the tree gives for `va`.
    pub open spec fn translate_bits(&self, va: usize) -> Option<u64> {
        match self.translate(va) {
            Some(e) => Some(e.bits()),
            None => None,
        }
    }

    /// This table translates like `old` with the writes `ws` made on top of
    /// it, one after the other.
    pub open spec fn written_over(&self, old: PageTable, ws: Seq<MapWrite>) -> bool {
        forall|va: usize|
            #[trigger] self.translate_bits(va) == match last_write(ws, va) {
                Some(b) => Some(b),
                None => old.translate_bits(va),
            }
    }
}

/// Any table translates like itself with no write made.
pub proof fn lemma_written_over_none(t: PageTable)
    ensures
        t.written_over(t, Seq::empty()),
{
}


proof fn lemma_last_write_concat(w1: Seq<MapWrite>, w2: Seq<MapWrite>, va: usize)
    ensures
        last_write(w1 + w2, va) == match last_write(w2, va) {
            Some(b) => Some(b),
            None => last_write(w1, va),
        },
    decreases w2.len(),
{
    if w2.len() == 0 {
        assert(w1 + w2 =~= w1);
    } else {
        assert((w1 + w2).drop_last() =~= w1 + w2.drop_last());
        assert((w1 + w2).last() == w2.last());
        lemma_last_write_concat(w1, w2.drop_last(), va);
    }
}

/// Writes made on top of writes: the table is built from both, the
/// earlier ones first.
pub proof fn lemma_written_over_trans(
    a: PageTable,
    mid: PageTable,
    new: PageTable,
    w1: Seq<MapWrite>,
    w2: Seq<MapWrite>,
)
    requires
        mid.written_over(a, w1),
        new.written_over(mid, w2),
    ensures
        new.written_over(a, w1 + w2),
{
    assert forall|va: usize| #[trigger] new.translate_bits(va) == match last_write(w1 + w2, va) {
        Some(b) => Some(b),
        None => a.translate_bits(va),
    } by {
        lemma_last_write_concat(w1, w2, va);
        assert(mid.translate_bits(va) == match last_write(w1, va) {
            Some(b) => Some(b),
            None => a.translate_bits(va),
        });
        assert(new.translate_bits(va) == match last_write(w2, va) {
            Some(b) => Some(b),
            None => mid.translate_bits(va),
        });
    }
}

/// A successful mapping extends the writes a table has been built from.
pub proof fn lemma_written_over_step(
    old: PageTable,
    mid: PageTable,
    new: PageTable,
    ws: Seq<MapWrite>,
    va: usize,
    pa: usize,
    flag: u64,
)
    requires
        mid.written_over(old, ws),
        new.translate(va).is_some(),
        new.translate(va).unwrap().bits() == leaf_bits(pa as u64, flag),
        forall|va2: usize| !same_page(va, va2) ==> #[trigger] new.translate(va2) == mid.translate(va2),
    ensures
        new.written_over(old, ws.push((va, pa, flag))),
{
    let ws2 = ws.push((va, pa, flag));
    assert forall|v: usize| #[trigger] new.translate_bits(v) == match last_write(ws2, v) {
        Some(b) => Some(b),
        None => old.translate_bits(v),
    } by {
        assert(ws2.drop_last() =~= ws);
        if same_page(va, v) {
            assert(vpn(va, 2) == vpn(v, 2) && vpn(va, 1) == vpn(v, 1) && vpn(va, 0) == vpn(v, 0));
            assert(new.translate(v) == new.translate(va));
        } else {
            assert(new.translate(v) == mid.translate(v));
            assert(mid.translate_bits(v) == match last_write(ws, v) {
                Some(b) => Some(b),
                None => old.translate_bits(v),
            });
        }
    }
}

} // verus!
