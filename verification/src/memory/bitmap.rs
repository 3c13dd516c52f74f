//! A bitmap of allocated blocks: one bit per block, set while the block is
//! in use, eight blocks per byte.

use vstd::prelude::*;

verus! {

/// Bit `t` (0 to 7) of byte `b`.
pub open spec fn byte_bit(b: u8, t: int) -> bool {
    (b >> (t as u8)) & 1u8 == 1u8
}

/// Blocks in `[0, n)` whose bit is clear.
pub open spec fn count_clear(s: Seq<bool>, n: int) -> nat
    decreases n,
{
    if n <= 0 {
        0
    } else {
        count_clear(s, n - 1) + if s[n - 1] { 0nat } else { 1nat }
    }
}

pub(crate) proof fn lemma_count_clear_update(s: Seq<bool>, n: int, i: int, v: bool)
    requires
        0 <= i < n <= s.len(),
    ensures
        count_clear(s.update(i, v), n) + (if s[i] { 0int } else { 1int }) == count_clear(s, n) + (
        if v { 0int } else { 1int }),
    decreases n,
{
    if n - 1 == i {
        assert(count_clear(s.update(i, v), n - 1) == count_clear(s, n - 1)) by {
            lemma_count_clear_prefix(s, s.update(i, v), n - 1);
        }
    } else {
        lemma_count_clear_update(s, n - 1, i, v);
    }
}

proof fn lemma_count_clear_prefix(a: Seq<bool>, b: Seq<bool>, n: int)
    requires
        0 <= n <= a.len(),
        n <= b.len(),
        forall|j: int| 0 <= j < n ==> a[j] == b[j],
    ensures
        count_clear(a, n) == count_clear(b, n),
    decreases n,
{
    if n > 0 {
        lemma_count_clear_prefix(a, b, n - 1);
    }
}

pub(crate) proof fn lemma_count_clear_bound(s: Seq<bool>, n: int)
    requires
        0 <= n,
    ensures
        count_clear(s, n) <= n,
    decreases n,
{
    if n > 0 {
        lemma_count_clear_bound(s, n - 1);
    }
}

proof fn lemma_count_clear_zero(s: Seq<bool>, n: int)
    requires
        0 <= n <= s.len(),
        count_clear(s, n) == 0,
    ensures
        forall|j: int| 0 <= j < n ==> s[j],
    decreases n,
{
    if n > 0 {
        lemma_count_clear_zero(s, n - 1);
    }
}

pub(crate) proof fn lemma_count_clear_all_set(s: Seq<bool>, n: int)
    requires
        0 <= n <= s.len(),
        forall|j: int| 0 <= j < n ==> s[j],
    ensures
        count_clear(s, n) == 0,
    decreases n,
{
    if n > 0 {
        lemma_count_clear_all_set(s, n - 1);
    }
}

proof fn lemma_set_bit(b: u8, s: u8, t: u8)
    requires
        s < 8,
        t < 8,
    ensures
        ((b | (1u8 << s)) >> t) & 1u8 == if s == t { 1u8 } else { (b >> t) & 1u8 },
{
    assert(((b | (1u8 << s)) >> t) & 1u8 == if s == t { 1u8 } else { (b >> t) & 1u8 })
        by (bit_vector)
        requires
            s < 8u8,
            t < 8u8,
    ;
}

proof fn lemma_clear_bit(b: u8, s: u8, t: u8)
    requires
        s < 8,
        t < 8,
    ensures
        ((b & !(1u8 << s)) >> t) & 1u8 == if s == t { 0u8 } else { (b >> t) & 1u8 },
{
    assert(((b & !(1u8 << s)) >> t) & 1u8 == if s == t { 0u8 } else { (b >> t) & 1u8 })
        by (bit_vector)
        requires
            s < 8u8,
            t < 8u8,
    ;
}

proof fn lemma_test_bit(b: u8, t: u8)
    requires
        t < 8,
    ensures
        (b & (1u8 << t) != 0) == ((b >> t) & 1u8 == 1u8),
{
    assert((b & (1u8 << t) != 0) == ((b >> t) & 1u8 == 1u8)) by (bit_vector)
        requires
            t < 8u8,
    ;
}

proof fn lemma_zero_byte(t: u8)
    requires
        t < 8,
    ensures
        (0u8 >> t) & 1u8 == 0u8,
{
    assert((0u8 >> t) & 1u8 == 0u8) by (bit_vector);
}

/// The bitmap: `total_cnt` blocks, `free_cnt` of them free and `use_cnt` in
/// use; every block below `search_idx` is in use.
#[derive(Debug)]
pub struct Bitmap {
    pub bits: Vec<u8>,
    pub total_cnt: usize,
    pub free_cnt: usize,
    pub use_cnt: usize,
    pub search_idx: usize,
}

impl Bitmap {
    /// Whether each block is in use.
    pub open spec fn view(&self) -> Seq<bool> {
        Seq::new(
            self.total_cnt as nat,
            |i: int| byte_bit(self.bits@[i / 8], i % 8),
        )
    }

    /// The counters agree with the bits and every block below `search_idx`
    /// is in use.
    pub open spec fn wf(&self) -> bool {
        &&& self.total_cnt <= self.bits@.len() * 8
        &&& self.free_cnt + self.use_cnt == self.total_cnt
        &&& self.free_cnt == count_clear(self.view(), self.total_cnt as int)
        &&& self.search_idx <= self.total_cnt
        &&& forall|j: int| 0 <= j < self.search_idx ==> #[trigger] self.view()[j]
    }

    /// An empty bitmap of no block.
    pub fn empty() -> (r: Self)
        ensures
            r.wf(),
            r.total_cnt == 0,
            r.free_cnt == 0,
            r.use_cnt == 0,
            r.search_idx == 0,
    {
        Bitmap { bits: Vec::new(), total_cnt: 0, free_cnt: 0, use_cnt: 0, search_idx: 0 }
    }

    /// Marks block `idx` as in use.
    fn write_bitmap(&mut self, idx: usize)
        requires
            idx < old(self).total_cnt,
            old(self).total_cnt <= old(self).bits@.len() * 8,
        ensures
            final(self).view() == old(self).view().update(idx as int, true),
            final(self).total_cnt == old(self).total_cnt,
            final(self).free_cnt == old(self).free_cnt,
            final(self).use_cnt == old(self).use_cnt,
            final(self).search_idx == old(self).search_idx,
            final(self).bits@.len() == old(self).bits@.len(),
    {
        let byte = self.bits[idx / 8];
        let sh = (idx % 8) as u8;
        self.bits.set(idx / 8, byte | (1u8 << sh));
        proof {
            let v = self.view();
            let o = old(self).view();
            assert forall|j: int| 0 <= j < v.len() implies v[j] == o.update(idx as int, true)[j] by {
                lemma_set_bit(byte, sh, (j % 8) as u8);
                if j / 8 != idx / 8 {
                    assert(self.bits@[j / 8] == old(self).bits@[j / 8]);
                }
            }
            assert(v =~= o.update(idx as int, true));
        }
    }

    /// Whether block `idx` is in use.
    pub(crate) fn is_bit_alloc(&self, idx: usize) -> (r: bool)
        requires
            idx < self.total_cnt,
            self.total_cnt <= self.bits@.len() * 8,
        ensures
            r == self.view()[idx as int],
    {
        let sh = (idx % 8) as u8;
        proof {
            lemma_test_bit(self.bits@[(idx / 8) as int], sh);
        }
        self.bits[idx / 8] & (1u8 << sh) != 0
    }

    /// Sets the bitmap up for `total_cnt` blocks of which the last
    /// `free_cnt` are free: the first `total_cnt - free_cnt` blocks are
    /// marked in use, and the search starts at a eighth of their number.
    pub fn init(&mut self, total_cnt: usize, free_cnt: usize)
        requires
            free_cnt <= total_cnt,
            total_cnt + 7 <= usize::MAX,
        ensures
            final(self).wf(),
            final(self).total_cnt == total_cnt,
            final(self).free_cnt == free_cnt,
            final(self).use_cnt == total_cnt - free_cnt,
            final(self).search_idx == (total_cnt - free_cnt) / 8,
            forall|j: int|
                0 <= j < total_cnt ==> #[trigger] final(self).view()[j] == (j < total_cnt
                    - free_cnt),
    {
        self.use_cnt = total_cnt - free_cnt;
        self.search_idx = self.use_cnt / 8;
        self.free_cnt = free_cnt;
        self.total_cnt = total_cnt;
        let nbytes = (total_cnt + 7) / 8;
        let mut bits: Vec<u8> = Vec::new();
        let mut b: usize = 0;
        while b < nbytes
            invariant
                b <= nbytes,
                bits@.len() == b,
                forall|j: int| 0 <= j < b ==> bits@[j] == 0u8,
            decreases nbytes - b,
        {
            bits.push(0u8);
            b += 1;
        }
        self.bits = bits;
        proof {
            assert forall|j: int| 0 <= j < total_cnt implies !#[trigger] self.view()[j] by {
                lemma_zero_byte((j % 8) as u8);
            }
        }
        let used = self.total_cnt - self.free_cnt;
        let mut i: usize = 0;
        while i < used
            invariant
                i <= used,
                used == total_cnt - free_cnt,
                self.total_cnt == total_cnt,
                self.free_cnt == free_cnt,
                self.use_cnt == used,
                self.search_idx == used / 8,
                self.total_cnt <= self.bits@.len() * 8,
                forall|j: int| 0 <= j < total_cnt ==> #[trigger] self.view()[j] == (j < i),
            decreases used - i,
        {
            self.write_bitmap(i);
            i += 1;
        }
        proof {
            let v = self.view();
            assert forall|j: int| 0 <= j < total_cnt implies #[trigger] v[j] == (j < used) by {
            }
            lemma_count_clear_split(v, used as int, total_cnt as int);
        }
    }

    /// Allocates the lowest free block: `None` when every block is in use.
    pub fn alloc_bitmap(&mut self) -> (r: Option<usize>)
        requires
            old(self).wf(),
        ensures
            final(self).wf(),
            final(self).total_cnt == old(self).total_cnt,
            match r {
                Some(i) => {
                    &&& i < old(self).total_cnt
                    &&& !old(self).view()[i as int]
                    &&& forall|j: int| 0 <= j < i ==> #[trigger] old(self).view()[j]
                    &&& final(self).view() == old(self).view().update(i as int, true)
                    &&& final(self).free_cnt == old(self).free_cnt - 1
                    &&& final(self).use_cnt == old(self).use_cnt + 1
                },
                None => {
                    &&& old(self).free_cnt == 0
                    &&& *final(self) == *old(self)
                },
            },
    {
        let mut i = self.search_idx;
        while i < self.total_cnt
            invariant
                self.wf(),
                *self == *old(self),
                self.search_idx <= i <= self.total_cnt,
                forall|j: int| 0 <= j < i ==> #[trigger] self.view()[j],
            decreases self.total_cnt - i,
        {
            if !self.is_bit_alloc(i) {
                let ghost before = self.view();
                proof {
                    lemma_count_clear_update(before, self.total_cnt as int, i as int, true);
                    lemma_count_clear_bound(before, self.total_cnt as int);
                }
                self.write_bitmap(i);
                self.free_cnt -= 1;
                self.use_cnt += 1;
                self.search_idx += 1;
                proof {
                    assert forall|j: int| 0 <= j < self.search_idx implies #[trigger] self.view()[j] by {
                        if j != i {
                            assert(before[j]);
                        }
                    }
                }
                return Some(i);
            }
            i += 1;
        }
        proof {
            lemma_count_clear_all_set(self.view(), self.total_cnt as int);
        }
        None
    }

    /// Frees block `idx`, which must be in use; the search restarts at it
    /// when it lies below the search start.
    pub fn free(&mut self, idx: usize)
        requires
            old(self).wf(),
            idx < old(self).total_cnt,
            old(self).view()[idx as int],
        ensures
            final(self).wf(),
            final(self).total_cnt == old(self).total_cnt,
            final(self).view() == old(self).view().update(idx as int, false),
            final(self).free_cnt == old(self).free_cnt + 1,
            final(self).use_cnt == old(self).use_cnt - 1,
            final(self).search_idx == if idx < old(self).search_idx {
                idx
            } else {
                old(self).search_idx
            },
    {
        let ghost before = self.view();
        proof {
            lemma_count_clear_update(before, self.total_cnt as int, idx as int, false);
            lemma_count_clear_bound(before.update(idx as int, false), self.total_cnt as int);
        }
        if idx < self.search_idx {
            self.search_idx = idx;
        }
        let byte = self.bits[idx / 8];
        let sh = (idx % 8) as u8;
        self.bits.set(idx / 8, byte & !(1u8 << sh));
        self.free_cnt += 1;
        self.use_cnt -= 1;
        proof {
            let v = self.view();
            let o = before;
            assert forall|j: int| 0 <= j < v.len() implies v[j] == o.update(idx as int, false)[j] by {
                lemma_clear_bit(byte, sh, (j % 8) as u8);
                if j / 8 != idx / 8 {
                    assert(self.bits@[j / 8] == old(self).bits@[j / 8]);
                }
            }
            assert(v =~= o.update(idx as int, false));
            assert forall|j: int| 0 <= j < self.search_idx implies #[trigger] self.view()[j] by {
                assert(before[j]);
            }
        }
    }
}

pub(crate) proof fn lemma_count_clear_split(v: Seq<bool>, used: int, n: int)
    requires
        0 <= used <= n <= v.len(),
        forall|j: int| 0 <= j < n ==> #[trigger] v[j] == (j < used),
    ensures
        count_clear(v, n) == n - used,
    decreases n,
{
    if n > used {
        lemma_count_clear_split(v, used, n - 1);
    } else if n > 0 {
        lemma_count_clear_all_set(v, n);
    }
}

/// Freeing the block that an allocation handed out gives back the bits and
/// the counters that the allocation found.
pub proof fn lemma_free_undoes_alloc(before: Bitmap, allocated: Bitmap, freed: Bitmap, i: int)
    requires
        before.wf(),
        0 <= i < before.total_cnt,
        !before.view()[i],
        allocated.view() == before.view().update(i, true),
        allocated.free_cnt == before.free_cnt - 1,
        allocated.use_cnt == before.use_cnt + 1,
        freed.view() == allocated.view().update(i, false),
        freed.free_cnt == allocated.free_cnt + 1,
        freed.use_cnt == allocated.use_cnt - 1,
    ensures
        freed.view() == before.view(),
        freed.free_cnt == before.free_cnt,
        freed.use_cnt == before.use_cnt,
{
    assert(freed.view() =~= before.view());
}

} // verus!
