//! Physical page management.
//!
//! Memory is cut into pages of `page_size` bytes. Each page has a flag byte:
//! zero when the page is free, `Taken` when it is in use, and `End` on the
//! last page of each allocation, so that a free walks from the first page of
//! an allocation up to its end marker. Kernel pages come first, user pages
//! follow them in the same flag array.

use vstd::prelude::*;

verus! {

/// The flag byte of one physical page.
#[derive(Clone, Copy, Debug, PartialEq, Eq)]
pub struct Page {
    pub flag: u8,
}

/// The bits of a page flag.
#[derive(Clone, Copy, Debug, PartialEq, Eq)]
pub enum PageBit {
    Taken,
    End,
}

/// The bit that a `PageBit` stands for.
pub open spec fn page_bit_value(b: PageBit) -> u8 {
    match b {
        PageBit::Taken => 1,
        PageBit::End => 2,
    }
}

impl PageBit {
    /// The bit value of this flag.
    pub fn val(self) -> (v: u8)
        ensures
            v == page_bit_value(self),
    {
        match self {
            PageBit::Taken => 1,
            PageBit::End => 2,
        }
    }
}

/// Whether a page flag carries the end marker.
pub open spec fn flag_is_end(flag: u8) -> bool {
    flag & 2 != 0
}

impl Page {
    /// Marks the page as taken (clearing any end marker).
    pub fn take(&mut self)
        ensures
            final(self).flag == 1,
    {
        self.flag = PageBit::Taken.val();
    }

    /// Adds the end marker to the page.
    pub fn end(&mut self)
        ensures
            final(self).flag == old(self).flag | 2,
    {
        self.flag = self.flag | PageBit::End.val();
    }

    /// Whether the page is free.
    pub fn is_free(&self) -> (r: bool)
        ensures
            r == (self.flag == 0),
    {
        self.flag == 0
    }

    /// Marks the page as free.
    pub fn free(&mut self)
        ensures
            final(self).flag == 0,
    {
        self.flag = 0;
    }

    /// Whether the page carries the end marker.
    pub fn is_end(&self) -> (r: bool)
        ensures
            r == flag_is_end(self.flag),
    {
        self.flag & PageBit::End.val() != 0
    }
}

/// `x` rounded up to a multiple of `size`.
pub open spec fn round_up(x: int, size: int) -> int {
    (x + size - 1) / size * size
}

/// All pages in `[s, s + num)` are free.
pub open spec fn run_free(pages: Seq<Page>, s: int, num: int) -> bool {
    forall|j: int| s <= j < s + num ==> #[trigger] pages[j].flag == 0
}

/// `num` free pages start at `s`, inside `[lo, hi)`.
pub open spec fn fits_at(pages: Seq<Page>, lo: int, hi: int, num: int, s: int) -> bool {
    lo <= s && s + num <= hi && run_free(pages, s, num)
}

/// `s` is the lowest start of `num` free pages inside `[lo, hi)`.
pub open spec fn is_first_fit(pages: Seq<Page>, lo: int, hi: int, num: int, s: int) -> bool {
    fits_at(pages, lo, hi, num, s) && forall|t: int| lo <= t < s ==> !#[trigger] fits_at(pages, lo, hi, num, t)
}

/// The flags after the pages `[s, s + num)` are taken, the last one with the
/// end marker.
pub open spec fn taken_run(pages: Seq<Page>, s: int, num: int) -> Seq<Page> {
    Seq::new(
        pages.len(),
        |j: int|
            if s <= j < s + num - 1 {
                Page { flag: 1 }
            } else if j == s + num - 1 {
                Page { flag: 3 }
            } else {
                pages[j]
            },
    )
}

/// `e` is the first page at or after `start` with the end marker.
pub open spec fn chain_end(pages: Seq<Page>, start: int, e: int) -> bool {
    &&& 0 <= start <= e < pages.len()
    &&& flag_is_end(pages[e].flag)
    &&& forall|j: int| start <= j < e ==> !flag_is_end(#[trigger] pages[j].flag)
}

/// The flags after the pages `[start, e]` are freed.
pub open spec fn freed_chain(pages: Seq<Page>, start: int, e: int) -> Seq<Page> {
    Seq::new(pages.len(), |j: int| if start <= j <= e { Page { flag: 0 } } else { pages[j] })
}

/// Where `num` pages come from: the lowest free run of kernel pages when
/// `is_kernel`, of user pages otherwise, at address `addr`.
pub open spec fn first_fit_at(pm: PageManager, is_kernel: bool, num: int, addr: int) -> bool {
    if is_kernel {
        exists|s: int|
            #[trigger] is_first_fit(pm.pages(), 0, pm.kernel_num(), num, s) && addr == pm.kernel_base() + s
                * pm.page_size_spec()
    } else {
        exists|s: int|
            #[trigger] is_first_fit(pm.pages(), pm.kernel_num(), pm.kernel_num() + pm.user_num(), num, s)
                && addr == pm.user_base() + (s - pm.kernel_num()) * pm.page_size_spec()
    }
}

/// Taking `num` pages of `pm0`, kernel pages when `is_kernel` and user
/// pages otherwise, gave `r` and left `pm1`: the lowest free run, at the
/// address `r`, is taken; `None` with nothing changed when no run is free.
pub open spec fn took_pages(pm0: PageManager, is_kernel: bool, num: int, pm1: PageManager, r: Option<usize>) -> bool {
    match r {
        Some(a) => first_fit_at(pm0, is_kernel, num, a as int) && exists|s: int|
            #![trigger taken_run(pm0.pages(), s, num)]
            pm1.pages() == taken_run(pm0.pages(), s, num) && if is_kernel {
                is_first_fit(pm0.pages(), 0, pm0.kernel_num(), num, s) && a == pm0.kernel_base() + s
                    * pm0.page_size_spec()
            } else {
                is_first_fit(pm0.pages(), pm0.kernel_num(), pm0.kernel_num() + pm0.user_num(), num, s)
                    && a == pm0.user_base() + (s - pm0.kernel_num()) * pm0.page_size_spec()
            },
        None => pm1.pages() == pm0.pages() && no_fit(pm0, is_kernel, num),
    }
}

/// The address a page request gave, or 0 when it gave none.
pub open spec fn addr_or_zero(r: Option<usize>) -> usize {
    match r {
        Some(a) => a,
        None => 0,
    }
}

/// The run of pages a request gives starts on a page boundary.
pub proof fn lemma_took_aligned(pm0: PageManager, is_kernel: bool, num: int, pm1: PageManager, r: Option<usize>)
    requires
        pm0.wf(),
        took_pages(pm0, is_kernel, num, pm1, r),
    ensures
        r matches Some(a) ==> (a as int) % pm0.page_size_spec() == 0,
{
    if let Some(a) = r {
        let ps = pm0.page_size_spec();
        let s = choose|s: int|
            #![trigger taken_run(pm0.pages(), s, num)]
            pm1.pages() == taken_run(pm0.pages(), s, num) && if is_kernel {
                is_first_fit(pm0.pages(), 0, pm0.kernel_num(), num, s) && a == pm0.kernel_base() + s * ps
            } else {
                is_first_fit(pm0.pages(), pm0.kernel_num(), pm0.kernel_num() + pm0.user_num(), num, s)
                    && a == pm0.user_base() + (s - pm0.kernel_num()) * ps
            };
        pm0.lemma_aligned();
        let q = if is_kernel { s } else { s - pm0.kernel_num() };
        let base = if is_kernel { pm0.kernel_base() } else { pm0.user_base() };
        assert(a == ps * q + base) by (nonlinear_arith)
            requires
                a == base + q * ps,
        ;
        vstd::arithmetic::div_mod::lemma_mod_multiples_vanish(q, base, ps);
    }
}

/// `pm1` has the layout of `pm0` and its pages from the first user page
/// on.
pub open spec fn user_pages_kept(pm0: PageManager, pm1: PageManager) -> bool {
    &&& pm1.kernel_num() == pm0.kernel_num()
    &&& pm1.user_num() == pm0.user_num()
    &&& pm1.pages().len() == pm0.pages().len()
    &&& forall|j: int| pm0.kernel_num() <= j < pm0.pages().len() ==> #[trigger] pm1.pages()[j] == pm0.pages()[j]
}

/// With the user pages kept, runs of free user pages are where they were.
pub proof fn lemma_user_fit_kept(pm0: PageManager, pm1: PageManager, n: int)
    requires
        pm0.wf(),
        user_pages_kept(pm0, pm1),
        pm1.kernel_num() == pm0.kernel_num(),
        pm1.user_num() == pm0.user_num(),
    ensures
        no_fit(pm1, false, n) == no_fit(pm0, false, n),
{
    pm0.lemma_layout();
    pm0.lemma_user_layout();
    let kn = pm0.kernel_num();
    let hi = kn + pm0.user_num();
    assert forall|s: int| #[trigger] fits_at(pm1.pages(), kn, hi, n, s) == #[trigger] fits_at(pm0.pages(), kn, hi, n, s) by {
        if kn <= s && s + n <= hi {
            if run_free(pm0.pages(), s, n) {
                assert forall|j: int| s <= j < s + n implies #[trigger] pm1.pages()[j].flag == 0 by {
                    assert(pm1.pages()[j] == pm0.pages()[j]);
                }
            }
            if run_free(pm1.pages(), s, n) {
                assert forall|j: int| s <= j < s + n implies #[trigger] pm0.pages()[j].flag == 0 by {
                    assert(pm1.pages()[j] == pm0.pages()[j]);
                }
            }
        }
    }
    if no_fit(pm0, false, n) {
        assert forall|s: int| !#[trigger] fits_at(pm1.pages(), kn, hi, n, s) by {
            assert(!fits_at(pm0.pages(), kn, hi, n, s));
        }
    }
    if no_fit(pm1, false, n) {
        assert forall|s: int| !#[trigger] fits_at(pm0.pages(), kn, hi, n, s) by {
            assert(!fits_at(pm1.pages(), kn, hi, n, s));
        }
    }
}

/// Taking the lowest free kernel page leaves a run one page shorter of
/// any run of free kernel pages.
pub proof fn lemma_run_after_one(pages: Seq<Page>, kn: int, w: int, m: int, s: int)
    requires
        m >= 1,
        kn <= pages.len(),
        fits_at(pages, 0, kn, m, s),
        is_first_fit(pages, 0, kn, 1, w),
    ensures
        fits_at(taken_run(pages, w, 1), 0, kn, m - 1, if w == s { s + 1 } else { s }),
{
    assert(fits_at(pages, 0, kn, 1, s));
    assert(w <= s);
    let t = taken_run(pages, w, 1);
    let s2 = if w == s { s + 1 } else { s };
    assert forall|j: int| s2 <= j < s2 + m - 1 implies #[trigger] t[j].flag == 0 by {
        assert(j != w);
        assert(t[j] == pages[j]);
    }
}

/// Taking the lowest free kernel page of `pm0`, which gives `pm1`, leaves a
/// run one page shorter of any run of free kernel pages.
pub proof fn lemma_run_after_take(pm0: PageManager, pm1: PageManager, w: int, m: int)
    requires
        pm0.wf(),
        pm1.kernel_num() == pm0.kernel_num(),
        is_first_fit(pm0.pages(), 0, pm0.kernel_num(), 1, w),
        pm1.pages() == taken_run(pm0.pages(), w, 1),
        m >= 1,
        !no_fit(pm0, true, m),
    ensures
        !no_fit(pm1, true, m - 1),
{
    pm0.lemma_layout();
    let t = choose|t: int| #[trigger] fits_at(pm0.pages(), 0, pm0.kernel_num(), m, t);
    lemma_run_after_one(pm0.pages(), pm0.kernel_num(), w, m, t);
    let t2 = if w == t { t + 1 } else { t };
    assert(fits_at(pm1.pages(), 0, pm1.kernel_num(), m - 1, t2));
}

/// Every run of `m` free kernel pages of `pm0` leaves a run of `m - x`
/// in `pm1`.
pub open spec fn kernel_run_kept(pm0: PageManager, pm1: PageManager, x: int) -> bool {
    forall|m: int| m >= x && !#[trigger] no_fit(pm0, true, m) ==> !no_fit(pm1, true, m - x)
}

/// A run of free kernel pages holds shorter runs.
pub proof fn lemma_run_shorter(pm: PageManager, m: int, k: int)
    requires
        0 <= k <= m,
        !no_fit(pm, true, m),
    ensures
        !no_fit(pm, true, k),
{
    let t = choose|t: int| #[trigger] fits_at(pm.pages(), 0, pm.kernel_num(), m, t);
    assert(fits_at(pm.pages(), 0, pm.kernel_num(), k, t));
}

/// A run of free user pages holds shorter runs.
pub proof fn lemma_user_run_shorter(pm: PageManager, m: int, k: int)
    requires
        0 <= k <= m,
        !no_fit(pm, false, m),
    ensures
        !no_fit(pm, false, k),
{
    let hi = pm.kernel_num() + pm.user_num();
    let t = choose|t: int| #[trigger] fits_at(pm.pages(), pm.kernel_num(), hi, m, t);
    assert(fits_at(pm.pages(), pm.kernel_num(), hi, k, t));
}

/// Nothing taken keeps every run.
pub proof fn lemma_run_kept_same(pm0: PageManager, pm1: PageManager, x: int)
    requires
        x >= 0,
        pm1.pages() == pm0.pages(),
        pm1.kernel_num() == pm0.kernel_num(),
    ensures
        kernel_run_kept(pm0, pm1, x),
{
    assert forall|m: int| m >= x && !#[trigger] no_fit(pm0, true, m) implies !no_fit(pm1, true, m - x) by {
        lemma_run_shorter(pm0, m, m - x);
        let t = choose|t: int| #[trigger] fits_at(pm0.pages(), 0, pm0.kernel_num(), m - x, t);
        assert(fits_at(pm1.pages(), 0, pm1.kernel_num(), m - x, t));
    }
}

/// Runs kept over two steps are kept over both.
pub proof fn lemma_run_kept_trans(a: PageManager, b: PageManager, c: PageManager, x: int, y: int)
    requires
        x >= 0,
        y >= 0,
        kernel_run_kept(a, b, x),
        kernel_run_kept(b, c, y),
    ensures
        kernel_run_kept(a, c, x + y),
{
    assert forall|m: int| m >= x + y && !#[trigger] no_fit(a, true, m) implies !no_fit(c, true, m - (x + y)) by {
        assert(!no_fit(b, true, m - x));
    }
}

/// Runs kept with more taken are kept with less.
pub proof fn lemma_run_kept_more(a: PageManager, b: PageManager, x: int, y: int)
    requires
        0 <= x <= y,
        kernel_run_kept(a, b, x),
    ensures
        kernel_run_kept(a, b, y),
{
    assert forall|m: int| m >= y && !#[trigger] no_fit(a, true, m) implies !no_fit(b, true, m - y) by {
        lemma_run_shorter(b, m - x, m - y);
    }
}

/// Taking the lowest run of `num` free pages in `[lo, hi)` leaves a run
/// `num` pages shorter of any run there.
pub proof fn lemma_run_after_run(pages: Seq<Page>, lo: int, hi: int, num: int, s: int, m: int, t: int)
    requires
        1 <= num <= m,
        0 <= lo,
        hi <= pages.len(),
        is_first_fit(pages, lo, hi, num, s),
        fits_at(pages, lo, hi, m, t),
    ensures
        fits_at(taken_run(pages, s, num), lo, hi, m - num, if s + num > t { s + num } else { t }),
{
    assert(fits_at(pages, lo, hi, num, t));
    assert(s <= t);
    let q = taken_run(pages, s, num);
    let t2 = if s + num > t { s + num } else { t };
    assert forall|j: int| t2 <= j < t2 + (m - num) implies #[trigger] q[j].flag == 0 by {
        assert(!(s <= j < s + num));
        assert(0 <= j < pages.len());
        assert(q[j] == pages[j]);
    }
}

/// Taking a run of `num` pages of the kind `is_kernel` from `pm0` as the
/// lowest fit, which gives `pm1`, leaves a run `num` pages shorter of any
/// run of that kind.
pub proof fn lemma_fit_after_take(pm0: PageManager, pm1: PageManager, is_kernel: bool, num: int, s: int, m: int)
    requires
        pm0.wf(),
        pm1.kernel_num() == pm0.kernel_num(),
        pm1.user_num() == pm0.user_num(),
        1 <= num <= m,
        if is_kernel {
            is_first_fit(pm0.pages(), 0, pm0.kernel_num(), num, s)
        } else {
            is_first_fit(pm0.pages(), pm0.kernel_num(), pm0.kernel_num() + pm0.user_num(), num, s)
        },
        pm1.pages() == taken_run(pm0.pages(), s, num),
        !no_fit(pm0, is_kernel, m),
    ensures
        !no_fit(pm1, is_kernel, m - num),
{
    pm0.lemma_layout();
    pm0.lemma_user_layout();
    let kn = pm0.kernel_num();
    if is_kernel {
        let t = choose|t: int| #[trigger] fits_at(pm0.pages(), 0, kn, m, t);
        lemma_run_after_run(pm0.pages(), 0, kn, num, s, m, t);
        let t2 = if s + num > t { s + num } else { t };
        assert(fits_at(pm1.pages(), 0, pm1.kernel_num(), m - num, t2));
    } else {
        let hi = kn + pm0.user_num();
        let t = choose|t: int| #[trigger] fits_at(pm0.pages(), kn, hi, m, t);
        lemma_run_after_run(pm0.pages(), kn, hi, num, s, m, t);
        let t2 = if s + num > t { s + num } else { t };
        assert(fits_at(pm1.pages(), pm1.kernel_num(), pm1.kernel_num() + pm1.user_num(), m - num, t2));
    }
}

/// No run of `num` free kernel pages (when `is_kernel`) or user pages is
/// left.
pub open spec fn no_fit(pm: PageManager, is_kernel: bool, num: int) -> bool {
    if is_kernel {
        forall|s: int| !#[trigger] fits_at(pm.pages(), 0, pm.kernel_num(), num, s)
    } else {
        forall|s: int| !#[trigger] fits_at(pm.pages(), pm.kernel_num(), pm.kernel_num() + pm.user_num(), num, s)
    }
}

/// Free pages among the first `n` flags.
pub open spec fn count_free(pages: Seq<Page>, n: int) -> nat
    decreases n,
{
    if n <= 0 {
        0
    } else {
        count_free(pages, n - 1) + if pages[n - 1].flag == 0 {
            1nat
        } else {
            0nat
        }
    }
}

/// Number of free kernel pages.
pub open spec fn free_kernel_pages(pm: PageManager) -> nat {
    count_free(pm.pages(), pm.kernel_num())
}

/// Some page among the first `n` is free when the count says so.
pub proof fn lemma_free_page_exists(pages: Seq<Page>, n: int)
    requires
        count_free(pages, n) > 0,
    ensures
        exists|s: int| 0 <= s < n && #[trigger] pages[s].flag == 0,
    decreases n,
{
    if n > 0 && pages[n - 1].flag != 0 {
        lemma_free_page_exists(pages, n - 1);
    }
}

/// Taking one free page `s` among the first `n` leaves one free page less.
pub proof fn lemma_count_taken_one(pages: Seq<Page>, s: int, n: int)
    requires
        0 <= s < n <= pages.len(),
        pages[s].flag == 0,
    ensures
        count_free(taken_run(pages, s, 1), n) + 1 == count_free(pages, n),
    decreases n,
{
    let t = taken_run(pages, s, 1);
    if n - 1 > s {
        lemma_count_taken_one(pages, s, n - 1);
    } else {
        lemma_count_same_prefix(pages, t, n - 1);
    }
}

/// Taking the free run `[s, s + num)` leaves, among the first `n` pages,
/// as many free pages fewer as the run has below `n`.
pub proof fn lemma_count_taken_run(pages: Seq<Page>, s: int, num: int, n: int)
    requires
        0 <= s,
        num >= 1,
        n <= pages.len(),
        run_free(pages, s, num),
    ensures
        count_free(taken_run(pages, s, num), n) + (if n <= s {
            0
        } else if n <= s + num {
            n - s
        } else {
            num
        }) == count_free(pages, n),
    decreases n,
{
    if n > 0 {
        lemma_count_taken_run(pages, s, num, n - 1);
        if s <= n - 1 < s + num {
            assert(pages[n - 1].flag == 0);
        }
    }
}

/// Two flag sequences that agree on the first `n` pages count as many free
/// ones there.
proof fn lemma_count_same_prefix(a: Seq<Page>, b: Seq<Page>, n: int)
    requires
        forall|j: int| 0 <= j < n ==> #[trigger] a[j] == b[j],
    ensures
        count_free(a, n) == count_free(b, n),
    decreases n,
{
    if n > 0 {
        lemma_count_same_prefix(a, b, n - 1);
    }
}

/// The page manager: flags of every page and the layout of the kernel and
/// user regions.
#[derive(Debug)]
pub struct PageManager {
    pages: Vec<Page>,
    kernel_page: usize,
    kernel_page_num: usize,
    user_page: usize,
    user_page_num: usize,
    user_start: usize,
    total_num: usize,
    memory_end: usize,
    page_size: usize,
}

proof fn lemma_mul_le(a: int, b: int, c: int)
    requires
        0 <= a <= b,
        0 <= c,
    ensures
        a * c <= b * c,
{
    assert(a * c <= b * c) by (nonlinear_arith)
        requires
            0 <= a <= b,
            0 <= c,
    ;
}

proof fn lemma_div_mul_le(x: int, d: int)
    requires
        0 <= x,
        0 < d,
    ensures
        x / d * d <= x,
        0 <= x / d,
{
    assert(x / d * d <= x) by (nonlinear_arith)
        requires
            0 <= x,
            0 < d,
    ;
    assert(0 <= x / d) by (nonlinear_arith)
        requires
            0 <= x,
            0 < d,
    ;
}


proof fn lemma_sum_le_product(t: int, p: int)
    requires
        0 <= t,
        1 <= p,
    ensures
        t + p - 1 <= if t == 0 { p - 1 } else { t * p },
        t <= t * p,
{
    assert(t <= t * p) by (nonlinear_arith)
        requires
            0 <= t,
            1 <= p,
    ;
    if t > 0 {
        assert(t + p - 1 <= t * p) by (nonlinear_arith)
            requires
                1 <= t,
                1 <= p,
        ;
    }
}

impl PageManager {
    /// The flags of all pages, kernel region first.
    pub closed spec fn pages(&self) -> Seq<Page> {
        self.pages@
    }

    /// Address of the first kernel page.
    pub closed spec fn kernel_base(&self) -> int {
        self.kernel_page as int
    }

    /// Number of kernel pages.
    pub closed spec fn kernel_num(&self) -> int {
        self.kernel_page_num as int
    }

    /// Address that user page `0` is reported at.
    pub closed spec fn user_base(&self) -> int {
        self.user_page as int
    }

    /// Number of user pages.
    pub closed spec fn user_num(&self) -> int {
        self.user_page_num as int
    }

    /// First address that counts as a user address when freeing.
    pub closed spec fn user_start(&self) -> int {
        self.user_start as int
    }

    /// End of the range of user addresses when freeing.
    pub closed spec fn memory_end(&self) -> int {
        self.memory_end as int
    }

    /// Size of a page.
    pub closed spec fn page_size_spec(&self) -> int {
        self.page_size as int
    }

    /// The layout invariant.
    pub closed spec fn wf(&self) -> bool {
        &&& self.page_size > 0
        &&& self.pages@.len() == self.total_num
        &&& self.kernel_page_num + self.user_page_num <= self.total_num
        &&& self.kernel_page + self.kernel_page_num * self.page_size <= self.user_start
        &&& self.user_page + self.user_page_num * self.page_size <= usize::MAX
        &&& self.memory_end == self.kernel_page + self.total_num * self.page_size
        &&& self.user_page == self.user_start
        &&& self.user_page + self.user_page_num * self.page_size <= self.memory_end
        &&& self.kernel_page % self.page_size == 0
        &&& self.user_start % self.page_size == 0
    }

    /// The flag index where freeing `addr` starts.
    pub closed spec fn start_index(&self, addr: int) -> int {
        if self.kernel_page <= addr < self.user_start {
            (addr - self.kernel_page) / self.page_size as int
        } else {
            self.kernel_page_num + (addr - self.user_start) / self.page_size as int
        }
    }

    /// Whether `addr` lies in the kernel or the user range of `free_page`.
    pub closed spec fn in_range(&self, addr: int) -> bool {
        (self.kernel_page <= addr < self.user_start) || (self.user_start <= addr
            < self.memory_end)
    }

    /// Lays out the pages between `kmem_start` and `total_mem`: both starts
    /// are rounded up to a page, the pages that hold the flag array itself
    /// are taken, every other page is free.
    pub fn new(kmem_start: usize, umem_start: usize, total_mem: usize, page_size: usize) -> (r:
        Self)
        requires
            page_size > 0,
            kmem_start + page_size <= usize::MAX,
            umem_start + page_size <= usize::MAX,
            round_up(kmem_start as int, page_size as int) <= round_up(
                umem_start as int,
                page_size as int,
            ),
            round_up(kmem_start as int, page_size as int) <= total_mem,
            (total_mem - round_up(kmem_start as int, page_size as int)) / page_size as int
                + page_size <= usize::MAX,
            (round_up(umem_start as int, page_size as int) - round_up(
                kmem_start as int,
                page_size as int,
            )) / page_size as int <= (total_mem - round_up(kmem_start as int, page_size as int))
                / page_size as int,
        ensures
            r.wf(),
            r.page_size_spec() == page_size,
            r.kernel_base() == round_up(kmem_start as int, page_size as int),
            r.user_start() == round_up(umem_start as int, page_size as int),
            r.kernel_num() == (r.user_start() - r.kernel_base()) / page_size as int,
            r.pages().len() == (total_mem - r.kernel_base()) / page_size as int,
            r.user_num() == r.pages().len() - r.kernel_num(),
            r.user_base() == r.user_start(),
            r.memory_end() == r.kernel_base() + r.pages().len() * page_size,
            forall|j: int|
                0 <= j < r.pages().len() ==> #[trigger] r.pages()[j].flag == if j < (
                r.pages().len() + page_size - 1) / page_size as int {
                    1u8
                } else {
                    0u8
                },
    {
        proof {
            lemma_div_mul_le(kmem_start + page_size - 1, page_size as int);
            lemma_div_mul_le(umem_start + page_size - 1, page_size as int);
        }
        let ghost ka = (kmem_start + page_size - 1) as int / page_size as int;
        let ghost ua = (umem_start + page_size - 1) as int / page_size as int;
        let kmem_start = (kmem_start + page_size - 1) / page_size * page_size;
        let umem_start = (umem_start + page_size - 1) / page_size * page_size;
        proof {
            lemma_div_mul_le(total_mem - kmem_start, page_size as int);
            lemma_div_mul_le(umem_start - kmem_start, page_size as int);
        }
        let total_num = (total_mem - kmem_start) / page_size;
        let kernel_page_num = (umem_start - kmem_start) / page_size;
        proof {
            lemma_div_mul_le(total_num - kernel_page_num, page_size as int);
            lemma_sum_le_product(total_num as int, page_size as int);
            lemma_mul_le(
                (total_num - kernel_page_num) / page_size as int,
                (total_num - kernel_page_num) / page_size as int,
                page_size as int,
            );
        }
        let user_page_num = total_num - kernel_page_num;
        proof {
            assert(umem_start - kmem_start == (ua - ka) * page_size) by (nonlinear_arith)
                requires
                    kmem_start == ka * page_size,
                    umem_start == ua * page_size,
            ;
            assert(ua - ka >= 0) by (nonlinear_arith)
                requires
                    (ua - ka) * page_size >= 0,
                    page_size > 0,
            ;
            vstd::arithmetic::div_mod::lemma_div_by_multiple(ua - ka, page_size as int);
            assert(umem_start - kmem_start == kernel_page_num * page_size);
            assert(kmem_start + total_num * page_size <= total_mem) by (nonlinear_arith)
                requires
                    total_num == (total_mem - kmem_start) as int / page_size as int,
                    kmem_start <= total_mem,
                    page_size > 0,
            ;
            assert(user_page_num * page_size + kernel_page_num * page_size == total_num * page_size) by (nonlinear_arith)
                requires
                    user_page_num + kernel_page_num == total_num,
            ;
        }
        let rev_num = (total_num + page_size - 1) / page_size;
        let mut pages: Vec<Page> = Vec::new();
        let mut i: usize = 0;
        while i < total_num
            invariant
                i <= total_num,
                pages@.len() == i,
                forall|j: int| 0 <= j < i ==> #[trigger] pages@[j].flag == if j < rev_num {
                    1u8
                } else {
                    0u8
                },
            decreases total_num - i,
        {
            let mut p = Page { flag: 0 };
            if i < rev_num {
                p.take();
            } else {
                p.free();
            }
            pages.push(p);
            i += 1;
        }
        let r = PageManager {
            pages,
            kernel_page: kmem_start,
            kernel_page_num,
            user_page: umem_start,
            user_page_num,
            user_start: umem_start,
            total_num,
            memory_end: kmem_start + total_num * page_size,
            page_size,
        };
        proof {
            vstd::arithmetic::div_mod::lemma_mod_multiples_basic(ka, page_size as int);
            vstd::arithmetic::div_mod::lemma_mod_multiples_basic(ua, page_size as int);
        }
        r
    }

    /// Finds the lowest start of `num` free pages in `[lo, lo + n)`, relative
    /// to `lo`.
    fn find_run(&self, lo: usize, n: usize, num: usize) -> (r: Option<usize>)
        requires
            lo + n <= self.pages@.len(),
            lo + n <= usize::MAX,
            num > 0,
        ensures
            match r {
                Some(rel) => is_first_fit(
                    self.pages@,
                    lo as int,
                    lo + n,
                    num as int,
                    lo + rel,
                ),
                None => forall|s: int| !#[trigger] fits_at(self.pages@, lo as int, lo + n, num as int, s),
            },
    {
        let mut cnt: usize = 0;
        let mut i: usize = 0;
        while i < n
            invariant
                lo + n <= self.pages@.len(),
                lo + n <= usize::MAX,
                num > 0,
                i <= n,
                cnt <= i,
                cnt < num,
                forall|j: int| lo + i - cnt <= j < lo + i ==> #[trigger] self.pages@[j].flag == 0,
                cnt < i ==> self.pages@[lo + i - cnt - 1].flag != 0,
                forall|s: int|
                    lo <= s && s + num <= lo + i ==> !#[trigger] run_free(self.pages@, s, num as int),
            decreases n - i,
        {
            if self.pages[lo + i].is_free() {
                cnt += 1;
            } else {
                cnt = 0;
            }
            proof {
                let pages = self.pages@;
                assert forall|s: int| lo <= s && s + num <= lo + i + 1 implies !#[trigger] run_free(
                    pages,
                    s,
                    num as int,
                ) || s == lo + i + 1 - num by {
                    if s + num == lo + i + 1 && run_free(pages, s, num as int) {
                        if s < lo + i + 1 - cnt {
                            assert(pages[lo + i - cnt] == pages[lo + i - cnt]);
                            assert(pages[lo + i - cnt].flag == 0);
                        }
                    }
                }
            }
            if cnt >= num {
                let rel = i + 1 - cnt;
                proof {
                    assert(run_free(self.pages@, lo + rel, num as int));
                    assert forall|t: int| lo <= t < lo + rel implies !#[trigger] fits_at(
                        self.pages@,
                        lo as int,
                        lo + n,
                        num as int,
                        t,
                    ) by {
                        if t + num <= lo + i {
                        } else {
                            assert(!run_free(self.pages@, t, num as int) || t == lo + i + 1
                                - num);
                        }
                    }
                }
                return Some(rel);
            }
            i += 1;
        }
        proof {
            assert forall|s: int| !#[trigger] fits_at(self.pages@, lo as int, lo + n, num as int, s) by {
                if lo <= s && s + num <= lo + n {
                }
            }
        }
        None
    }

    /// Takes the pages `[s, s + num)` and puts the end marker on the last.
    fn take_run(&mut self, s: usize, num: usize)
        requires
            num > 0,
            s + num <= old(self).pages@.len(),
            s + num <= usize::MAX,
        ensures
            final(self).pages@ == taken_run(old(self).pages@, s as int, num as int),
            final(self).kernel_page == old(self).kernel_page,
            final(self).kernel_page_num == old(self).kernel_page_num,
            final(self).user_page == old(self).user_page,
            final(self).user_page_num == old(self).user_page_num,
            final(self).user_start == old(self).user_start,
            final(self).total_num == old(self).total_num,
            final(self).memory_end == old(self).memory_end,
            final(self).page_size == old(self).page_size,
    {
        let ghost before = self.pages@;
        let mut idx = s;
        while idx < s + num
            invariant
                s <= idx <= s + num,
                s + num <= before.len(),
                s + num <= usize::MAX,
                self.pages@.len() == before.len(),
                forall|j: int| s <= j < idx ==> #[trigger] self.pages@[j].flag == 1,
                forall|j: int|
                    0 <= j < before.len() && !(s <= j < idx) ==> #[trigger] self.pages@[j]
                        == before[j],
                self.kernel_page == old(self).kernel_page,
                self.kernel_page_num == old(self).kernel_page_num,
                self.user_page == old(self).user_page,
                self.user_page_num == old(self).user_page_num,
                self.user_start == old(self).user_start,
                self.total_num == old(self).total_num,
                self.memory_end == old(self).memory_end,
                self.page_size == old(self).page_size,
            decreases s + num - idx,
        {
            let mut p = self.pages[idx];
            p.take();
            self.pages.set(idx, p);
            idx += 1;
        }
        let last = s + num - 1;
        let mut p = self.pages[last];
        p.end();
        assert(1u8 | 2u8 == 3u8) by (bit_vector);
        self.pages.set(last, p);
        proof {
            let t = taken_run(before, s as int, num as int);
            assert forall|j: int| 0 <= j < before.len() implies #[trigger] self.pages@[j] == t[j] by {
                if s <= j < s + num - 1 {
                    assert(self.pages@[j].flag == 1);
                } else if j == s + num - 1 {
                    assert(self.pages@[j].flag == 3);
                }
            }
            assert(self.pages@ =~= t);
        }
    }

    /// Allocates `num` contiguous kernel pages, first fit: the lowest run of
    /// free kernel pages. `None` when no run of that length is free.
    pub fn alloc_kernel_page(&mut self, num: usize) -> (r: Option<usize>)
        requires
            old(self).wf(),
            num > 0,
        ensures
            final(self).wf(),
            final(self).kernel_base() == old(self).kernel_base(),
            final(self).kernel_num() == old(self).kernel_num(),
            final(self).user_base() == old(self).user_base(),
            final(self).user_num() == old(self).user_num(),
            final(self).user_start() == old(self).user_start(),
            final(self).memory_end() == old(self).memory_end(),
            final(self).page_size_spec() == old(self).page_size_spec(),
            match r {
                Some(addr) => addr + num * old(self).page_size_spec() <= old(self).user_start()
                    && old(self).user_start() <= usize::MAX && exists|s: int|
                    #![trigger taken_run(old(self).pages(), s, num as int)]
                    is_first_fit(old(self).pages(), 0, old(self).kernel_num(), num as int, s)
                        && addr == old(self).kernel_base() + s * old(self).page_size_spec()
                        && final(self).pages() == taken_run(old(self).pages(), s, num as int),
                None => final(self).pages() == old(self).pages() && forall|s: int|
                    !#[trigger] fits_at(old(self).pages(), 0, old(self).kernel_num(), num as int, s),
            },
            num == 1 ==> (r is Some <==> free_kernel_pages(*old(self)) > 0),
            r is Some ==> free_kernel_pages(*final(self)) + num == free_kernel_pages(*old(self)),
            took_pages(*old(self), true, num as int, *final(self), r),
            user_pages_kept(*old(self), *final(self)),
            forall|j: int|
                0 <= j < old(self).pages().len() && #[trigger] final(self).pages()[j].flag == 0
                    ==> old(self).pages()[j].flag == 0,
    {
        proof {
            if free_kernel_pages(*old(self)) > 0 {
                lemma_free_page_exists(old(self).pages(), old(self).kernel_num());
                let w = choose|w: int| 0 <= w < old(self).kernel_num() && #[trigger] old(self).pages()[w].flag == 0;
                assert(num == 1 ==> fits_at(old(self).pages(), 0, old(self).kernel_num(), 1, w));
            }
        }
        let found = self.find_run(0, self.kernel_page_num, num);
        match found {
            Some(rel) => {
                self.take_run(rel, num);
                proof {
                    lemma_mul_le(rel as int, self.kernel_page_num as int, self.page_size as int);
                    lemma_mul_le(rel + num, self.kernel_page_num as int, self.page_size as int);
                    assert((rel + num) * self.page_size == rel * self.page_size + num * self.page_size) by (nonlinear_arith);
                }
                let addr = rel * self.page_size + self.kernel_page;
                proof {
                    assert(is_first_fit(
                        old(self).pages@,
                        0,
                        old(self).kernel_page_num as int,
                        num as int,
                        rel as int,
                    ));
                    assert(self.pages() == taken_run(old(self).pages(), rel as int, num as int));
                    assert(is_first_fit(old(self).pages(), 0, old(self).kernel_num(), num as int, rel as int));
                    assert(addr == old(self).kernel_base() + rel * old(self).page_size_spec());
                    lemma_count_taken_run(old(self).pages(), rel as int, num as int, old(self).kernel_num());
                }
                Some(addr)
            },
            None => {
                proof {
                    assert forall|s: int|
                        !#[trigger] fits_at(old(self).pages(), 0, old(self).kernel_num(), num as int, s) by {
                        assert(!fits_at(self.pages@, 0usize as int, 0usize + self.kernel_page_num, num as int, s));
                    }
                }
                None
            },
        }
    }

    /// Allocates `num` contiguous user pages, first fit. The address of user
    /// page `i` is `user_base + i * page_size`.
    pub fn alloc_user_page(&mut self, num: usize) -> (r: Option<usize>)
        requires
            old(self).wf(),
            num > 0,
        ensures
            final(self).wf(),
            final(self).kernel_base() == old(self).kernel_base(),
            final(self).kernel_num() == old(self).kernel_num(),
            final(self).user_base() == old(self).user_base(),
            final(self).user_num() == old(self).user_num(),
            final(self).user_start() == old(self).user_start(),
            final(self).memory_end() == old(self).memory_end(),
            final(self).page_size_spec() == old(self).page_size_spec(),
            match r {
                Some(addr) => addr + num * old(self).page_size_spec() <= usize::MAX
                    && exists|s: int|
                    #![trigger taken_run(old(self).pages(), s, num as int)]
                    is_first_fit(
                        old(self).pages(),
                        old(self).kernel_num(),
                        old(self).kernel_num() + old(self).user_num(),
                        num as int,
                        s,
                    ) && addr == old(self).user_base() + (s - old(self).kernel_num())
                        * old(self).page_size_spec() && final(self).pages() == taken_run(
                        old(self).pages(),
                        s,
                        num as int,
                    ),
                None => final(self).pages() == old(self).pages() && forall|s: int|
                    !#[trigger] fits_at(
                        old(self).pages(),
                        old(self).kernel_num(),
                        old(self).kernel_num() + old(self).user_num(),
                        num as int,
                        s,
                    ),
            },
            free_kernel_pages(*final(self)) == free_kernel_pages(*old(self)),
            took_pages(*old(self), false, num as int, *final(self), r),
            forall|j: int|
                0 <= j < old(self).pages().len() && #[trigger] final(self).pages()[j].flag == 0
                    ==> old(self).pages()[j].flag == 0,
    {
        let found = self.find_run(self.kernel_page_num, self.user_page_num, num);
        match found {
            Some(rel) => {
                self.take_run(self.kernel_page_num + rel, num);
                proof {
                    lemma_mul_le(rel as int, self.user_page_num as int, self.page_size as int);
                    lemma_mul_le(rel + num, self.user_page_num as int, self.page_size as int);
                    assert((rel + num) * self.page_size == rel * self.page_size + num * self.page_size) by (nonlinear_arith);
                }
                let addr = rel * self.page_size + self.user_page;
                proof {
                    let s0 = self.kernel_page_num + rel;
                    assert(self.pages() == taken_run(old(self).pages(), s0 as int, num as int));
                    assert(addr == old(self).user_base() + (s0 - old(self).kernel_num())
                        * old(self).page_size_spec());
                    assert(run_free(old(self).pages(), s0 as int, num as int));
                    lemma_count_taken_run(old(self).pages(), s0 as int, num as int, old(self).kernel_num());
                }
                Some(addr)
            },
            None => None,
        }
    }

    /// Frees the allocation that starts at `addr`: from its first page up to
    /// and including the first page with the end marker, every flag becomes
    /// zero. Kernel addresses lie in `[kernel_base, user_start)`, user
    /// addresses in `[user_start, memory_end)`.
    pub fn free_page(&mut self, addr: usize)
        requires
            old(self).wf(),
            old(self).in_range(addr as int),
            exists|e: int| chain_end(old(self).pages(), old(self).start_index(addr as int), e),
        ensures
            final(self).wf(),
            final(self).kernel_base() == old(self).kernel_base(),
            final(self).kernel_num() == old(self).kernel_num(),
            final(self).user_base() == old(self).user_base(),
            final(self).user_num() == old(self).user_num(),
            final(self).user_start() == old(self).user_start(),
            final(self).memory_end() == old(self).memory_end(),
            final(self).page_size_spec() == old(self).page_size_spec(),
            forall|e: int|
                chain_end(old(self).pages(), old(self).start_index(addr as int), e)
                    ==> final(self).pages() == freed_chain(
                    old(self).pages(),
                    old(self).start_index(addr as int),
                    e,
                ),
    {
        let ghost before = self.pages@;
        let ghost start = self.start_index(addr as int);
        let ghost e = choose|e: int| chain_end(before, start, e);
        let mut idx: usize;
        if addr >= self.kernel_page && addr < self.user_start {
            idx = (addr - self.kernel_page) / self.page_size;
        } else {
            idx = self.kernel_page_num + (addr - self.user_start) / self.page_size;
        }
        assert(idx == start);
        while !self.pages[idx].is_end()
            invariant
                start <= idx <= e,
                chain_end(before, start, e),
                self.pages@.len() == before.len(),
                forall|j: int| start <= j < idx ==> #[trigger] self.pages@[j].flag == 0,
                forall|j: int|
                    0 <= j < before.len() && !(start <= j < idx) ==> #[trigger] self.pages@[j]
                        == before[j],
                self.wf(),
                self.kernel_page == old(self).kernel_page,
                self.kernel_page_num == old(self).kernel_page_num,
                self.user_page == old(self).user_page,
                self.user_page_num == old(self).user_page_num,
                self.user_start == old(self).user_start,
                self.total_num == old(self).total_num,
                self.memory_end == old(self).memory_end,
                self.page_size == old(self).page_size,
            decreases e - idx,
        {
            assert(idx != e);
            let mut p = self.pages[idx];
            p.free();
            self.pages.set(idx, p);
            idx += 1;
        }
        assert(idx == e);
        let mut p = self.pages[idx];
        p.free();
        self.pages.set(idx, p);
        proof {
            let f = freed_chain(before, start, e);
            assert forall|j: int| 0 <= j < before.len() implies #[trigger] self.pages@[j] == f[j] by {
                if start <= j <= e {
                    assert(self.pages@[j].flag == 0);
                }
            }
            assert(self.pages@ =~= f);
            assert forall|e2: int| chain_end(before, start, e2) implies e2 == e by {
                if e2 < e {
                    assert(!flag_is_end(before[e2].flag));
                } else if e2 > e {
                    assert(!flag_is_end(before[e].flag));
                }
            }
        }
    }

    /// Whether `free_page` can take `addr`: it lies in the kernel or the
    /// user range, and from its page on some page carries the end marker.
    pub fn can_free_page(&self, addr: usize) -> (r: bool)
        requires
            self.wf(),
        ensures
            r == (self.in_range(addr as int) && exists|e: int|
                chain_end(self.pages(), self.start_index(addr as int), e)),
    {
        let idx: usize = if addr >= self.kernel_page && addr < self.user_start {
            (addr - self.kernel_page) / self.page_size
        } else if addr >= self.user_start && addr < self.memory_end {
            match self.kernel_page_num.checked_add((addr - self.user_start) / self.page_size) {
                Some(i) => i,
                None => {
                    return false;
                },
            }
        } else {
            return false;
        };
        assert(idx == self.start_index(addr as int));
        assert(self.in_range(addr as int));
        let mut j = idx;
        while j < self.pages.len()
            invariant
                idx <= j,
                idx == self.start_index(addr as int),
                self.in_range(addr as int),
                forall|k: int| idx <= k < j ==> !flag_is_end(#[trigger] self.pages@[k].flag),
            decreases self.pages@.len() - j,
        {
            let end = self.pages[j].is_end();
            if end {
                assert(flag_is_end(self.pages@[j as int].flag));
                assert(chain_end(self.pages(), self.start_index(addr as int), j as int));
                return true;
            }
            j += 1;
        }
        false
    }

    /// The kernel pages and the user pages start on page boundaries.
    pub proof fn lemma_aligned(&self)
        requires
            self.wf(),
        ensures
            self.kernel_base() % self.page_size_spec() == 0,
            self.user_base() % self.page_size_spec() == 0,
            self.user_start() % self.page_size_spec() == 0,
    {
    }

    /// The kernel pages lie below the user start, which is an address.
    pub proof fn lemma_layout(&self)
        requires
            self.wf(),
        ensures
            self.kernel_base() + self.kernel_num() * self.page_size_spec() <= self.user_start(),
            self.user_start() <= usize::MAX,
            0 <= self.kernel_base(),
            0 <= self.kernel_num() <= self.pages().len(),
            self.page_size_spec() > 0,
    {
    }

    /// The user pages follow the kernel pages among the flags.
    pub proof fn lemma_user_layout(&self)
        requires
            self.wf(),
        ensures
            self.kernel_num() + self.user_num() <= self.pages().len(),
            self.user_num() >= 0,
    {
    }

    /// The size of a page.
    pub fn page_size(&self) -> (r: usize)
        ensures
            r == self.page_size_spec(),
    {
        self.page_size
    }
}

/// Freeing a kernel allocation gives back exactly the flags that it found:
/// a kernel allocation followed by a free of the returned address leaves
/// every page flag as it was.
pub proof fn lemma_kernel_free_undoes_alloc(
    before: PageManager,
    after_alloc: PageManager,
    num: int,
    addr: int,
    s: int,
)
    requires
        before.wf(),
        num > 0,
        is_first_fit(before.pages(), 0, before.kernel_num(), num, s),
        addr == before.kernel_base() + s * before.page_size_spec(),
        after_alloc.pages() == taken_run(before.pages(), s, num),
        after_alloc.wf(),
        after_alloc.kernel_base() == before.kernel_base(),
        after_alloc.kernel_num() == before.kernel_num(),
        after_alloc.user_start() == before.user_start(),
        after_alloc.page_size_spec() == before.page_size_spec(),
    ensures
        after_alloc.in_range(addr),
        after_alloc.start_index(addr) == s,
        chain_end(after_alloc.pages(), s, s + num - 1),
        freed_chain(after_alloc.pages(), s, s + num - 1) == before.pages(),
{
    reveal(PageManager::wf);
    let ps = before.page_size_spec();
    lemma_mul_le(s + 1, before.kernel_num(), ps);
    assert((s + 1) * ps == s * ps + ps) by (nonlinear_arith);
    assert(after_alloc.in_range(addr));
    assert(s * ps / ps == s) by (nonlinear_arith)
        requires
            ps > 0,
    ;
    assert(after_alloc.start_index(addr) == s);
    assert(3u8 & 2u8 != 0) by (bit_vector);
    assert(1u8 & 2u8 == 0) by (bit_vector);
    let p = after_alloc.pages();
    assert forall|j: int| s <= j < s + num - 1 implies !flag_is_end(#[trigger] p[j].flag) by {
        assert(p[j].flag == 1u8);
    }
    let f = freed_chain(after_alloc.pages(), s, s + num - 1);
    let b = before.pages();
    assert forall|j: int| 0 <= j < b.len() implies #[trigger] f[j] == b[j] by {
        if s <= j < s + num {
            assert(b[j].flag == 0);
        }
    }
    assert(f =~= b);
}

/// Freeing a user allocation gives back exactly the flags that it found:
/// a user allocation followed by a free of the returned address leaves
/// every page flag as it was.
pub proof fn lemma_user_free_undoes_alloc(
    before: PageManager,
    after_alloc: PageManager,
    num: int,
    addr: int,
    s: int,
)
    requires
        before.wf(),
        num > 0,
        is_first_fit(before.pages(), before.kernel_num(), before.kernel_num() + before.user_num(), num, s),
        addr == before.user_base() + (s - before.kernel_num()) * before.page_size_spec(),
        after_alloc.pages() == taken_run(before.pages(), s, num),
        after_alloc.wf(),
        after_alloc.kernel_base() == before.kernel_base(),
        after_alloc.kernel_num() == before.kernel_num(),
        after_alloc.user_num() == before.user_num(),
        after_alloc.user_start() == before.user_start(),
        after_alloc.memory_end() == before.memory_end(),
        after_alloc.page_size_spec() == before.page_size_spec(),
    ensures
        after_alloc.in_range(addr),
        after_alloc.start_index(addr) == s,
        chain_end(after_alloc.pages(), s, s + num - 1),
        freed_chain(after_alloc.pages(), s, s + num - 1) == before.pages(),
{
    reveal(PageManager::wf);
    let ps = before.page_size_spec();
    let kn = before.kernel_num();
    let un = before.user_num();
    let r = s - kn;
    assert(0 <= r && r + 1 <= un);
    lemma_mul_le(r + 1, un, ps);
    assert((r + 1) * ps == r * ps + ps) by (nonlinear_arith);
    assert(r * ps >= 0) by (nonlinear_arith)
        requires
            r >= 0,
            ps > 0,
    ;
    assert(after_alloc.in_range(addr));
    assert(r * ps / ps == r) by (nonlinear_arith)
        requires
            ps > 0,
    ;
    assert(after_alloc.start_index(addr) == s);
    assert(3u8 & 2u8 != 0) by (bit_vector);
    assert(1u8 & 2u8 == 0) by (bit_vector);
    let p = after_alloc.pages();
    assert forall|j: int| s <= j < s + num - 1 implies !flag_is_end(#[trigger] p[j].flag) by {
        assert(p[j].flag == 1u8);
    }
    let f = freed_chain(after_alloc.pages(), s, s + num - 1);
    let b = before.pages();
    assert forall|j: int| 0 <= j < b.len() implies #[trigger] f[j] == b[j] by {
        if s <= j < s + num {
            assert(b[j].flag == 0);
        }
    }
    assert(f =~= b);
}

} // verus!
