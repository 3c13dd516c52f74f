//! The first form of the SATP value, built from a root address, an address
//! space and a mode in one step. Entries and tables are those of `map`.

use vstd::prelude::*;

pub use super::map::page_table::{PTE, PageTable};
pub use super::map::pagebit::PageBit;
use super::map::page_table::{MapWrite, identity_writes, lemma_written_over_trans, clear_of};
use super::page::{PageManager, free_kernel_pages};

verus! {

/// The Sv39 paging mode.
pub const MODE: usize = 8;

/// The register bits for root address `ppn`, address space `asid` and
/// `mode`: the page number in bits 0..44, the address space in bits 44..60,
/// the mode in bits 60..64.
pub open spec fn satp_value(ppn: usize, asid: usize, mode: usize) -> usize {
    ((((ppn as u64) >> 12u64) & 0xfff_ffff_ffffu64) | (((asid as u64) & 0xffffu64) << 44u64) | ((
    (mode as u64) & 0xfu64) << 60u64)) as usize
}

/// The physical address of the root table that register bits point at.
pub open spec fn satp_root(flag: usize) -> usize {
    (((flag as u64) & 0xfff_ffff_ffffu64) << 12u64) as usize
}

/// A SATP register value.
#[derive(Debug, Clone, Copy, PartialEq, Eq)]
pub struct SATP {
    pub flag: usize,
}

impl SATP {
    /// The register value for root address `ppn`, address space `asid` and
    /// paging mode `mode`.
    pub fn new(ppn: usize, asid: usize, mode: usize) -> (r: Self)
        ensures
            r.flag == satp_value(ppn, asid, mode),
    {
        SATP {
            flag: ((((ppn as u64) >> 12) & 0xfff_ffff_ffff) | (((asid as u64) & 0xffff) << 44) | (((
            mode as u64) & 0xf) << 60)) as usize,
        }
    }

    /// Wraps a raw register value.
    pub fn from(satp: usize) -> (r: Self)
        ensures
            r.flag == satp,
    {
        SATP { flag: satp }
    }

    /// The physical address of the root table.
    pub fn get_ppn_addr(&self) -> (r: usize)
        ensures
            r == satp_root(self.flag),
    {
        (((self.flag as u64) & 0xfff_ffff_ffff) << 12) as usize
    }

    /// The raw register value.
    pub fn val(&self) -> (r: usize)
        ensures
            r == self.flag,
    {
        self.flag
    }

    /// Whether the register points at a root table.
    pub fn is_map(&self) -> (r: bool)
        ensures
            r == (satp_root(self.flag) != 0),
    {
        self.get_ppn_addr() != 0
    }
}

/// The Sv39 register value for the root table at `pt` and address space
/// `asid`.
pub fn make_satp(pt: usize, asid: usize) -> (r: usize)
    ensures
        r == satp_value(pt, asid, MODE),
{
    SATP::new(pt, asid, MODE).val()
}

/// The register built for a root address gives that address back, page
/// aligned, whatever address space and mode it carries (on a 64-bit machine,
/// for roots below 2^56).
pub proof fn lemma_root_round_trip(ppn: usize, asid: usize, mode: usize)
    requires
        usize::BITS == 64,
        (ppn as u64) < 0x100_0000_0000_0000u64,
    ensures
        satp_root(satp_value(ppn, asid, mode)) == (((ppn as u64) >> 12u64) << 12u64) as usize,
{
    let p = ppn as u64;
    let a = asid as u64;
    let m = mode as u64;
    let v = ((p >> 12u64) & 0xfff_ffff_ffffu64) | ((a & 0xffffu64) << 44u64) | ((m & 0xfu64)
        << 60u64);
    assert((v & 0xfff_ffff_ffffu64) << 12u64 == (p >> 12u64) << 12u64) by (bit_vector)
        requires
            v == ((p >> 12u64) & 0xfff_ffff_ffffu64) | ((a & 0xffffu64) << 44u64) | ((m & 0xfu64)
                << 60u64),
            p < 0x100_0000_0000_0000u64,
    ;
    assert((v as usize) as u64 == v);
}


/// The mappings `map_kernel_area` makes: for a kernel task, the kernel's
/// code and data from `memory_start` to `kernel_stack_start` with every
/// permission, the rest of memory up to `memory_end` as data, ten pages of
/// devices at 0x1000_0000 with every permission and sixteen pages of the
/// interrupt controller at 0x200_0000 as data; for a user task, the first
/// two pages of memory as user code.
pub open spec fn kernel_area_writes(
    is_kernel: bool,
    memory_start: int,
    kernel_stack_start: int,
    memory_end: int,
) -> Seq<MapWrite> {
    if is_kernel {
        identity_writes(memory_start, kernel_stack_start, 14) + identity_writes(
            kernel_stack_start,
            memory_end,
            6,
        ) + identity_writes(0x1000_0000, 0x1000_0000int + 10 * 4096, 14) + identity_writes(
            0x200_0000,
            0x200_0000int + 16 * 4096,
            6,
        )
    } else {
        identity_writes(memory_start, memory_start + 2 * 4096, 26)
    }
}

/// Maps the kernel's part of memory into `pt` (see `kernel_area_writes`),
/// each page onto itself. `false` when a table could not be created.
pub fn map_kernel_area(
    pt: &mut PageTable,
    pm: &mut PageManager,
    is_kernel: bool,
    memory_start: usize,
    kernel_stack_start: usize,
    memory_end: usize,
) -> (r: bool)
    requires
        old(pt).wf(),
        old(pt).frames().len() > 0,
        old(pm).wf(),
        kernel_stack_start + 4096 <= usize::MAX,
        memory_end + 4096 <= usize::MAX,
        memory_start + 3 * 4096 <= usize::MAX,
    ensures
        final(pt).wf(),
        final(pt).frames().len() > 0,
        final(pt).root() == old(pt).root(),
        final(pm).wf(),
        final(pm).kernel_base() == old(pm).kernel_base(),
        final(pm).kernel_num() == old(pm).kernel_num(),
        final(pm).user_start() == old(pm).user_start(),
        final(pm).page_size_spec() == old(pm).page_size_spec(),
        r ==> final(pt).written_over(
            *old(pt),
            kernel_area_writes(is_kernel, memory_start as int, kernel_stack_start as int, memory_end as int),
        ),
        free_kernel_pages(*final(pm)) <= free_kernel_pages(*old(pm)),
        old(pm).page_size_spec() == 4096 && clear_of(*old(pt), *old(pm)) ==> clear_of(*final(pt), *final(pm)),
        old(pm).page_size_spec() == 4096 && clear_of(*old(pt), *old(pm)) && free_kernel_pages(*old(pm)) >= 2
            * kernel_area_writes(is_kernel, memory_start as int, kernel_stack_start as int, memory_end as int).len()
            ==> r,
{
    let ghost p0 = *pt;
    if is_kernel {
        if !pt.map_identity(pm, memory_start, kernel_stack_start, 14) {
            return false;
        }
        let ghost p1 = *pt;
        if !pt.map_identity(pm, kernel_stack_start, memory_end, 6) {
            return false;
        }
        let ghost p2 = *pt;
        if !pt.map_identity(pm, 0x1000_0000, 0x1000_0000 + 10 * 4096, 14) {
            return false;
        }
        let ghost p3 = *pt;
        if !pt.map_identity(pm, 0x200_0000, 0x200_0000 + 16 * 4096, 6) {
            return false;
        }
        proof {
            let w1 = identity_writes(memory_start as int, kernel_stack_start as int, 14);
            let w2 = identity_writes(kernel_stack_start as int, memory_end as int, 6);
            let w3 = identity_writes(0x1000_0000, 0x1000_0000int + 10 * 4096, 14);
            let w4 = identity_writes(0x200_0000, 0x200_0000int + 16 * 4096, 6);
            lemma_written_over_trans(p0, p1, p2, w1, w2);
            lemma_written_over_trans(p0, p2, p3, w1 + w2, w3);
            lemma_written_over_trans(p0, p3, *pt, w1 + w2 + w3, w4);
        }
        true
    } else {
        pt.map_identity(pm, memory_start, memory_start + 2 * 4096, 26)
    }
}

} // verus!
