//! Bits of a page-table entry.

use vstd::prelude::*;

verus! {

/// The permission and status bits of an Sv39 page-table entry.
#[derive(Clone, Copy, Debug, PartialEq, Eq)]
pub enum PageBit {
    Valid,
    Read,
    Write,
    Excute,
    User,
    Global,
    Access,
    Dirty,
}

/// The value of a page-table entry bit.
pub open spec fn pte_bit_value(b: PageBit) -> u64 {
    match b {
        PageBit::Valid => 1,
        PageBit::Read => 2,
        PageBit::Write => 4,
        PageBit::Excute => 8,
        PageBit::User => 16,
        PageBit::Global => 32,
        PageBit::Access => 64,
        PageBit::Dirty => 128,
    }
}

impl PageBit {
    /// The value of this bit.
    pub fn val(self) -> (v: u64)
        ensures
            v == pte_bit_value(self),
    {
        match self {
            PageBit::Valid => 1,
            PageBit::Read => 2,
            PageBit::Write => 4,
            PageBit::Excute => 8,
            PageBit::User => 16,
            PageBit::Global => 32,
            PageBit::Access => 64,
            PageBit::Dirty => 128,
        }
    }
}

} // verus!
