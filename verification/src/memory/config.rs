//! Memory constants.

use vstd::prelude::*;

verus! {

/// Size of a page in bytes.
pub const PAGE_SIZE: usize = 4096;
/// Number of pages that the kernel heap takes.
pub const KERNEL_PAGE_NUM: usize = 25600;

} // verus!
