//! What a page manager offers the rest of the kernel: runs of kernel and
//! user pages, and their release.

use vstd::prelude::*;
use super::page::{PageManager, chain_end, took_pages, freed_chain};
use super::allocator::{Memory, is_first_holder, block_of, freed, allocated};
use super::config::PAGE_SIZE;

verus! {

/// A page manager.
pub trait PageOp {
    /// The manager holds together.
    spec fn ready(&self) -> bool;

    /// The allocation at `addr` can be released.
    spec fn can_free(&self, addr: usize) -> bool;

    /// The size of a page.
    spec fn spec_page_size(&self) -> int;

    /// `num` contiguous kernel pages; `None` when no such run is free.
    fn alloc_kernel_page(&mut self, num: usize) -> (r: Option<usize>)
        requires
            old(self).ready(),
            num > 0,
        ensures
            final(self).ready(),
            final(self).spec_page_size() == old(self).spec_page_size(),
            r matches Some(a) ==> a + num * old(self).spec_page_size() <= usize::MAX,
    ;

    /// `num` contiguous user pages; `None` when no such run is free.
    fn alloc_user_page(&mut self, num: usize) -> (r: Option<usize>)
        requires
            old(self).ready(),
            num > 0,
        ensures
            final(self).ready(),
            final(self).spec_page_size() == old(self).spec_page_size(),
            r matches Some(a) ==> a + num * old(self).spec_page_size() <= usize::MAX,
    ;

    /// Releases the allocation at `addr`.
    fn free_page(&mut self, addr: usize)
        requires
            old(self).ready(),
            old(self).can_free(addr),
        ensures
            final(self).ready(),
            final(self).spec_page_size() == old(self).spec_page_size(),
    ;

    /// The size of a page.
    fn page_size(&self) -> (r: usize)
        ensures
            r == self.spec_page_size(),
    ;
}

impl PageOp for PageManager {
    open spec fn ready(&self) -> bool {
        self.wf()
    }

    open spec fn can_free(&self, addr: usize) -> bool {
        self.in_range(addr as int) && exists|e: int| chain_end(self.pages(), self.start_index(addr as int), e)
    }

    open spec fn spec_page_size(&self) -> int {
        self.page_size_spec()
    }

    fn alloc_kernel_page(&mut self, num: usize) -> (r: Option<usize>)
        ensures
            final(self).kernel_base() == old(self).kernel_base(),
            final(self).kernel_num() == old(self).kernel_num(),
            final(self).user_base() == old(self).user_base(),
            final(self).user_num() == old(self).user_num(),
            final(self).user_start() == old(self).user_start(),
            final(self).memory_end() == old(self).memory_end(),
            took_pages(*old(self), true, num as int, *final(self), r),
    {
        PageManager::alloc_kernel_page(self, num)
    }

    fn alloc_user_page(&mut self, num: usize) -> (r: Option<usize>)
        ensures
            final(self).kernel_base() == old(self).kernel_base(),
            final(self).kernel_num() == old(self).kernel_num(),
            final(self).user_base() == old(self).user_base(),
            final(self).user_num() == old(self).user_num(),
            final(self).user_start() == old(self).user_start(),
            final(self).memory_end() == old(self).memory_end(),
            took_pages(*old(self), false, num as int, *final(self), r),
    {
        PageManager::alloc_user_page(self, num)
    }

    fn free_page(&mut self, addr: usize)
        ensures
            final(self).kernel_base() == old(self).kernel_base(),
            final(self).kernel_num() == old(self).kernel_num(),
            final(self).user_base() == old(self).user_base(),
            final(self).user_num() == old(self).user_num(),
            final(self).user_start() == old(self).user_start(),
            final(self).memory_end() == old(self).memory_end(),
            forall|e: int|
                chain_end(old(self).pages(), old(self).start_index(addr as int), e)
                    ==> final(self).pages() == freed_chain(
                    old(self).pages(),
                    old(self).start_index(addr as int),
                    e,
                ),
    {
        PageManager::free_page(self, addr)
    }

    fn page_size(&self) -> (r: usize) {
        PageManager::page_size(self)
    }
}


/// A heap: blocks of any size, for the kernel and for users, on top of a
/// page manager.
pub trait MemoryOp {
    /// The heap holds together.
    spec fn ready(&self) -> bool;

    /// The block at `addr` is in use in the kernel part (or the user part).
    spec fn holds_block(&self, addr: usize, is_kernel: bool) -> bool;

    /// A kernel block of at least `size` bytes; `None` when none could be
    /// made.
    fn alloc_kernel_memory(&mut self, size: usize, pm: &mut PageManager) -> (r: Option<usize>)
        requires
            old(self).ready(),
            old(pm).wf(),
            old(pm).page_size_spec() == PAGE_SIZE,
            size <= usize::MAX / 2 + 1,
        ensures
            final(self).ready(),
            final(pm).wf(),
    ;

    /// A user block of at least `size` bytes; `None` when none could be
    /// made.
    fn alloc_user_memory(&mut self, size: usize, pm: &mut PageManager) -> (r: Option<usize>)
        requires
            old(self).ready(),
            old(pm).wf(),
            old(pm).page_size_spec() == PAGE_SIZE,
            size <= usize::MAX / 2 + 1,
        ensures
            final(self).ready(),
            final(pm).wf(),
    ;

    /// Gives back the kernel block at `addr`; gives the pages to release.
    fn free_kernel_memory(&mut self, addr: usize) -> (r: Vec<usize>)
        requires
            old(self).ready(),
            old(self).holds_block(addr, true),
        ensures
            final(self).ready(),
    ;

    /// Gives back the user block at `addr`; gives the pages to release.
    fn free_user_memory(&mut self, addr: usize) -> (r: Vec<usize>)
        requires
            old(self).ready(),
            old(self).holds_block(addr, false),
        ensures
            final(self).ready(),
    ;
}

/// A kernel and a user block allocator.
#[derive(Debug)]
pub struct Heap {
    pub kernel: Memory,
    pub user: Memory,
}

impl Heap {
    /// Two allocators with no node.
    pub fn new() -> (r: Self)
        ensures
            r.ready(),
            r.kernel.nodes@.len() == 0,
            r.user.nodes@.len() == 0,
            r.kernel.is_kernel,
            !r.user.is_kernel,
    {
        Heap { kernel: Memory::empty(true), user: Memory::empty(false) }
    }

    /// A block of at least `size` bytes from the kernel's allocator, or
    /// from the users' one; `None` when none could be made.
    pub fn allocate(&mut self, size: usize, is_kernel: bool, pm: &mut PageManager) -> (r: Option<usize>)
        requires
            old(self).ready(),
            old(pm).wf(),
            old(pm).page_size_spec() == PAGE_SIZE,
            0 < size <= usize::MAX / 2 + 1,
        ensures
            final(self).ready(),
            final(pm).wf(),
            is_kernel ==> final(self).user == old(self).user && allocated(
                old(self).kernel,
                *old(pm),
                size as int,
                final(self).kernel,
                *final(pm),
                r,
            ),
            !is_kernel ==> final(self).kernel == old(self).kernel && allocated(
                old(self).user,
                *old(pm),
                size as int,
                final(self).user,
                *final(pm),
                r,
            ),
    {
        if is_kernel {
            self.alloc_kernel_memory(size, pm)
        } else {
            self.alloc_user_memory(size, pm)
        }
    }

    /// Whether the block at `addr` can be given back with `free`: it lies
    /// at or above `kernel_start` or `user_start`, and the allocator its
    /// address picks holds it in use.
    pub fn can_free(&self, addr: usize, kernel_start: usize, user_start: usize) -> (r: bool)
        requires
            self.ready(),
        ensures
            r == (free_picks(addr, kernel_start, user_start) != FreeTarget::Nowhere && self.holds_block(
                addr,
                free_picks(addr, kernel_start, user_start) == FreeTarget::Kernel,
            )),
    {
        if addr >= kernel_start && user_start > addr {
            self.kernel.holds_in_use(addr)
        } else if user_start <= addr {
            self.user.holds_in_use(addr)
        } else {
            false
        }
    }

    /// Gives back the block at `addr`: to the kernel's allocator when
    /// `addr` lies from `kernel_start` up to `user_start`, else to the
    /// users' one when it lies at or above `user_start`. Gives the pages to
    /// release.
    pub fn free(&mut self, addr: usize, kernel_start: usize, user_start: usize) -> (r: Vec<usize>)
        requires
            old(self).ready(),
            free_picks(addr, kernel_start, user_start) != FreeTarget::Nowhere,
            old(self).holds_block(addr, free_picks(addr, kernel_start, user_start) == FreeTarget::Kernel),
        ensures
            final(self).ready(),
            free_picks(addr, kernel_start, user_start) == FreeTarget::Kernel ==> final(self).user == old(self).user
                && freed(old(self).kernel.nodes@, addr as int, final(self).kernel.nodes@, r@),
            free_picks(addr, kernel_start, user_start) == FreeTarget::User ==> final(self).kernel == old(self).kernel
                && freed(old(self).user.nodes@, addr as int, final(self).user.nodes@, r@),
    {
        if addr >= kernel_start && user_start > addr {
            self.free_kernel_memory(addr)
        } else {
            self.free_user_memory(addr)
        }
    }
}

/// Which allocator a block given back at `addr` goes to.
#[derive(PartialEq, Eq, Structural, Debug, Clone, Copy)]
pub enum FreeTarget {
    Kernel,
    User,
    Nowhere,
}

/// The allocator a block at `addr` goes back to: the kernel's from
/// `kernel_start` up to `user_start`, the users' at or above `user_start`,
/// none below both.
pub open spec fn free_picks(addr: usize, kernel_start: usize, user_start: usize) -> FreeTarget {
    if kernel_start <= addr < user_start {
        FreeTarget::Kernel
    } else if user_start <= addr {
        FreeTarget::User
    } else {
        FreeTarget::Nowhere
    }
}

/// The allocator `m` holds the block at `addr` in use.
pub open spec fn memory_holds(m: Memory, addr: usize) -> bool {
    exists|i: int|
        #[trigger] is_first_holder(m.nodes@, addr as int, i) && m.nodes@[i].bitmap@[block_of(
            m.nodes@[i],
            addr as int,
        )]
}

impl MemoryOp for Heap {
    open spec fn ready(&self) -> bool {
        self.kernel.wf() && self.user.wf()
    }

    open spec fn holds_block(&self, addr: usize, is_kernel: bool) -> bool {
        if is_kernel {
            memory_holds(self.kernel, addr)
        } else {
            memory_holds(self.user, addr)
        }
    }

    fn alloc_kernel_memory(&mut self, size: usize, pm: &mut PageManager) -> (r: Option<usize>)
        ensures
            final(self).user == old(self).user,
            allocated(old(self).kernel, *old(pm), size as int, final(self).kernel, *final(pm), r),
    {
        self.kernel.allocate(size, pm)
    }

    fn alloc_user_memory(&mut self, size: usize, pm: &mut PageManager) -> (r: Option<usize>)
        ensures
            final(self).kernel == old(self).kernel,
            allocated(old(self).user, *old(pm), size as int, final(self).user, *final(pm), r),
    {
        self.user.allocate(size, pm)
    }

    fn free_kernel_memory(&mut self, addr: usize) -> (r: Vec<usize>)
        ensures
            final(self).user == old(self).user,
            freed(old(self).kernel.nodes@, addr as int, final(self).kernel.nodes@, r@),
    {
        self.kernel.free(addr)
    }

    fn free_user_memory(&mut self, addr: usize) -> (r: Vec<usize>)
        ensures
            final(self).kernel == old(self).kernel,
            freed(old(self).user.nodes@, addr as int, final(self).user.nodes@, r@),
    {
        self.user.free(addr)
    }
}

} // verus!
