//! A program (process): its address space (the register value, its page
//! table and its areas), its heap, its threads and the files it holds.

use vstd::prelude::*;
use crate::memory::heap_memory::task_heap::{TaskHeap, is_first_holder, no_server, heap_took, heap_freed};
use crate::memory::heap_memory::heap_pool::{is_align_of, pool_pages};
use crate::memory::map::SATP;
use crate::memory::map::satp::{satp_root, root_ready, mapping_room};
use crate::memory::map::page_table::{PageTable, last_write};
use crate::memory::page::{PageManager, user_pages_kept, free_kernel_pages, kernel_run_kept};
use crate::memory::program_memory::program_area::{ProgramArea, area_mappable, areas_writes, first_containing};
use crate::memory::config::PAGE_SIZE;
use super::resource::{Resource, without_first};
use super::task_info::{ProgramInfo, TaskState};

pub use crate::memory::heap_memory::task_heap::MAX_HEAP_SIZE;

verus! {

/// A program: `info.satp` points at `page_table`, which maps `program`;
/// the heap starts at the end of physical memory.
pub struct Process {
    pub info: ProgramInfo,
    pub tid: Vec<usize>,
    pub heap: TaskHeap,
    pub program: ProgramArea,
    pub page_table: PageTable,
    pub resource: Resource,
    pub join_num: usize,
    pub is_kernel: bool,
}

impl Process {
    /// The register value points at the page table and the heap holds
    /// together.
    pub open spec fn wf(&self) -> bool {
        &&& self.info.satp.holds(self.page_table)
        &&& self.heap.wf()
    }

    /// Program `pid`: a running program with a new address space in which
    /// every area of `program` is mapped, a heap from `memory_end` and no
    /// thread or file yet. `None` when an area could not be mapped.
    pub fn new(program: ProgramArea, pid: usize, memory_end: usize, pm: &mut PageManager) -> (r:
        Option<Self>)
        requires
            old(pm).wf(),
            forall|i: int| 0 <= i < program.area@.len() ==> area_mappable(#[trigger] program.area@[i]),
            memory_end + MAX_HEAP_SIZE <= usize::MAX,
        ensures
            user_pages_kept(*old(pm), *final(pm)),
            kernel_run_kept(*old(pm), *final(pm), 2 * (areas_writes(program.area@, program.is_kernel).len() as int) + 1),
            free_kernel_pages(*final(pm)) + 2 * (areas_writes(program.area@, program.is_kernel).len() as int) + 1
                >= free_kernel_pages(*old(pm)),
            final(pm).wf(),
            final(pm).kernel_base() == old(pm).kernel_base(),
            final(pm).kernel_num() == old(pm).kernel_num(),
            final(pm).user_start() == old(pm).user_start(),
            final(pm).page_size_spec() == old(pm).page_size_spec(),
            match r {
                Some(p) => {
                    &&& p.wf()
                    &&& p.info.pid == pid
                    &&& p.info.state == TaskState::Running
                    &&& p.info.is_kernel == program.is_kernel
                    &&& p.is_kernel == program.is_kernel
                    &&& p.program == program
                    &&& forall|va: usize| #[trigger] p.page_table.translate_bits(va) == last_write(areas_writes(program.area@, program.is_kernel), va)
                    &&& p.heap.virtual_heap_start == memory_end
                    &&& p.heap.virtual_heap_top == memory_end
                    &&& p.heap.memory_area@.len() == 0
                    &&& p.heap.is_kernel == program.is_kernel
                    &&& p.resource.pid == pid
                    &&& p.resource.files@.len() == 0
                    &&& p.tid@.len() == 0
                    &&& p.join_num == 0
                    &&& root_ready(*old(pm), 2 * (areas_writes(program.area@, program.is_kernel).len() as int) + 1)
                        ==> mapping_room(p.info.satp, p.page_table, *final(pm), 0)
                    &&& areas_writes(program.area@, program.is_kernel).len() > 0 ==> satp_root(p.info.satp.flag) != 0
                },
                None => !root_ready(*old(pm), 2 * (areas_writes(program.area@, program.is_kernel).len() as int) + 1),
            },
    {
        let mut satp = SATP::new();
        let mut pt = PageTable::empty();
        let ghost pt0 = pt;
        proof {
            assert((((0usize as u64) & 0xfff_ffff_ffffu64) << 12u64) as usize == 0usize) by (bit_vector);
            assert(satp_root(satp.flag) == 0);
        }
        if !program.map(&mut satp, &mut pt, pm) {
            return None;
        }
        proof {
            assert forall|va: usize| #[trigger] pt.translate_bits(va) == last_write(areas_writes(program.area@, program.is_kernel), va) by {
                assert(pt0.translate(va).is_none());
            }
        }
        let is_kernel = program.is_kernel;
        let info = ProgramInfo { pid, satp, state: TaskState::Running, is_kernel };
        Some(
            Process {
                info,
                is_kernel,
                heap: TaskHeap::new(memory_end, is_kernel),
                program,
                page_table: pt,
                resource: Resource::new(pid),
                join_num: 0,
                tid: Vec::new(),
            },
        )
    }

    /// The program's information.
    pub fn get_prog_info(&self) -> (r: ProgramInfo)
        ensures
            r == self.info,
    {
        self.info
    }

    /// The program's entry point.
    pub fn entry(&self) -> (r: usize)
        ensures
            r == self.program.entry,
    {
        self.program.entry()
    }

    /// Takes `size` bytes of the program's heap and maps what it adds
    /// into the program's address space; gives the virtual and physical
    /// address. `None` when a pool was needed and could not be made.
    pub fn alloc_heap(&mut self, size: usize, pm: &mut PageManager) -> (r: Option<(usize, usize)>)
        requires
            old(self).wf(),
            satp_root(old(self).info.satp.flag) != 0,
            old(pm).wf(),
            old(pm).page_size_spec() == PAGE_SIZE,
            size <= usize::MAX / 2 + 1,
            no_server(old(self).heap.memory_area@, size as int) ==> forall|b: int|
                is_align_of(size as int, b) ==> old(self).heap.virtual_heap_top + pool_pages(b) * 4096
                    - old(self).heap.virtual_heap_start <= MAX_HEAP_SIZE,
        ensures
            final(self).wf(),
            final(self).info == old(self).info,
            final(pm).wf(),
            final(pm).kernel_base() == old(pm).kernel_base(),
            final(pm).kernel_num() == old(pm).kernel_num(),
            final(pm).user_start() == old(pm).user_start(),
            final(pm).page_size_spec() == old(pm).page_size_spec(),
            final(self).program == old(self).program,
            final(self).tid == old(self).tid,
            final(self).resource == old(self).resource,
            final(self).join_num == old(self).join_num,
            final(self).is_kernel == old(self).is_kernel,
            final(self).heap.virtual_heap_start == old(self).heap.virtual_heap_start,
            !no_server(old(self).heap.memory_area@, size as int) ==> r is Some,
            heap_took(old(self).heap, final(self).heap, size as int, r, *old(pm), old(self).page_table, final(self).page_table),
    {
        let r = self.heap.alloc_block(size, &mut self.info.satp, &mut self.page_table, pm);
        proof {
            if !no_server(old(self).heap.memory_area@, size as int) {
                let j = choose|j: int|
                    0 <= j < old(self).heap.memory_area@.len() && crate::memory::heap_memory::task_heap::serves(
                        #[trigger] old(self).heap.memory_area@[j],
                        size as int,
                    );
                lemma_first_server_exists(old(self).heap.memory_area@, size as int, j);
            }
        }
        r
    }

    /// Gives back the heap block at `addr`.
    pub fn free_heap(&mut self, addr: usize)
        requires
            old(self).heap.wf(),
            exists|i: int|
                #[trigger] is_first_holder(old(self).heap.memory_area@, addr as int, i) && (addr
                    - old(self).heap.memory_area@[i].virtual_base) / (old(self).heap.memory_area@[i].block_size as int)
                    < old(self).heap.memory_area@[i].block_num && old(self).heap.memory_area@[i].record@[(addr
                    - old(self).heap.memory_area@[i].virtual_base) / (old(self).heap.memory_area@[i].block_size as int)],
        ensures
            final(self).heap.wf(),
            final(self).info == old(self).info,
            final(self).program == old(self).program,
            final(self).page_table == old(self).page_table,
            final(self).tid == old(self).tid,
            final(self).resource == old(self).resource,
            final(self).join_num == old(self).join_num,
            final(self).is_kernel == old(self).is_kernel,
            final(self).heap.virtual_heap_top == old(self).heap.virtual_heap_top,
            heap_freed(old(self).heap, final(self).heap, addr as int),
    {
        self.heap.free(addr);
    }

    /// Whether `va` lies in the heap's window `[memory_end, memory_end +
    /// MAX_HEAP_SIZE]` or in an area of the program.
    pub fn contain(&self, va: usize, memory_end: usize) -> (r: bool)
        requires
            memory_end + MAX_HEAP_SIZE <= usize::MAX,
        ensures
            r == (memory_end <= va <= memory_end + MAX_HEAP_SIZE || exists|j: int|
                0 <= j < self.program.area@.len() && #[trigger] self.program.area@[j].vst <= va
                    < self.program.area@[j].ved),
    {
        if va >= memory_end && va <= MAX_HEAP_SIZE + memory_end {
            true
        } else if self.program.contain(va) {
            true
        } else {
            false
        }
    }

    /// The physical address of `va`: through the heap in the heap's
    /// window, through the program's areas when one holds it, else `va`
    /// itself.
    pub fn virt_to_phy(&self, va: usize, memory_end: usize) -> (r: usize)
        requires
            memory_end + MAX_HEAP_SIZE <= usize::MAX,
            va >= memory_end ==> va <= memory_end + MAX_HEAP_SIZE && exists|i: int|
                #[trigger] is_first_holder(self.heap.memory_area@, va as int, i)
                    && self.heap.memory_area@[i].physic_addr + va <= usize::MAX,
            va < memory_end && first_containing(self.program.area@, va as int) >= 0 ==> self.program.area@[first_containing(
                self.program.area@,
                va as int,
            )].pst + va <= usize::MAX,
        ensures
            va >= memory_end ==> forall|i: int|
                #[trigger] is_first_holder(self.heap.memory_area@, va as int, i) ==> r
                    == self.heap.memory_area@[i].physic_addr + va - self.heap.memory_area@[i].virtual_base,
            va < memory_end && first_containing(self.program.area@, va as int) >= 0 ==> r
                == self.program.area@[first_containing(self.program.area@, va as int)].pst + va
                - self.program.area@[first_containing(self.program.area@, va as int)].vst,
            va < memory_end && first_containing(self.program.area@, va as int) < 0 ==> r == va,
    {
        if va >= memory_end {
            self.heap.virt_to_phy(va)
        } else if self.program.contain(va) {
            proof {
                crate::memory::program_memory::program_area::lemma_first_containing(self.program.area@, va as int);
            }
            self.program.virt_to_phy(va)
        } else {
            proof {
                crate::memory::program_memory::program_area::lemma_first_containing(self.program.area@, va as int);
            }
            va
        }
    }

    /// Records that the program took file `id`.
    pub fn push_file(&mut self, id: usize)
        ensures
            final(self).resource.files@ == old(self).resource.files@.push(id),
            final(self).resource.pid == old(self).resource.pid,
            final(self).info == old(self).info,
    {
        self.resource.push_file(id);
    }

    /// Records that the program gave file `id` back.
    pub fn release_file(&mut self, id: usize)
        ensures
            final(self).resource.files@ == without_first(old(self).resource.files@, id),
            final(self).resource.pid == old(self).resource.pid,
            final(self).info == old(self).info,
    {
        self.resource.release_file(id);
    }
}

proof fn lemma_first_server_exists(s: Seq<crate::memory::heap_memory::heap_pool::HeapPool>, size: int, j: int)
    requires
        0 <= j < s.len(),
        crate::memory::heap_memory::task_heap::serves(s[j], size),
    ensures
        exists|i: int| #[trigger] crate::memory::heap_memory::task_heap::is_first_server(s, size, i),
    decreases j,
{
    if forall|k: int| 0 <= k < j ==> !crate::memory::heap_memory::task_heap::serves(#[trigger] s[k], size) {
        assert(crate::memory::heap_memory::task_heap::is_first_server(s, size, j));
    } else {
        let k = choose|k: int| 0 <= k < j && crate::memory::heap_memory::task_heap::serves(#[trigger] s[k], size);
        lemma_first_server_exists(s, size, k);
    }
}

} // verus!
