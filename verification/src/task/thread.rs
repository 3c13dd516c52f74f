//! A thread: the execution unit of a program, with its own registers and
//! stack. A program's first thread starts at its entry; a fork continues
//! after the call on a copy of the stack; a branch starts a function on a
//! fresh stack.

use vstd::prelude::*;
use crate::memory::config::PAGE_SIZE;
use crate::memory::page::{PageManager, no_fit, first_fit_at};
use crate::memory::map::page_table::page_writes;
use crate::memory::map::satp::{satp_root, has_room, mapping_room};
use crate::memory::stack_memory::task_stack::{TaskStack, first_stack_area, copy_rest_room, stack_flag, stack_writes};
use super::process::{Process, MAX_HEAP_SIZE};
use super::task_info::{Environment, ExecutionInfo, Register, TaskState};

verus! {

/// The most pages a thread's stack may have.
pub const MAX_STACK_PAGE: usize = 64;
/// The pages a stack grows by.
pub const STACK_PAGE_NUM: usize = 16;

/// The top of the stack of thread `tid`: each thread has a window of twice
/// the largest stack above the heap window that follows physical memory.
pub open spec fn stack_top_of(memory_end: int, tid: int) -> int {
    memory_end / 4096 * 4096 + MAX_HEAP_SIZE + (tid + 1) * 64 * 2 * 4096
}

/// A thread: what is known of it, and its stack.
#[derive(Debug)]
pub struct Thread {
    pub info: ExecutionInfo,
    pub stack: TaskStack,
}

fn stack_top_for(memory_end: usize, tid: usize) -> (r: usize)
    requires
        stack_top_of(memory_end as int, tid as int) + PAGE_SIZE <= usize::MAX,
    ensures
        r == stack_top_of(memory_end as int, tid as int),
{
    proof {
        assert(memory_end / 4096 * 4096 <= memory_end) by (nonlinear_arith);
        assert((tid + 1) * 64 * 2 * 4096 >= 0) by (nonlinear_arith);
    }
    let t = memory_end / PAGE_SIZE * PAGE_SIZE + MAX_HEAP_SIZE;
    t + (tid + 1) * MAX_STACK_PAGE * 2 * PAGE_SIZE
}


/// The registers of a fork: the source's, continuing after the call, with
/// 0 in a0 and the stack pointer at the same depth below `stack_top` as
/// the source's below `src_top`.
fn fork_env(src: &Environment, src_top: usize, stack_top: usize) -> (r: Environment)
    requires
        src.epc + 4 <= usize::MAX,
        src_top >= src.regs@[2],
        stack_top >= src_top - src.regs@[2],
    ensures
        r.epc == src.epc + 4,
        r.satp == src.satp,
        r.hartid == src.hartid,
        r.regs@ == src.regs@.update(2, (stack_top - (src_top - src.regs@[2])) as usize).update(10, 0),
{
    let mut env = *src;
    env.epc = src.epc + 4;
    env.regs[Register::SP.val()] = stack_top - (src_top - src.regs[Register::SP.val()]);
    env.regs[Register::A0.val()] = 0;
    proof {
        assert(env.regs@ =~= src.regs@.update(2, (stack_top - (src_top - src.regs@[2])) as usize).update(10, 0));
    }
    env
}

impl Thread {
    /// The main thread `tid` of program `p`, started by a thread with
    /// registers `src_env`: it starts at the program's entry in the
    /// program's address space, with the caller's a3, a4, a5 as its
    /// a0, a1, a2, its stack at its window's top and `process_exit` as
    /// return address; it sleeps until woken. Its stack gets its first
    /// sixteen pages, mapped as data below its top (the address space's
    /// root table made first when there is none); `None` when they could
    /// not be had or mapped.
    pub fn new(
        p: &mut Process,
        src_env: &Environment,
        tid: usize,
        memory_end: usize,
        process_exit: usize,
        pm: &mut PageManager,
    ) -> (r: Option<Self>)
        requires
            old(p).wf(),
            old(pm).wf(),
            old(pm).page_size_spec() == PAGE_SIZE,
            stack_top_of(memory_end as int, tid as int) + PAGE_SIZE <= usize::MAX,
        ensures
            final(p).wf(),
            final(p).info.pid == old(p).info.pid,
            final(p).info.is_kernel == old(p).info.is_kernel,
            satp_root(old(p).info.satp.flag) != 0 ==> final(p).info == old(p).info,
            final(p).program == old(p).program,
            final(p).info.state == old(p).info.state,
            final(p).tid == old(p).tid,
            final(p).join_num == old(p).join_num,
            final(p).resource == old(p).resource,
            final(p).heap == old(p).heap,
            final(p).is_kernel == old(p).is_kernel,
            final(pm).wf(),
            final(pm).kernel_base() == old(pm).kernel_base(),
            final(pm).kernel_num() == old(pm).kernel_num(),
            final(pm).user_start() == old(pm).user_start(),
            final(pm).page_size_spec() == old(pm).page_size_spec(),
            match r {
                Some(t) => {
                    let top = stack_top_of(memory_end as int, tid as int);
                    &&& t.info.priority == 1
                    &&& t.info.state == TaskState::Sleeping
                    &&& t.info.stack_top == top
                    &&& t.info.pid == old(p).info.pid
                    &&& t.info.tid == tid
                    &&& t.info.is_kernel == old(p).is_kernel
                    &&& t.info.is_main
                    &&& t.info.trigger_time == 0
                    &&& t.info.env.epc == old(p).program.entry
                    &&& t.info.env.satp == old(p).info.satp.flag
                    &&& t.info.env.hartid == 0
                    &&& forall|i: int|
                        0 <= i < 32 ==> #[trigger] t.info.env.regs@[i] == if i == 10 {
                            src_env.regs@[13]
                        } else if i == 11 {
                            src_env.regs@[14]
                        } else if i == 12 {
                            src_env.regs@[15]
                        } else if i == 2 {
                            top as usize
                        } else if i == 1 {
                            process_exit
                        } else {
                            0
                        }
                    &&& t.stack.wf()
                    &&& t.stack.stack_top == top
                    &&& t.stack.stack_bottom == top - 16 * 4096
                    &&& t.stack.last_page == 48
                    &&& t.stack.tid == tid
                    &&& t.stack.is_kernel == old(p).is_kernel
                    &&& t.stack.area@.len() == 1
                    &&& first_fit_at(*old(pm), old(p).is_kernel, 16, t.stack.area@[0].pst as int)
                    &&& final(p).page_table.written_over(
                        old(p).page_table,
                        page_writes(
                            top - 16 * 4096,
                            t.stack.area@[0].pst as int,
                            16,
                            stack_flag(old(p).is_kernel),
                        ),
                    )
                },
                None => no_fit(*old(pm), old(p).is_kernel, 16) || !mapping_room(
                    old(p).info.satp,
                    old(p).page_table,
                    *old(pm),
                    32 + if old(p).is_kernel {
                        16int
                    } else {
                        0
                    },
                ),
            },
    {
        let mut env = Environment::new();
        let stack_top = stack_top_for(memory_end, tid);
        env.epc = p.entry();
        env.satp = p.info.satp.val();
        env.regs[Register::A0.val()] = src_env.a3();
        env.regs[Register::A1.val()] = src_env.a4();
        env.regs[Register::A2.val()] = src_env.a5();
        env.regs[Register::SP.val()] = stack_top;
        env.regs[Register::RA.val()] = process_exit;
        let mut stack = TaskStack::new(tid, stack_top, MAX_STACK_PAGE, p.is_kernel);
        if stack.expand(STACK_PAGE_NUM, &mut p.info.satp, &mut p.page_table, pm).is_err() {
            return None;
        }
        proof {
            assert forall|i: int| 0 <= i < 32 implies #[trigger] env.regs@[i] == if i == 10 {
                src_env.regs@[13]
            } else if i == 11 {
                src_env.regs@[14]
            } else if i == 12 {
                src_env.regs@[15]
            } else if i == 2 {
                stack_top
            } else if i == 1 {
                process_exit
            } else {
                0
            } by {}
        }
        Some(
            Self {
                info: ExecutionInfo {
                    priority: 1,
                    env,
                    state: TaskState::Sleeping,
                    stack_top,
                    pid: p.info.pid,
                    tid,
                    is_kernel: p.is_kernel,
                    is_main: true,
                    trigger_time: 0,
                },
                stack,
            },
        )
    }

    /// Thread `tid` (a number other than the source's), a fork of `src_th`
    /// in program `p`: it continues after the call with the source's
    /// registers, 0 in a0, and its stack pointer at the same depth in a
    /// copy of the source's stack. Gives the thread
    /// and the copies of stack frames to make. `None` when the stack's
    /// pages could not be had or mapped.
    #[verifier::spinoff_prover]
    #[verifier::rlimit(100)]
    pub fn fork(
        src_th: &Thread,
        p: &mut Process,
        tid: usize,
        memory_end: usize,
        pm: &mut PageManager,
    ) -> (r: Option<(Self, Vec<(usize, usize, usize)>)>)
        requires
            old(p).wf(),
            old(pm).wf(),
            old(pm).page_size_spec() == PAGE_SIZE,
            src_th.stack.wf(),
            stack_top_of(memory_end as int, tid as int) + PAGE_SIZE <= usize::MAX,
            tid != src_th.info.tid,
            stack_top_of(memory_end as int, tid as int) >= src_th.stack.stack_top
                - src_th.stack.stack_bottom,
            (src_th.stack.stack_top - src_th.stack.stack_bottom) / 4096 <= 64,
            src_th.info.env.epc + 4 <= usize::MAX,
            src_th.info.stack_top >= src_th.info.env.regs@[2],
            stack_top_of(memory_end as int, tid as int) >= src_th.info.stack_top
                - src_th.info.env.regs@[2],
        ensures
            final(p).wf(),
            final(p).info.pid == old(p).info.pid,
            final(p).info.is_kernel == old(p).info.is_kernel,
            satp_root(old(p).info.satp.flag) != 0 ==> final(p).info == old(p).info,
            final(p).program == old(p).program,
            final(p).info.state == old(p).info.state,
            final(p).tid == old(p).tid,
            final(p).join_num == old(p).join_num,
            final(p).resource == old(p).resource,
            final(p).heap == old(p).heap,
            final(p).is_kernel == old(p).is_kernel,
            final(pm).wf(),
            final(pm).kernel_base() == old(pm).kernel_base(),
            final(pm).kernel_num() == old(pm).kernel_num(),
            final(pm).user_start() == old(pm).user_start(),
            final(pm).page_size_spec() == old(pm).page_size_spec(),
            match r {
                Some((t, copies)) => {
                    let top = stack_top_of(memory_end as int, tid as int);
                    &&& t.info.priority == 1
                    &&& t.info.state == TaskState::Waiting
                    &&& t.info.stack_top == top
                    &&& t.info.pid == src_th.info.pid
                    &&& t.info.tid == tid
                    &&& t.info.is_kernel == src_th.info.is_kernel
                    &&& !t.info.is_main
                    &&& t.info.trigger_time == 0
                    &&& t.info.env.epc == src_th.info.env.epc + 4
                    &&& t.info.env.satp == src_th.info.env.satp
                    &&& t.info.env.hartid == src_th.info.env.hartid
                    &&& t.info.env.regs@ == src_th.info.env.regs@.update(
                        2,
                        (top - (src_th.info.stack_top - src_th.info.env.regs@[2])) as usize,
                    ).update(10, 0)
                    &&& t.stack.stack_top == top
                    &&& t.stack.stack_bottom == top - (src_th.stack.stack_top
                        - src_th.stack.stack_bottom)
                    &&& copies@.len() == src_th.stack.area@.len()
                    &&& t.stack.area@.len() == src_th.stack.area@.len()
                    &&& forall|k: int|
                        0 <= k < src_th.stack.area@.len() ==> {
                            let n = src_th.stack.area@.len();
                            let oa = src_th.stack.area@[n - 1 - k];
                            let na = #[trigger] t.stack.area@[k];
                            &&& na.vst == t.stack.stack_bottom + (oa.vst - src_th.stack.stack_bottom)
                            &&& na.ved == na.vst + (oa.ved - oa.vst)
                            &&& copies@[k] == (na.pst, oa.pst, (oa.ped - oa.pst) as usize)
                        }
                    &&& final(p).page_table.written_over(
                        old(p).page_table,
                        stack_writes(t.stack.area@, stack_flag(src_th.info.is_kernel)),
                    )
                },
                None => true,
            },
            copy_rest_room(
                src_th.info.is_kernel,
                src_th.stack.stack_top - src_th.stack.stack_bottom,
                old(p).info.satp,
                old(p).page_table,
                *old(pm),
            ) ==> r is Some,
    {
        let stack_top = stack_top_for(memory_end, tid);
        let mut stack = TaskStack::new(tid, stack_top, MAX_STACK_PAGE, src_th.info.is_kernel);
        let copies = match stack.copy(&src_th.stack, &mut p.info.satp, &mut p.page_table, pm) {
            Ok(c) => c,
            Err(()) => {
                return None;
            },
        };
        proof {
            let n = src_th.stack.area@.len();
            assert(stack.area@.len() == n);
            assert(stack.area@.subrange(0, n as int) =~= stack.area@);
            assert(p.page_table.written_over(old(p).page_table, stack_writes(stack.area@, stack_flag(src_th.info.is_kernel))));
            assert forall|k: int| 0 <= k < n implies {
                let oa = src_th.stack.area@[n - 1 - k];
                let na = #[trigger] stack.area@[k];
                &&& na.vst == stack.stack_bottom + (oa.vst - src_th.stack.stack_bottom)
                &&& na.ved == na.vst + (oa.ved - oa.vst)
                &&& copies@[k] == (na.pst, oa.pst, (oa.ped - oa.pst) as usize)
            } by {
                assert(stack.area@[0 + k] == stack.area@[k]);
            }
        }
        let env = fork_env(&src_th.info.env, src_th.info.stack_top, stack_top);
        Some(
            (
                Self {
                    info: ExecutionInfo {
                        priority: 1,
                        env,
                        state: TaskState::Waiting,
                        stack_top,
                        pid: src_th.info.pid,
                        tid,
                        is_kernel: src_th.info.is_kernel,
                        is_main: false,
                        trigger_time: 0,
                    },
                    stack,
                },
                copies,
            ),
        )
    }

    /// Thread `tid` (a number other than the source's), a branch of
    /// `src_th`: it starts the function whose address is in the source's
    /// a1, with the source's a2 as its a0, `thread_exit` as return address
    /// and an empty stack at its window's top.
    pub fn branch(src_th: &Thread, tid: usize, memory_end: usize, thread_exit: usize) -> (r: Self)
        requires
            stack_top_of(memory_end as int, tid as int) + PAGE_SIZE <= usize::MAX,
            tid != src_th.info.tid,
        ensures
            r.info.priority == 1,
            r.info.state == TaskState::Waiting,
            r.info.stack_top == stack_top_of(memory_end as int, tid as int),
            r.info.pid == src_th.info.pid,
            r.info.tid == tid,
            r.info.is_kernel == src_th.info.is_kernel,
            !r.info.is_main,
            r.info.trigger_time == 0,
            r.info.env.epc == src_th.info.env.regs@[11],
            r.info.env.satp == src_th.info.env.satp,
            r.info.env.hartid == src_th.info.env.hartid,
            r.info.env.regs@ == src_th.info.env.regs@.update(10, src_th.info.env.regs@[12]).update(
                1,
                thread_exit,
            ).update(2, stack_top_of(memory_end as int, tid as int) as usize),
            r.stack.wf(),
            r.stack.stack_top == stack_top_of(memory_end as int, tid as int),
            r.stack.stack_bottom == r.stack.stack_top,
            r.stack.area@.len() == 0,
            r.stack.last_page == 64,
            r.stack.tid == tid,
            r.stack.is_kernel == src_th.info.is_kernel,
    {
        let mut env = src_th.info.env;
        let stack_top = stack_top_for(memory_end, tid);
        env.epc = src_th.info.env.regs[Register::A1.val()];
        env.regs[Register::A0.val()] = env.a2();
        env.regs[Register::RA.val()] = thread_exit;
        env.regs[Register::SP.val()] = stack_top;
        proof {
            assert(env.regs@ =~= src_th.info.env.regs@.update(10, src_th.info.env.regs@[12]).update(
                1,
                thread_exit,
            ).update(2, stack_top));
        }
        Self {
            info: ExecutionInfo {
                priority: 1,
                env,
                state: TaskState::Waiting,
                stack_top,
                pid: src_th.info.pid,
                tid,
                is_kernel: src_th.info.is_kernel,
                is_main: false,
                trigger_time: 0,
            },
            stack: TaskStack::new(tid, stack_top, MAX_STACK_PAGE, src_th.info.is_kernel),
        }
    }

    /// Puts the thread to sleep.
    pub fn sleep(&mut self)
        ensures
            final(self).info == (ExecutionInfo { state: TaskState::Sleeping, ..old(self).info }),
            final(self).stack == old(self).stack,
    {
        self.info.state = TaskState::Sleeping;
    }

    /// Wakes the thread: it waits to be scheduled.
    pub fn wake(&mut self)
        ensures
            final(self).info == (ExecutionInfo { state: TaskState::Waiting, ..old(self).info }),
            final(self).stack == old(self).stack,
    {
        self.info.state = TaskState::Waiting;
    }

    /// Grows the stack by its step of pages in program `p`'s address space.
    pub fn expand_stack(&mut self, p: &mut Process, pm: &mut PageManager) -> (r: Result<(), ()>)
        requires
            old(p).wf(),
            old(pm).wf(),
            old(pm).page_size_spec() == PAGE_SIZE,
            16 <= old(self).stack.last_page ==> 16 * 4096 <= old(self).stack.stack_bottom,
            old(self).stack.stack_bottom + PAGE_SIZE <= usize::MAX,
        ensures
            final(p).wf(),
            final(p).info.pid == old(p).info.pid,
            final(p).program == old(p).program,
            final(p).info.state == old(p).info.state,
            final(p).tid == old(p).tid,
            final(p).join_num == old(p).join_num,
            final(p).resource == old(p).resource,
            final(p).heap == old(p).heap,
            final(p).is_kernel == old(p).is_kernel,
            final(pm).wf(),
            final(self).info == old(self).info,
            final(self).stack.stack_top == old(self).stack.stack_top,
            old(self).stack.last_page < 16 ==> r is Err && final(self).stack == old(self).stack,
            r is Ok ==> final(self).stack.stack_bottom == old(self).stack.stack_bottom - 16 * 4096
                && final(self).stack.last_page == old(self).stack.last_page - 16,
            r is Err ==> old(self).stack.last_page < 16 || no_fit(*old(pm), old(self).stack.is_kernel, 16)
                || !has_room(
                old(p).info.satp,
                old(p).page_table,
                *old(pm),
                32 + if old(self).stack.is_kernel {
                    16int
                } else {
                    0
                },
            ),
            old(self).stack.wf() ==> final(self).stack.wf(),
    {
        self.stack.expand(STACK_PAGE_NUM, &mut p.info.satp, &mut p.page_table, pm)
    }

    /// What is known of the thread.
    pub fn get_exec_info(&self) -> (r: ExecutionInfo)
        ensures
            r == self.info,
    {
        self.info
    }

    /// Records the registers the thread stopped with.
    pub fn save(&mut self, env: &Environment)
        ensures
            final(self).info == (ExecutionInfo { env: *env, ..old(self).info }),
            final(self).stack == old(self).stack,
    {
        self.info.env = *env;
    }

    /// The physical address of stack address `va`.
    pub fn virt_to_phy(&self, va: usize) -> (r: usize)
        requires
            first_stack_area(self.stack.area@, va as int) >= 0,
            self.stack.area@[first_stack_area(self.stack.area@, va as int)].pst + (va
                - self.stack.area@[first_stack_area(self.stack.area@, va as int)].vst) <= usize::MAX,
        ensures
            r == self.stack.area@[first_stack_area(self.stack.area@, va as int)].pst + (va
                - self.stack.area@[first_stack_area(self.stack.area@, va as int)].vst),
    {
        self.stack.virt_to_phy(va)
    }
}

} // verus!
