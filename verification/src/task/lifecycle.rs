//! Threads and programs coming into the pool and leaving it: a program
//! started with its main thread, a thread forked or branched from the one
//! running on a hart, a whole program ended; and what a thread asks of its
//! program: heap, addresses and stack.

use vstd::prelude::*;
use crate::memory::config::PAGE_SIZE;
use crate::memory::page::{PageManager, no_fit, lemma_user_fit_kept};
use crate::memory::program_memory::program_area::{ProgramArea, Area, area_mappable, first_containing, areas_writes};
use crate::memory::stack_memory::task_stack::first_stack_area;
use crate::memory::heap_memory::task_heap::{is_first_holder, no_server, heap_took, heap_freed};
use crate::memory::heap_memory::heap_pool::{is_align_of, pool_pages};
use crate::memory::map::satp::{satp_root, has_room, root_ready};
use super::process::{Process, MAX_HEAP_SIZE};
use super::task_info::{Environment, ExecutionInfo, TaskState};
use super::task_pool::{
    TaskPool, tids_sorted, pids_sorted, keys_sorted, has_tid, has_pid, woken, waiters_of, lemma_unique_tid, lemma_same_ids,
    lemma_waiters_at, lemma_waiters_absent,
};
use super::thread::{Thread, stack_top_of};

verus! {

/// How many of the threads `s` have a number below `id`: where a thread
/// numbered `id` goes among threads kept in order.
pub open spec fn tid_rank(s: Seq<Thread>, id: usize) -> int
    decreases s.len(),
{
    if s.len() == 0 {
        0
    } else {
        tid_rank(s.drop_last(), id) + if s.last().info.tid < id {
            1int
        } else {
            0int
        }
    }
}

/// How many of the programs `s` have a number below `pid`.
pub open spec fn pid_rank(s: Seq<Process>, pid: usize) -> int
    decreases s.len(),
{
    if s.len() == 0 {
        0
    } else {
        pid_rank(s.drop_last(), pid) + if s.last().info.pid < pid {
            1int
        } else {
            0int
        }
    }
}

/// The threads `s` with `t` put in its place by number: in place of the
/// thread with its number, or else inserted there.
pub open spec fn thread_put(s: Seq<Thread>, t: Thread) -> Seq<Thread> {
    if has_tid(s, t.info.tid) {
        s.update(tid_rank(s, t.info.tid), t)
    } else {
        s.insert(tid_rank(s, t.info.tid), t)
    }
}

/// The programs `s` with `p` put in its place by number.
pub open spec fn process_put(s: Seq<Process>, p: Process) -> Seq<Process> {
    if has_pid(s, p.info.pid) {
        s.update(pid_rank(s, p.info.pid), p)
    } else {
        s.insert(pid_rank(s, p.info.pid), p)
    }
}

proof fn lemma_tid_rank(s: Seq<Thread>, id: usize, pos: int)
    requires
        0 <= pos <= s.len(),
        forall|j: int| 0 <= j < pos ==> #[trigger] s[j].info.tid < id,
        forall|j: int| pos <= j < s.len() ==> #[trigger] s[j].info.tid >= id,
    ensures
        tid_rank(s, id) == pos,
    decreases s.len(),
{
    if s.len() > 0 {
        let t = s.drop_last();
        if pos == s.len() {
            assert(s[s.len() - 1].info.tid < id);
            assert forall|j: int| 0 <= j < pos - 1 implies #[trigger] t[j].info.tid < id by {
                assert(s[j].info.tid < id);
            }
            lemma_tid_rank(t, id, pos - 1);
        } else {
            assert(s[s.len() - 1].info.tid >= id);
            assert forall|j: int| 0 <= j < pos implies #[trigger] t[j].info.tid < id by {
                assert(s[j].info.tid < id);
            }
            assert forall|j: int| pos <= j < t.len() implies #[trigger] t[j].info.tid >= id by {
                assert(s[j].info.tid >= id);
            }
            lemma_tid_rank(t, id, pos);
        }
    }
}

proof fn lemma_pid_rank(s: Seq<Process>, pid: usize, pos: int)
    requires
        0 <= pos <= s.len(),
        forall|j: int| 0 <= j < pos ==> #[trigger] s[j].info.pid < pid,
        forall|j: int| pos <= j < s.len() ==> #[trigger] s[j].info.pid >= pid,
    ensures
        pid_rank(s, pid) == pos,
    decreases s.len(),
{
    if s.len() > 0 {
        let t = s.drop_last();
        if pos == s.len() {
            assert(s[s.len() - 1].info.pid < pid);
            assert forall|j: int| 0 <= j < pos - 1 implies #[trigger] t[j].info.pid < pid by {
                assert(s[j].info.pid < pid);
            }
            lemma_pid_rank(t, pid, pos - 1);
        } else {
            assert(s[s.len() - 1].info.pid >= pid);
            assert forall|j: int| 0 <= j < pos implies #[trigger] t[j].info.pid < pid by {
                assert(s[j].info.pid < pid);
            }
            assert forall|j: int| pos <= j < t.len() implies #[trigger] t[j].info.pid >= pid by {
                assert(s[j].info.pid >= pid);
            }
            lemma_pid_rank(t, pid, pos);
        }
    }
}

proof fn lemma_tid_rank_bounds(s: Seq<Thread>, id: usize)
    ensures
        0 <= tid_rank(s, id) <= s.len(),
    decreases s.len(),
{
    if s.len() > 0 {
        lemma_tid_rank_bounds(s.drop_last(), id);
    }
}

proof fn lemma_tid_rank_le(s: Seq<Thread>, id: usize, j: int)
    requires
        tids_sorted(s),
        0 <= j < s.len(),
        s[j].info.tid == id,
    ensures
        tid_rank(s, id) <= j,
    decreases s.len(),
{
    let t = s.drop_last();
    assert forall|a: int, b: int| 0 <= a < b < t.len() implies #[trigger] t[a].info.tid < #[trigger] t[b].info.tid by {
        assert(s[a].info.tid < s[b].info.tid);
    }
    if j == s.len() - 1 {
        lemma_tid_rank_bounds(t, id);
    } else {
        assert(s[j].info.tid < s[s.len() - 1].info.tid);
        lemma_tid_rank_le(t, id, j);
    }
}

/// After a thread is put in, its number is there.
pub proof fn lemma_put_has(s: Seq<Thread>, t: Thread)
    requires
        tids_sorted(s),
    ensures
        exists|j: int| 0 <= j < thread_put(s, t).len() && #[trigger] thread_put(s, t)[j] == t,
        has_tid(thread_put(s, t), t.info.tid),
{
    let id = t.info.tid;
    let r = tid_rank(s, id);
    lemma_tid_rank_bounds(s, id);
    if has_tid(s, id) {
        let j = choose|j: int| 0 <= j < s.len() && #[trigger] s[j].info.tid == id;
        lemma_tid_rank_le(s, id, j);
        assert(thread_put(s, t)[r] == t);
    } else {
        s.insert_ensures(r, t);
        assert(thread_put(s, t)[r] == t);
    }
}

/// Programs `b` have the numbers of programs `a`, in the same places: the
/// order and every thread's program carry over.
pub(crate) proof fn lemma_same_pids(a: Seq<Process>, b: Seq<Process>, threads: Seq<Thread>)
    requires
        a.len() == b.len(),
        forall|k: int| 0 <= k < a.len() ==> #[trigger] b[k].info.pid == a[k].info.pid,
        pids_sorted(a),
        forall|i: int| 0 <= i < threads.len() ==> has_pid(a, #[trigger] threads[i].info.pid),
    ensures
        pids_sorted(b),
        forall|i: int| 0 <= i < threads.len() ==> has_pid(b, #[trigger] threads[i].info.pid),
{
    assert forall|x: int, y: int| 0 <= x < y < b.len() implies #[trigger] b[x].info.pid < #[trigger] b[y].info.pid by {
        assert(a[x].info.pid < a[y].info.pid);
    }
    assert forall|i: int| 0 <= i < threads.len() implies has_pid(b, #[trigger] threads[i].info.pid) by {
        let w = choose|w: int| 0 <= w < a.len() && #[trigger] a[w].info.pid == threads[i].info.pid;
        assert(b[w].info.pid == threads[i].info.pid);
    }
}

/// `info` is what is known of main thread `tid` of program `pid` when it
/// was just made by a thread with registers `src_env`: it sleeps with
/// priority 1 and no timer, starts at `entry` on hart 0 with the caller's
/// a3, a4, a5 as its a0, a1, a2, its stack pointer at its window's top and
/// `process_exit` as return address.
pub open spec fn main_thread_info(
    info: ExecutionInfo,
    pid: usize,
    tid: usize,
    is_kernel: bool,
    entry: usize,
    src_env: Environment,
    memory_end: usize,
    process_exit: usize,
) -> bool {
    let top = stack_top_of(memory_end as int, tid as int);
    &&& info.priority == 1
    &&& info.state == TaskState::Sleeping
    &&& info.stack_top == top
    &&& info.pid == pid
    &&& info.tid == tid
    &&& info.is_kernel == is_kernel
    &&& info.is_main
    &&& info.trigger_time == 0
    &&& info.env.epc == entry
    &&& info.env.hartid == 0
    &&& forall|i: int|
        0 <= i < 32 ==> #[trigger] info.env.regs@[i] == if i == 10 {
            src_env.regs@[13]
        } else if i == 11 {
            src_env.regs@[14]
        } else if i == 12 {
            src_env.regs@[15]
        } else if i == 2 {
            top as usize
        } else if i == 1 {
            process_exit
        } else {
            0
        }
}

/// Thread `i` of `s` is the first, in order of number, that runs on hart
/// `hartid`.
pub open spec fn first_running(s: Seq<Thread>, hartid: usize, i: int) -> bool {
    &&& 0 <= i < s.len()
    &&& s[i].info.state == TaskState::Running
    &&& s[i].info.env.hartid == hartid
    &&& forall|j: int|
        0 <= j < i ==> !(#[trigger] s[j].info.state == TaskState::Running && s[j].info.env.hartid == hartid)
}

/// Thread `t` with the registers `env` it stopped with recorded.
pub open spec fn saved(t: Thread, env: Environment) -> Thread {
    Thread { info: ExecutionInfo { env, ..t.info }, stack: t.stack }
}

/// Thread `t`, which stopped with registers `env`, can be forked as
/// thread `tid`: its stack holds together and fits the new window, and its
/// stack pointer lies in it.
pub open spec fn can_fork(t: Thread, env: Environment, tid: usize, memory_end: usize) -> bool {
    let top = stack_top_of(memory_end as int, tid as int);
    &&& t.stack.wf()
    &&& top + PAGE_SIZE <= usize::MAX
    &&& top >= t.stack.stack_top - t.stack.stack_bottom
    &&& (t.stack.stack_top - t.stack.stack_bottom) / 4096 <= 64
    &&& env.epc + 4 <= usize::MAX
    &&& t.info.stack_top >= env.regs@[2]
    &&& top >= t.info.stack_top - env.regs@[2]
}

/// `info` is what is known of thread `tid` just forked from a thread
/// known as `src`: it waits with priority 1 and no timer, continues after
/// the call with 0 in a0 and its stack pointer at the same depth in its
/// own window.
pub open spec fn forked_info(info: ExecutionInfo, src: ExecutionInfo, tid: usize, memory_end: usize) -> bool {
    let top = stack_top_of(memory_end as int, tid as int);
    &&& info.priority == 1
    &&& info.state == TaskState::Waiting
    &&& info.stack_top == top
    &&& info.pid == src.pid
    &&& info.tid == tid
    &&& info.is_kernel == src.is_kernel
    &&& !info.is_main
    &&& info.trigger_time == 0
    &&& info.env.epc == src.env.epc + 4
    &&& info.env.satp == src.env.satp
    &&& info.env.hartid == src.env.hartid
    &&& info.env.regs@ == src.env.regs@.update(2, (top - (src.stack_top - src.env.regs@[2])) as usize).update(
        10,
        0,
    )
}

/// `info` is what is known of thread `tid` just branched from a thread
/// known as `src`: it waits with priority 1 and no timer, and starts the
/// function whose address was in the source's a1 with the source's a2 as
/// its a0, `thread_exit` as return address and an empty stack.
pub open spec fn branched_info(
    info: ExecutionInfo,
    src: ExecutionInfo,
    tid: usize,
    memory_end: usize,
    thread_exit: usize,
) -> bool {
    let top = stack_top_of(memory_end as int, tid as int);
    &&& info.priority == 1
    &&& info.state == TaskState::Waiting
    &&& info.stack_top == top
    &&& info.pid == src.pid
    &&& info.tid == tid
    &&& info.is_kernel == src.is_kernel
    &&& !info.is_main
    &&& info.trigger_time == 0
    &&& info.env.epc == src.env.regs@[11]
    &&& info.env.satp == src.env.satp
    &&& info.env.hartid == src.env.hartid
    &&& info.env.regs@ == src.env.regs@.update(10, src.env.regs@[12]).update(1, thread_exit).update(
        2,
        top as usize,
    )
}

/// The threads `s` without those of program `pid`.
pub open spec fn drop_program(s: Seq<Thread>, pid: usize) -> Seq<Thread>
    decreases s.len(),
{
    if s.len() == 0 {
        Seq::empty()
    } else if s.last().info.pid == pid {
        drop_program(s.drop_last(), pid)
    } else {
        drop_program(s.drop_last(), pid).push(s.last())
    }
}

/// Those waiting for the threads of program `pid` among `s`, thread by
/// thread in order.
pub open spec fn program_waiters(s: Seq<Thread>, wl: Seq<(usize, Vec<usize>)>, pid: usize) -> Seq<usize>
    decreases s.len(),
{
    if s.len() == 0 {
        Seq::empty()
    } else if s.last().info.pid == pid {
        program_waiters(s.drop_last(), wl, pid) + waiters_of(wl, s.last().info.tid)
    } else {
        program_waiters(s.drop_last(), wl, pid)
    }
}

/// Ending the threads of program `pid` among `s` one by one in order of
/// number wakes only threads still there: each waiter of such a thread is
/// a thread of another program, or of this one with a greater number.
pub open spec fn waiters_stay(s: Seq<Thread>, wl: Seq<(usize, Vec<usize>)>, pid: usize) -> bool {
    forall|r: int, q: int|
        0 <= r < s.len() && s[r].info.pid == pid && 0 <= q < waiters_of(wl, s[r].info.tid).len() ==> {
            let w = #[trigger] waiters_of(wl, s[r].info.tid)[q];
            &&& has_tid(s, w)
            &&& forall|j: int|
                0 <= j < s.len() && #[trigger] s[j].info.tid == w ==> s[j].info.pid != pid || w > s[r].info.tid
        }
}

/// `w` waits for some thread of program `pid` among `s`.
pub open spec fn waits_on_program(s: Seq<Thread>, wl: Seq<(usize, Vec<usize>)>, pid: usize, w: usize) -> bool {
    exists|r: int, q: int|
        0 <= r < s.len() && s[r].info.pid == pid && 0 <= q < waiters_of(wl, s[r].info.tid).len()
            && #[trigger] waiters_of(wl, s[r].info.tid)[q] == w
}

proof fn lemma_program_waiters(s: Seq<Thread>, wl: Seq<(usize, Vec<usize>)>, pid: usize)
    ensures
        forall|m: int|
            0 <= m < program_waiters(s, wl, pid).len() ==> waits_on_program(
                s,
                wl,
                pid,
                #[trigger] program_waiters(s, wl, pid)[m],
            ),
    decreases s.len(),
{
    if s.len() > 0 {
        let t = s.drop_last();
        lemma_program_waiters(t, wl, pid);
        let pw = program_waiters(s, wl, pid);
        let pt = program_waiters(t, wl, pid);
        let last = s.len() - 1;
        assert(s[last] == s.last());
        assert forall|m: int| 0 <= m < pw.len() implies waits_on_program(s, wl, pid, #[trigger] pw[m]) by {
            if m < pt.len() {
                if s.last().info.pid == pid {
                    assert(pw == pt + waiters_of(wl, s.last().info.tid));
                } else {
                    assert(pw == pt);
                }
                assert(pw[m] == pt[m]);
                assert(waits_on_program(t, wl, pid, pt[m]));
                let (r, q) = choose|r: int, q: int|
                    0 <= r < t.len() && t[r].info.pid == pid && 0 <= q < waiters_of(wl, t[r].info.tid).len()
                        && #[trigger] waiters_of(wl, t[r].info.tid)[q] == pt[m];
                assert(s[r] == t[r]);
                assert(waiters_of(wl, s[r].info.tid)[q] == pw[m]);
            } else {
                assert(s.last().info.pid == pid);
                let wo = waiters_of(wl, s.last().info.tid);
                assert(pw == pt + wo);
                let q = m - pt.len();
                assert(pw[m] == wo[q]);
                assert(waiters_of(wl, s[last].info.tid)[q] == pw[m]);
            }
        }
    }
}

proof fn lemma_drop_program(s: Seq<Thread>, pid: usize)
    requires
        tids_sorted(s),
    ensures
        tids_sorted(drop_program(s, pid)),
        forall|m: int|
            #![trigger drop_program(s, pid)[m]]
            0 <= m < drop_program(s, pid).len() ==> drop_program(s, pid)[m].info.pid != pid
                && s.contains(drop_program(s, pid)[m]),
    decreases s.len(),
{
    if s.len() > 0 {
        let t = s.drop_last();
        let last = s.len() - 1;
        assert(s[last] == s.last());
        assert forall|a: int, b: int| 0 <= a < b < t.len() implies #[trigger] t[a].info.tid < #[trigger] t[b].info.tid by {
            assert(s[a].info.tid < s[b].info.tid);
        }
        lemma_drop_program(t, pid);
        let d = drop_program(s, pid);
        let dt = drop_program(t, pid);
        if s.last().info.pid != pid {
            assert(d == dt.push(s.last()));
            assert forall|m: int| 0 <= m < dt.len() implies #[trigger] dt[m].info.tid < s.last().info.tid by {
                assert(dt[m].info.pid != pid && t.contains(dt[m]));
                let r = choose|r: int| 0 <= r < t.len() && #[trigger] t[r] == dt[m];
                assert(s[r] == t[r]);
                assert(s[r].info.tid < s[last].info.tid);
            }
            assert forall|a: int, b: int| 0 <= a < b < d.len() implies #[trigger] d[a].info.tid < #[trigger] d[b].info.tid by {
                assert(d[a] == dt[a]);
                if b < dt.len() {
                    assert(d[b] == dt[b]);
                    assert(dt[a].info.tid < dt[b].info.tid);
                } else {
                    assert(d[b] == s.last());
                    assert(dt[a].info.tid < s.last().info.tid);
                }
            }
            assert forall|m: int| #![trigger d[m]] 0 <= m < d.len() implies d[m].info.pid != pid && s.contains(d[m]) by {
                if m < dt.len() {
                    assert(d[m] == dt[m]);
                    assert(dt[m].info.pid != pid && t.contains(dt[m]));
                    let r = choose|r: int| 0 <= r < t.len() && #[trigger] t[r] == dt[m];
                    assert(s[r] == t[r]);
                } else {
                    assert(s[last] == d[m]);
                }
            }
        } else {
            assert(d == dt);
            assert forall|m: int| #![trigger d[m]] 0 <= m < d.len() implies d[m].info.pid != pid && s.contains(d[m]) by {
                assert(dt[m].info.pid != pid && t.contains(dt[m]));
                let r = choose|r: int| 0 <= r < t.len() && #[trigger] t[r] == dt[m];
                assert(s[r] == t[r]);
            }
        }
    }
}

/// A program with the areas `areas`, a kernel one when `is_kernel`, can be
/// started on `pm`: it has a page to map, the kernel pages for its tables,
/// its root and its first stack's tables can be had, and the first
/// stack's run of pages stays free: for a user program a run of user
/// pages, for a kernel program a run of kernel pages long enough to hold
/// that run once the tables are taken.
pub open spec fn areas_room(areas: Seq<Area>, is_kernel: bool, pm: PageManager) -> bool {
    let n = areas_writes(areas, is_kernel).len() as int;
    &&& n > 0
    &&& if is_kernel {
        root_ready(pm, 2 * n + 49) && !no_fit(pm, true, 2 * n + 17)
    } else {
        root_ready(pm, 2 * n + 33) && !no_fit(pm, false, 16)
    }
}

/// Program `program` can be started on `pm`, as `areas_room` says.
pub open spec fn program_room(program: ProgramArea, pm: PageManager) -> bool {
    areas_room(program.area@, program.is_kernel, pm)
}

impl TaskPool {
    /// Those waiting for the threads of program `pid`, thread by thread.
    fn program_waiter_list(&self, pid: usize) -> (ws: Vec<usize>)
        requires
            keys_sorted(self.waiting_list@),
        ensures
            ws@ == program_waiters(self.thread@, self.waiting_list@, pid),
    {
        let ghost s0 = self.thread@;
        let ghost wl = self.waiting_list@;
        let mut ws: Vec<usize> = Vec::new();
        let mut j: usize = 0;
        while j < self.thread.len()
            invariant
                j <= s0.len(),
                self.thread@ == s0,
                self.waiting_list@ == wl,
                keys_sorted(wl),
                ws@ == program_waiters(s0.subrange(0, j as int), wl, pid),
            decreases s0.len() - j,
        {
            proof {
                assert(s0.subrange(0, j + 1).drop_last() =~= s0.subrange(0, j as int));
                assert(s0.subrange(0, j + 1).last() == s0[j as int]);
            }
            if self.thread[j].info.pid == pid {
                let tid = self.thread[j].info.tid;
                match self.waiting_index(tid) {
                    Some(k) => {
                        let mut list = self.waiting_list[k].1.clone();
                        proof {
                            lemma_waiters_at(wl, tid, k as int);
                            assert(list@ =~= waiters_of(wl, tid)) by {
                                assert forall|q: int| 0 <= q < list@.len() implies list@[q] == waiters_of(wl, tid)[q] by {
                                    assert(vstd::pervasive::cloned(wl[k as int].1@[q], list@[q]));
                                }
                            }
                        }
                        ws.append(&mut list);
                    },
                    None => {
                        proof {
                            lemma_waiters_absent(wl, tid);
                            assert(ws@ + waiters_of(wl, tid) =~= ws@);
                        }
                    },
                }
            }
            j = j + 1;
        }
        proof {
            assert(s0.subrange(0, s0.len() as int) =~= s0);
        }
        ws
    }

    /// Takes the threads of program `pid` out, keeping the others in order.
    fn drop_threads_of(&mut self, pid: usize)
        ensures
            final(self).thread@ == drop_program(old(self).thread@, pid),
            final(self).process@ == old(self).process@,
            final(self).waiting_list@ == old(self).waiting_list@,
            final(self).time_list@ == old(self).time_list@,
            final(self).wait_time_list@ == old(self).wait_time_list@,
    {
        let ghost s1 = self.thread@;
        let mut j: usize = 0;
        let ghost mut n: int = 0;
        while j < self.thread.len()
            invariant
                0 <= n <= s1.len(),
                self.thread@ == drop_program(s1.subrange(0, n), pid) + s1.subrange(n, s1.len() as int),
                j == drop_program(s1.subrange(0, n), pid).len(),
                self.process@ == old(self).process@,
                self.waiting_list@ == old(self).waiting_list@,
                self.time_list@ == old(self).time_list@,
                self.wait_time_list@ == old(self).wait_time_list@,
            decreases self.thread@.len() - j,
        {
            let ghost d = drop_program(s1.subrange(0, n), pid);
            proof {
                assert(n < s1.len());
                assert(self.thread@[j as int] == s1[n]);
                assert(s1.subrange(0, n + 1).drop_last() =~= s1.subrange(0, n));
                assert(s1.subrange(0, n + 1).last() == s1[n]);
            }
            if self.thread[j].info.pid == pid {
                self.thread.remove(j);
                proof {
                    assert(self.thread@ =~= d + s1.subrange(n + 1, s1.len() as int));
                }
            } else {
                j = j + 1;
                proof {
                    assert(self.thread@ =~= d.push(s1[n]) + s1.subrange(n + 1, s1.len() as int));
                }
            }
            proof {
                n = n + 1;
            }
        }
        proof {
            assert(n == s1.len()) by {
                if n < s1.len() {
                    assert(self.thread@.len() > j);
                }
            }
            assert(s1.subrange(0, n) =~= s1);
            assert(self.thread@ =~= drop_program(s1, pid));
        }
    }

    /// Ends the program of thread `id` with all its threads: those waiting
    /// for any of them are woken, then the threads and the program leave
    /// the pool. The lists of waiters stay.
    pub fn remove_program(&mut self, id: usize) -> (r: Result<(), ()>)
        requires
            old(self).wf(),
            has_tid(old(self).thread@, id),
            forall|i: int|
                0 <= i < old(self).thread@.len() && #[trigger] old(self).thread@[i].info.tid == id ==> waiters_stay(
                    old(self).thread@,
                    old(self).waiting_list@,
                    old(self).thread@[i].info.pid,
                ),
        ensures
            final(self).wf(),
            r is Ok,
            final(self).waiting_list@ == old(self).waiting_list@,
            final(self).time_list@ == old(self).time_list@,
            final(self).wait_time_list@ == old(self).wait_time_list@,
            forall|i: int|
                0 <= i < old(self).thread@.len() && #[trigger] old(self).thread@[i].info.tid == id ==> {
                    let pid = old(self).thread@[i].info.pid;
                    final(self).thread@ == drop_program(
                        woken(old(self).thread@, program_waiters(old(self).thread@, old(self).waiting_list@, pid)),
                        pid,
                    )
                },
            forall|i: int, k: int|
                0 <= i < old(self).thread@.len() && #[trigger] old(self).thread@[i].info.tid == id && 0 <= k
                    < old(self).process@.len() && #[trigger] old(self).process@[k].info.pid
                    == old(self).thread@[i].info.pid ==> final(self).process@ == old(self).process@.remove(k),
    {
        let i = match self.thread_index(id) {
            Some(i) => i,
            None => {
                return Ok(());
            },
        };
        let ghost s0 = self.thread@;
        let ghost wl = self.waiting_list@;
        let pid = self.thread[i].info.pid;
        proof {
            assert forall|i2: int| 0 <= i2 < s0.len() && #[trigger] s0[i2].info.tid == id implies i2 == i by {
                lemma_unique_tid(s0, i as int, i2);
            }
            assert(waiters_stay(s0, wl, pid));
        }
        let ws = self.program_waiter_list(pid);
        proof {
            lemma_program_waiters(s0, wl, pid);
            assert forall|q: int| 0 <= q < ws@.len() implies has_tid(self.thread@, #[trigger] ws@[q]) by {
                assert(waits_on_program(s0, wl, pid, ws@[q]));
                let (r, q2) = choose|r: int, q2: int|
                    0 <= r < s0.len() && s0[r].info.pid == pid && 0 <= q2 < waiters_of(wl, s0[r].info.tid).len()
                        && #[trigger] waiters_of(wl, s0[r].info.tid)[q2] == ws@[q];
                assert(has_tid(s0, waiters_of(wl, s0[r].info.tid)[q2]));
            }
        }
        self.wake_all(&ws);
        let ghost s1 = self.thread@;
        let ghost p0 = self.process@;
        proof {
            assert(forall|m: int| 0 <= m < s1.len() ==> has_pid(p0, #[trigger] s1[m].info.pid));
        }
        self.drop_threads_of(pid);
        proof {
            lemma_drop_program(s1, pid);
        }
        let k = match self.process_index(pid) {
            Some(k) => k,
            None => {
                return Ok(());
            },
        };
        self.process.remove(k);
        proof {
            let p = self.process@;
            assert forall|k2: int| 0 <= k2 < p0.len() && #[trigger] p0[k2].info.pid == pid implies k2 == k by {
                if k2 < k {
                    assert(p0[k2].info.pid < p0[k as int].info.pid);
                } else if k2 > k {
                    assert(p0[k as int].info.pid < p0[k2].info.pid);
                }
            }
            assert forall|a: int, b: int| 0 <= a < b < p.len() implies #[trigger] p[a].info.pid < #[trigger] p[b].info.pid by {
                if b < k {
                    assert(p0[a].info.pid < p0[b].info.pid);
                } else if a >= k {
                    assert(p0[a + 1].info.pid < p0[b + 1].info.pid);
                } else {
                    assert(p0[a].info.pid < p0[b + 1].info.pid);
                }
            }
            let t = self.thread@;
            assert forall|m: int| 0 <= m < t.len() implies has_pid(p, #[trigger] t[m].info.pid) by {
                assert(t[m].info.pid != pid && s1.contains(t[m]));
                let r = choose|r: int| 0 <= r < s1.len() && #[trigger] s1[r] == t[m];
                assert(has_pid(p0, s1[r].info.pid));
                let w = choose|w: int| 0 <= w < p0.len() && #[trigger] p0[w].info.pid == s1[r].info.pid;
                assert(w != k);
                if w < k {
                    assert(p[w] == p0[w]);
                } else {
                    assert(p[w - 1] == p0[w]);
                }
            }
        }
        Ok(())
    }

    fn running_index(&self, hartid: usize) -> (r: Option<usize>)
        ensures
            match r {
                Some(i) => first_running(self.thread@, hartid, i as int),
                None => forall|i: int| !first_running(self.thread@, hartid, i),
            },
    {
        let mut i: usize = 0;
        while i < self.thread.len()
            invariant
                i <= self.thread@.len(),
                forall|j: int|
                    0 <= j < i ==> !(#[trigger] self.thread@[j].info.state == TaskState::Running
                        && self.thread@[j].info.env.hartid == hartid),
            decreases self.thread@.len() - i,
        {
            if self.thread[i].info.state == TaskState::Running && self.thread[i].info.env.hartid == hartid {
                return Some(i);
            }
            i = i + 1;
        }
        proof {
            assert forall|k: int| !first_running(self.thread@, hartid, k) by {
                if 0 <= k < self.thread@.len() {
                    assert(!(self.thread@[k].info.state == TaskState::Running && self.thread@[k].info.env.hartid
                        == hartid));
                }
            }
        }
        None
    }

    /// Forks the thread running on hart `env.hartid` as thread `tid`: the
    /// source keeps the registers `env` it stopped with, the new thread
    /// joins its program and the pool, and continues after the call on a
    /// copy of the source's stack. Gives `tid` and the copies of stack
    /// frames to make; `None` when the new stack's pages could not be had
    /// or mapped, and then only the source's registers were recorded.
    /// `tid` is a number no thread of the pool has yet.
    pub fn fork(&mut self, env: &Environment, tid: usize, memory_end: usize, pm: &mut PageManager) -> (r:
        Option<(usize, Vec<(usize, usize, usize)>)>)
        requires
            old(self).wf(),
            !has_tid(old(self).thread@, tid),
            old(pm).wf(),
            old(pm).page_size_spec() == PAGE_SIZE,
            exists|i: int| first_running(old(self).thread@, env.hartid, i),
            forall|i: int|
                #[trigger] first_running(old(self).thread@, env.hartid, i) ==> can_fork(
                    old(self).thread@[i],
                    *env,
                    tid,
                    memory_end,
                ) && forall|k: int|
                    0 <= k < old(self).process@.len() && old(self).process@[k].info.pid
                        == old(self).thread@[i].info.pid ==> #[trigger] old(self).process@[k].wf(),
        ensures
            final(self).wf(),
            final(pm).wf(),
            final(pm).page_size_spec() == PAGE_SIZE,
            final(self).waiting_list@ == old(self).waiting_list@,
            final(self).time_list@ == old(self).time_list@,
            final(self).wait_time_list@ == old(self).wait_time_list@,
            final(self).process@.len() == old(self).process@.len(),
            forall|i: int|
                #[trigger] first_running(old(self).thread@, env.hartid, i) ==> {
                    let src = saved(old(self).thread@[i], *env);
                    let s1 = old(self).thread@.update(i, src);
                    &&& match r {
                        Some((id, copies)) => {
                            &&& id == tid
                            &&& copies@.len() == src.stack.area@.len()
                            &&& exists|t: Thread|
                                #![trigger thread_put(s1, t)]
                                final(self).thread@ == thread_put(s1, t) && forked_info(t.info, src.info, tid, memory_end)
                        },
                        None => final(self).thread@ == s1,
                    }
                    &&& forall|k: int|
                        0 <= k < old(self).process@.len() ==> {
                            let p0 = old(self).process@[k];
                            let p1 = #[trigger] final(self).process@[k];
                            if p0.info.pid == src.info.pid {
                                &&& p1.wf()
                                &&& p1.info.pid == p0.info.pid
                                &&& p1.program == p0.program
                                &&& p1.tid@ == if r is Some {
                                    p0.tid@.push(tid)
                                } else {
                                    p0.tid@
                                }
                            } else {
                                p1 == p0
                            }
                        }
                },
    {
        let i = match self.running_index(env.hartid) {
            Some(i) => i,
            None => {
                proof {
                    let w = choose|w: int| first_running(old(self).thread@, env.hartid, w);
                    assert(!first_running(self.thread@, env.hartid, w));
                }
                return None;
            },
        };
        let ghost s0 = self.thread@;
        self.thread[i].save(env);
        proof {
            lemma_same_ids(s0, self.thread@, self.process@);
            assert(self.thread@ =~= s0.update(i as int, saved(s0[i as int], *env)));
            assert forall|w: int| first_running(s0, env.hartid, w) implies w == i by {
                if w < i {
                    assert(!(s0[w].info.state == TaskState::Running && s0[w].info.env.hartid == env.hartid));
                } else if w > i {
                    assert(!(s0[i as int].info.state == TaskState::Running && s0[i as int].info.env.hartid
                        == env.hartid));
                }
            }
            assert(has_pid(self.process@, s0[i as int].info.pid));
        }
        let pid = self.thread[i].info.pid;
        let k = match self.process_index(pid) {
            Some(k) => k,
            None => {
                return None;
            },
        };
        let ghost pr0 = self.process@;
        proof {
            assert forall|k2: int| 0 <= k2 < pr0.len() && #[trigger] pr0[k2].info.pid == pid implies k2 == k by {
                if k2 < k {
                    assert(pr0[k2].info.pid < pr0[k as int].info.pid);
                } else if k2 > k {
                    assert(pr0[k as int].info.pid < pr0[k2].info.pid);
                }
            }
        }
        let res = Thread::fork(&self.thread[i], &mut self.process[k], tid, memory_end, pm);
        match res {
            Some((t, copies)) => {
                self.process[k].tid.push(tid);
                proof {
                    lemma_same_pids(pr0, self.process@, self.thread@);
                }
                let ghost tg = t;
                let ghost s1 = self.thread@;
                self.put_thread(t);
                proof {
                    assert(self.thread@ == thread_put(s1, tg));
                    assert(forked_info(tg.info, s1[i as int].info, tid, memory_end));
                }
                Some((tid, copies))
            },
            None => {
                proof {
                    lemma_same_pids(pr0, self.process@, self.thread@);
                }
                None
            },
        }
    }

    /// Branches the thread running on hart `env.hartid` as thread `tid`:
    /// the source keeps the registers `env` it stopped with, and the new
    /// thread joins its program and the pool and starts the function the
    /// source named. Gives `tid`, a number no thread of the pool has yet.
    pub fn branch(&mut self, env: &Environment, tid: usize, memory_end: usize, thread_exit: usize) -> (r:
        Option<usize>)
        requires
            old(self).wf(),
            exists|i: int| first_running(old(self).thread@, env.hartid, i),
            stack_top_of(memory_end as int, tid as int) + PAGE_SIZE <= usize::MAX,
            !has_tid(old(self).thread@, tid),
        ensures
            final(self).wf(),
            r == Some(tid),
            final(self).waiting_list@ == old(self).waiting_list@,
            final(self).time_list@ == old(self).time_list@,
            final(self).wait_time_list@ == old(self).wait_time_list@,
            final(self).process@.len() == old(self).process@.len(),
            forall|i: int|
                #[trigger] first_running(old(self).thread@, env.hartid, i) ==> {
                    let src = saved(old(self).thread@[i], *env);
                    let s1 = old(self).thread@.update(i, src);
                    &&& exists|t: Thread|
                        #![trigger thread_put(s1, t)]
                        final(self).thread@ == thread_put(s1, t) && branched_info(t.info, src.info, tid, memory_end, thread_exit)
                            && t.stack.area@.len() == 0 && t.stack.wf()
                    &&& forall|k: int|
                        0 <= k < old(self).process@.len() ==> {
                            let p0 = old(self).process@[k];
                            let p1 = #[trigger] final(self).process@[k];
                            if p0.info.pid == src.info.pid {
                                p1 == Process { tid: p1.tid, ..p0 } && p1.tid@ == p0.tid@.push(tid)
                            } else {
                                p1 == p0
                            }
                        }
                },
    {
        let i = match self.running_index(env.hartid) {
            Some(i) => i,
            None => {
                proof {
                    let w = choose|w: int| first_running(old(self).thread@, env.hartid, w);
                    assert(!first_running(self.thread@, env.hartid, w));
                }
                return None;
            },
        };
        let ghost s0 = self.thread@;
        self.thread[i].save(env);
        proof {
            lemma_same_ids(s0, self.thread@, self.process@);
            assert(self.thread@ =~= s0.update(i as int, saved(s0[i as int], *env)));
            assert forall|w: int| first_running(s0, env.hartid, w) implies w == i by {
                if w < i {
                    assert(!(s0[w].info.state == TaskState::Running && s0[w].info.env.hartid == env.hartid));
                } else if w > i {
                    assert(!(s0[i as int].info.state == TaskState::Running && s0[i as int].info.env.hartid
                        == env.hartid));
                }
            }
            assert(has_pid(self.process@, s0[i as int].info.pid));
        }
        let t = Thread::branch(&self.thread[i], tid, memory_end, thread_exit);
        let pid = self.thread[i].info.pid;
        let k = match self.process_index(pid) {
            Some(k) => k,
            None => {
                return None;
            },
        };
        let ghost pr0 = self.process@;
        proof {
            assert forall|k2: int| 0 <= k2 < pr0.len() && #[trigger] pr0[k2].info.pid == pid implies k2 == k by {
                if k2 < k {
                    assert(pr0[k2].info.pid < pr0[k as int].info.pid);
                } else if k2 > k {
                    assert(pr0[k as int].info.pid < pr0[k2].info.pid);
                }
            }
        }
        self.process[k].tid.push(tid);
        proof {
            lemma_same_pids(pr0, self.process@, self.thread@);
        }
        let ghost tg = t;
        let ghost s1 = self.thread@;
        self.put_thread(t);
        proof {
            assert(self.thread@ == thread_put(s1, tg));
            assert(branched_info(tg.info, s1[i as int].info, tid, memory_end, thread_exit));
        }
        Some(tid)
    }

    /// Starts `program` as program `pid` with its main thread `tid`, made
    /// by a thread with registers `env`: the program comes in with its
    /// areas mapped and `tid` as its one thread, and the thread sleeps
    /// until woken. Gives `tid`; `None` when the areas or the first stack
    /// pages could not be mapped, and then the pool is as it was. `pid`
    /// and `tid` are numbers no program and no thread of the pool has yet.
    pub fn create(
        &mut self,
        program: ProgramArea,
        env: &Environment,
        pid: usize,
        tid: usize,
        memory_end: usize,
        process_exit: usize,
        pm: &mut PageManager,
    ) -> (r: Option<usize>)
        requires
            old(self).wf(),
            old(pm).wf(),
            old(pm).page_size_spec() == PAGE_SIZE,
            forall|i: int| 0 <= i < program.area@.len() ==> area_mappable(#[trigger] program.area@[i]),
            memory_end + MAX_HEAP_SIZE <= usize::MAX,
            stack_top_of(memory_end as int, tid as int) + PAGE_SIZE <= usize::MAX,
            !has_tid(old(self).thread@, tid),
            !has_pid(old(self).process@, pid),
        ensures
            final(self).wf(),
            final(pm).wf(),
            final(pm).page_size_spec() == PAGE_SIZE,
            final(self).waiting_list@ == old(self).waiting_list@,
            final(self).time_list@ == old(self).time_list@,
            final(self).wait_time_list@ == old(self).wait_time_list@,
            match r {
                Some(id) => id == tid && exists|t: Thread, p: Process|
                    #![trigger thread_put(old(self).thread@, t), process_put(old(self).process@, p)]
                    {
                        &&& final(self).thread@ == thread_put(old(self).thread@, t)
                        &&& final(self).process@ == process_put(old(self).process@, p)
                        &&& main_thread_info(t.info, pid, tid, program.is_kernel, program.entry, *env, memory_end, process_exit)
                        &&& p.wf()
                        &&& p.info.pid == pid
                        &&& p.info.state == TaskState::Running
                        &&& p.program == program
                        &&& p.is_kernel == program.is_kernel
                        &&& p.tid@ == seq![tid]
                        &&& p.join_num == 0
                        &&& p.resource.files@.len() == 0
                    },
                None => final(self).thread@ == old(self).thread@ && final(self).process@ == old(self).process@,
            },
            program_room(program, *old(pm)) ==> r is Some,
    {
        let ghost pm0 = *pm;
        let mut p = match Process::new(program, pid, memory_end, pm) {
            Some(p) => p,
            None => {
                return None;
            },
        };
        let ghost pm1 = *pm;
        let t = match Thread::new(&mut p, env, tid, memory_end, process_exit, pm) {
            Some(t) => t,
            None => {
                proof {
                    if program_room(program, pm0) {
                        if program.is_kernel {
                            assert(!no_fit(pm1, true, 16));
                            assert(has_room(p.info.satp, p.page_table, pm1, 48));
                        } else {
                            lemma_user_fit_kept(pm0, pm1, 16);
                            assert(has_room(p.info.satp, p.page_table, pm1, 32));
                        }
                    }
                }
                return None;
            },
        };
        p.tid.push(tid);
        let ghost tg = t;
        let ghost pg = p;
        proof {
            assert(pg.tid@ =~= seq![tid]);
            assert(main_thread_info(tg.info, pid, tid, program.is_kernel, program.entry, *env, memory_end, process_exit));
        }
        let ghost th0 = self.thread@;
        let ghost pr0 = self.process@;
        self.put_process(p);
        self.put_thread(t);
        proof {
            assert(self.thread@ == thread_put(th0, tg));
            assert(self.process@ == process_put(pr0, pg));
            assert(pg.wf() && pg.info.pid == pid && pg.program == program);
            assert(tg.info.pid == pid && tg.info.tid == tid && tg.info.is_kernel == program.is_kernel);
        }
        Some(tid)
    }

    /// Puts thread `t` in its place by number; its program is there.
    #[verifier::spinoff_prover]
    fn put_thread(&mut self, t: Thread)
        requires
            old(self).wf(),
            has_pid(old(self).process@, t.info.pid),
        ensures
            final(self).wf(),
            final(self).thread@ == thread_put(old(self).thread@, t),
            final(self).process@ == old(self).process@,
            final(self).waiting_list@ == old(self).waiting_list@,
            final(self).time_list@ == old(self).time_list@,
            final(self).wait_time_list@ == old(self).wait_time_list@,
    {
        let ghost s0 = self.thread@;
        let id = t.info.tid;
        let mut pos: usize = 0;
        while pos < self.thread.len() && self.thread[pos].info.tid < id
            invariant
                pos <= self.thread@.len(),
                self.thread@ == s0,
                forall|j: int| 0 <= j < pos ==> #[trigger] s0[j].info.tid < id,
            decreases self.thread@.len() - pos,
        {
            pos = pos + 1;
        }
        proof {
            assert forall|j: int| pos <= j < s0.len() implies #[trigger] s0[j].info.tid >= id by {
                if j > pos {
                    assert(s0[pos as int].info.tid < s0[j].info.tid);
                }
            }
            lemma_tid_rank(s0, id, pos as int);
        }
        if pos < self.thread.len() && self.thread[pos].info.tid == id {
            self.thread.set(pos, t);
            proof {
                assert(has_tid(s0, id));
                let s = self.thread@;
                assert forall|a: int, b: int| 0 <= a < b < s.len() implies #[trigger] s[a].info.tid < #[trigger] s[b].info.tid by {
                    assert(s0[a].info.tid < s0[b].info.tid);
                }
                assert forall|j: int| 0 <= j < s.len() implies has_pid(self.process@, #[trigger] s[j].info.pid) by {
                    if j != pos {
                        assert(s[j] == s0[j]);
                    } else {
                        assert(s[j] == t);
                    }
                }
            }
        } else {
            let ghost tg = t;
            self.thread.insert(pos, t);
            proof {
                s0.insert_ensures(pos as int, tg);
                assert forall|j: int| pos <= j < s0.len() implies #[trigger] s0[j].info.tid > id by {
                    if j > pos {
                        assert(s0[pos as int].info.tid < s0[j].info.tid);
                    }
                }
                assert(!has_tid(s0, id)) by {
                    if has_tid(s0, id) {
                        let j = choose|j: int| 0 <= j < s0.len() && #[trigger] s0[j].info.tid == id;
                        if j < pos {
                            assert(s0[j].info.tid < id);
                        } else {
                            assert(s0[j].info.tid > id);
                        }
                    }
                }
                let s = self.thread@;
                assert forall|a: int, b: int| 0 <= a < b < s.len() implies #[trigger] s[a].info.tid < #[trigger] s[b].info.tid by {
                    if b < pos {
                        assert(s0[a].info.tid < s0[b].info.tid);
                    } else if a > pos {
                        assert(s0[a - 1].info.tid < s0[b - 1].info.tid);
                    } else if a == pos {
                        assert(s0[b - 1].info.tid > id);
                    } else if b == pos {
                        assert(s0[a].info.tid < id);
                    } else {
                        assert(s0[a].info.tid < s0[b - 1].info.tid);
                    }
                }
                assert forall|j: int| 0 <= j < s.len() implies has_pid(self.process@, #[trigger] s[j].info.pid) by {
                    if j < pos {
                        assert(s[j] == s0[j]);
                    } else if j > pos {
                        assert(s[j] == s0[j - 1]);
                    } else {
                        assert(s[j] == tg);
                    }
                }
            }
        }
    }

    /// Puts program `p` in its place by number.
    #[verifier::spinoff_prover]
    fn put_process(&mut self, p: Process)
        requires
            old(self).wf(),
        ensures
            final(self).wf(),
            final(self).process@ == process_put(old(self).process@, p),
            final(self).thread@ == old(self).thread@,
            final(self).waiting_list@ == old(self).waiting_list@,
            final(self).time_list@ == old(self).time_list@,
            final(self).wait_time_list@ == old(self).wait_time_list@,
            has_pid(final(self).process@, p.info.pid),
    {
        let ghost s0 = self.process@;
        let pid = p.info.pid;
        let mut pos: usize = 0;
        while pos < self.process.len() && self.process[pos].info.pid < pid
            invariant
                pos <= self.process@.len(),
                self.process@ == s0,
                forall|j: int| 0 <= j < pos ==> #[trigger] s0[j].info.pid < pid,
            decreases self.process@.len() - pos,
        {
            pos = pos + 1;
        }
        proof {
            assert forall|j: int| pos <= j < s0.len() implies #[trigger] s0[j].info.pid >= pid by {
                if j > pos {
                    assert(s0[pos as int].info.pid < s0[j].info.pid);
                }
            }
            lemma_pid_rank(s0, pid, pos as int);
        }
        if pos < self.process.len() && self.process[pos].info.pid == pid {
            self.process.set(pos, p);
            proof {
                assert(has_pid(s0, pid));
                let s = self.process@;
                assert(s[pos as int].info.pid == pid);
                lemma_same_pids(s0, s, self.thread@);
            }
        } else {
            let ghost pg = p;
            self.process.insert(pos, p);
            proof {
                s0.insert_ensures(pos as int, pg);
                assert forall|j: int| pos <= j < s0.len() implies #[trigger] s0[j].info.pid > pid by {
                    if j > pos {
                        assert(s0[pos as int].info.pid < s0[j].info.pid);
                    }
                }
                assert(!has_pid(s0, pid)) by {
                    if has_pid(s0, pid) {
                        let j = choose|j: int| 0 <= j < s0.len() && #[trigger] s0[j].info.pid == pid;
                        if j < pos {
                            assert(s0[j].info.pid < pid);
                        } else {
                            assert(s0[j].info.pid > pid);
                        }
                    }
                }
                let s = self.process@;
                assert(s[pos as int].info.pid == pid);
                assert forall|a: int, b: int| 0 <= a < b < s.len() implies #[trigger] s[a].info.pid < #[trigger] s[b].info.pid by {
                    if b < pos {
                        assert(s0[a].info.pid < s0[b].info.pid);
                    } else if a > pos {
                        assert(s0[a - 1].info.pid < s0[b - 1].info.pid);
                    } else if a == pos {
                        assert(s0[b - 1].info.pid > pid);
                    } else if b == pos {
                        assert(s0[a].info.pid < pid);
                    } else {
                        assert(s0[a].info.pid < s0[b - 1].info.pid);
                    }
                }
                assert forall|i: int| 0 <= i < self.thread@.len() implies has_pid(s, #[trigger] self.thread@[i].info.pid) by {
                    let w = choose|w: int| 0 <= w < s0.len() && #[trigger] s0[w].info.pid == self.thread@[i].info.pid;
                    if w < pos {
                        assert(s[w] == s0[w]);
                    } else {
                        assert(s[w + 1] == s0[w]);
                    }
                }
            }
        }
    }
}

/// Address `va` lies in program `p`'s heap window `[memory_end,
/// memory_end + MAX_HEAP_SIZE]` or in one of its areas.
pub open spec fn process_holds(p: Process, va: usize, memory_end: usize) -> bool {
    memory_end <= va <= memory_end + MAX_HEAP_SIZE || exists|j: int|
        0 <= j < p.program.area@.len() && #[trigger] p.program.area@[j].vst <= va < p.program.area@[j].ved
}

impl TaskPool {
    fn owner_index(&self, id: usize) -> (r: (usize, usize))
        requires
            self.wf(),
            has_tid(self.thread@, id),
        ensures
            r.0 < self.thread@.len(),
            r.1 < self.process@.len(),
            self.thread@[r.0 as int].info.tid == id,
            self.process@[r.1 as int].info.pid == self.thread@[r.0 as int].info.pid,
            forall|i: int| 0 <= i < self.thread@.len() && #[trigger] self.thread@[i].info.tid == id ==> i == r.0,
            forall|k: int|
                0 <= k < self.process@.len() && #[trigger] self.process@[k].info.pid == self.thread@[r.0 as int].info.pid
                    ==> k == r.1,
    {
        let i = match self.thread_index(id) {
            Some(i) => i,
            None => {
                proof {
                    let j = choose|j: int| 0 <= j < self.thread@.len() && #[trigger] self.thread@[j].info.tid == id;
                }
                return (0, 0);
            },
        };
        let pid = self.thread[i].info.pid;
        proof {
            assert(has_pid(self.process@, pid));
            assert forall|i2: int| 0 <= i2 < self.thread@.len() && #[trigger] self.thread@[i2].info.tid == id implies i2 == i by {
                lemma_unique_tid(self.thread@, i as int, i2);
            }
        }
        let k = match self.process_index(pid) {
            Some(k) => k,
            None => {
                return (0, 0);
            },
        };
        proof {
            let p = self.process@;
            assert forall|k2: int| 0 <= k2 < p.len() && #[trigger] p[k2].info.pid == pid implies k2 == k by {
                if k2 < k {
                    assert(p[k2].info.pid < p[k as int].info.pid);
                } else if k2 > k {
                    assert(p[k as int].info.pid < p[k2].info.pid);
                }
            }
        }
        (i, k)
    }

    /// Takes `size` bytes of the heap of thread `id`'s program, as the
    /// program's own heap does; gives the virtual and physical address.
    pub fn alloc_heap(&mut self, size: usize, id: usize, pm: &mut PageManager) -> (r: Option<(usize, usize)>)
        requires
            old(self).wf(),
            has_tid(old(self).thread@, id),
            old(pm).wf(),
            old(pm).page_size_spec() == PAGE_SIZE,
            size <= usize::MAX / 2 + 1,
            forall|i: int, k: int|
                0 <= i < old(self).thread@.len() && #[trigger] old(self).thread@[i].info.tid == id && 0 <= k
                    < old(self).process@.len() && #[trigger] old(self).process@[k].info.pid
                    == old(self).thread@[i].info.pid ==> {
                    let p = old(self).process@[k];
                    &&& p.wf()
                    &&& satp_root(p.info.satp.flag) != 0
                    &&& no_server(p.heap.memory_area@, size as int) ==> forall|b: int|
                        is_align_of(size as int, b) ==> p.heap.virtual_heap_top + pool_pages(b) * 4096
                            - p.heap.virtual_heap_start <= MAX_HEAP_SIZE
                },
        ensures
            final(self).wf(),
            final(pm).wf(),
            final(pm).page_size_spec() == PAGE_SIZE,
            final(self).thread@ == old(self).thread@,
            final(self).waiting_list@ == old(self).waiting_list@,
            final(self).time_list@ == old(self).time_list@,
            final(self).wait_time_list@ == old(self).wait_time_list@,
            final(self).process@.len() == old(self).process@.len(),
            forall|i: int, k: int|
                0 <= i < old(self).thread@.len() && #[trigger] old(self).thread@[i].info.tid == id && 0 <= k
                    < old(self).process@.len() && #[trigger] old(self).process@[k].info.pid
                    == old(self).thread@[i].info.pid ==> {
                    let p0 = old(self).process@[k];
                    let p1 = final(self).process@[k];
                    &&& p1.wf()
                    &&& p1.info == p0.info
                    &&& p1.program == p0.program
                    &&& p1.tid == p0.tid
                    &&& p1.resource == p0.resource
                    &&& p1.heap.virtual_heap_start == p0.heap.virtual_heap_start
                    &&& !no_server(p0.heap.memory_area@, size as int) ==> r is Some
                    &&& heap_took(p0.heap, p1.heap, size as int, r, *old(pm), p0.page_table, p1.page_table)
                    &&& forall|k2: int|
                        0 <= k2 < old(self).process@.len() && k2 != k ==> #[trigger] final(self).process@[k2]
                            == old(self).process@[k2]
                },
    {
        let (i, k) = self.owner_index(id);
        let ghost p0 = self.process@;
        let r = self.process[k].alloc_heap(size, pm);
        proof {
            lemma_same_pids(p0, self.process@, self.thread@);
        }
        r
    }

    /// Gives back the heap block at `addr` of thread `id`'s program.
    pub fn free_heap(&mut self, addr: usize, id: usize)
        requires
            old(self).wf(),
            has_tid(old(self).thread@, id),
            forall|i: int, k: int|
                0 <= i < old(self).thread@.len() && #[trigger] old(self).thread@[i].info.tid == id && 0 <= k
                    < old(self).process@.len() && #[trigger] old(self).process@[k].info.pid
                    == old(self).thread@[i].info.pid ==> {
                    let h = old(self).process@[k].heap;
                    &&& h.wf()
                    &&& exists|j: int|
                        #[trigger] is_first_holder(h.memory_area@, addr as int, j) && (addr
                            - h.memory_area@[j].virtual_base) / (h.memory_area@[j].block_size as int)
                            < h.memory_area@[j].block_num && h.memory_area@[j].record@[(addr
                            - h.memory_area@[j].virtual_base) / (h.memory_area@[j].block_size as int)]
                },
        ensures
            final(self).wf(),
            final(self).thread@ == old(self).thread@,
            final(self).waiting_list@ == old(self).waiting_list@,
            final(self).time_list@ == old(self).time_list@,
            final(self).wait_time_list@ == old(self).wait_time_list@,
            final(self).process@.len() == old(self).process@.len(),
            forall|i: int, k: int|
                0 <= i < old(self).thread@.len() && #[trigger] old(self).thread@[i].info.tid == id && 0 <= k
                    < old(self).process@.len() && #[trigger] old(self).process@[k].info.pid
                    == old(self).thread@[i].info.pid ==> {
                    let p0 = old(self).process@[k];
                    let p1 = final(self).process@[k];
                    &&& p1.heap.wf()
                    &&& p1 == Process { heap: p1.heap, ..p0 }
                    &&& p1.heap.virtual_heap_top == p0.heap.virtual_heap_top
                    &&& heap_freed(p0.heap, p1.heap, addr as int)
                    &&& forall|k2: int|
                        0 <= k2 < old(self).process@.len() && k2 != k ==> #[trigger] final(self).process@[k2]
                            == old(self).process@[k2]
                },
    {
        let (i, k) = self.owner_index(id);
        let ghost p0 = self.process@;
        self.process[k].free_heap(addr);
        proof {
            lemma_same_pids(p0, self.process@, self.thread@);
        }
    }

    /// The physical address of `va` for thread `id`: through its
    /// program when the program holds `va`, else through the thread's
    /// stack.
    pub fn virt_to_phy(&self, id: usize, va: usize, memory_end: usize) -> (r: usize)
        requires
            self.wf(),
            has_tid(self.thread@, id),
            memory_end + MAX_HEAP_SIZE <= usize::MAX,
            forall|i: int, k: int|
                0 <= i < self.thread@.len() && #[trigger] self.thread@[i].info.tid == id && 0 <= k
                    < self.process@.len() && #[trigger] self.process@[k].info.pid == self.thread@[i].info.pid
                    ==> {
                    let p = self.process@[k];
                    let t = self.thread@[i];
                    let a = p.program.area@;
                    let sa = t.stack.area@;
                    if process_holds(p, va, memory_end) {
                        &&& va >= memory_end ==> va <= memory_end + MAX_HEAP_SIZE && exists|h: int|
                            #[trigger] is_first_holder(p.heap.memory_area@, va as int, h)
                                && p.heap.memory_area@[h].physic_addr + va <= usize::MAX
                        &&& va < memory_end && first_containing(a, va as int) >= 0 ==> a[first_containing(
                            a,
                            va as int,
                        )].pst + va <= usize::MAX
                    } else {
                        &&& first_stack_area(sa, va as int) >= 0
                        &&& sa[first_stack_area(sa, va as int)].pst + (va - sa[first_stack_area(sa, va as int)].vst)
                            <= usize::MAX
                    }
                },
        ensures
            forall|i: int, k: int|
                0 <= i < self.thread@.len() && #[trigger] self.thread@[i].info.tid == id && 0 <= k
                    < self.process@.len() && #[trigger] self.process@[k].info.pid == self.thread@[i].info.pid
                    ==> {
                    let p = self.process@[k];
                    let t = self.thread@[i];
                    let a = p.program.area@;
                    let sa = t.stack.area@;
                    if process_holds(p, va, memory_end) {
                        &&& va >= memory_end ==> forall|h: int|
                            #[trigger] is_first_holder(p.heap.memory_area@, va as int, h) ==> r
                                == p.heap.memory_area@[h].physic_addr + va - p.heap.memory_area@[h].virtual_base
                        &&& va < memory_end && first_containing(a, va as int) >= 0 ==> r == a[first_containing(
                            a,
                            va as int,
                        )].pst + va - a[first_containing(a, va as int)].vst
                        &&& va < memory_end && first_containing(a, va as int) < 0 ==> r == va
                    } else {
                        r == sa[first_stack_area(sa, va as int)].pst + (va - sa[first_stack_area(sa, va as int)].vst)
                    }
                },
    {
        let (i, k) = self.owner_index(id);
        if self.process[k].contain(va, memory_end) {
            self.process[k].virt_to_phy(va, memory_end)
        } else {
            self.thread[i].virt_to_phy(va)
        }
    }

    /// Grows the stack of thread `id` by its step of pages in its
    /// program's address space.
    pub fn expand_stack(&mut self, id: usize, pm: &mut PageManager) -> (r: Result<(), ()>)
        requires
            old(self).wf(),
            has_tid(old(self).thread@, id),
            old(pm).wf(),
            old(pm).page_size_spec() == PAGE_SIZE,
            forall|i: int, k: int|
                0 <= i < old(self).thread@.len() && #[trigger] old(self).thread@[i].info.tid == id && 0 <= k
                    < old(self).process@.len() && #[trigger] old(self).process@[k].info.pid
                    == old(self).thread@[i].info.pid ==> {
                    let st = old(self).thread@[i].stack;
                    &&& old(self).process@[k].wf()
                    &&& 16 <= st.last_page ==> 16 * 4096 <= st.stack_bottom
                    &&& st.stack_bottom + PAGE_SIZE <= usize::MAX
                },
        ensures
            final(self).wf(),
            final(pm).wf(),
            final(self).waiting_list@ == old(self).waiting_list@,
            final(self).time_list@ == old(self).time_list@,
            final(self).wait_time_list@ == old(self).wait_time_list@,
            final(self).thread@.len() == old(self).thread@.len(),
            final(self).process@.len() == old(self).process@.len(),
            forall|i: int, k: int|
                0 <= i < old(self).thread@.len() && #[trigger] old(self).thread@[i].info.tid == id && 0 <= k
                    < old(self).process@.len() && #[trigger] old(self).process@[k].info.pid
                    == old(self).thread@[i].info.pid ==> {
                    let t0 = old(self).thread@[i];
                    let t1 = final(self).thread@[i];
                    &&& t1.info == t0.info
                    &&& t1.stack.stack_top == t0.stack.stack_top
                    &&& t0.stack.last_page < 16 ==> r is Err && t1.stack == t0.stack
                    &&& r is Ok ==> t1.stack.stack_bottom == t0.stack.stack_bottom - 16 * 4096
                        && t1.stack.last_page == t0.stack.last_page - 16
                    &&& r is Err ==> t0.stack.last_page < 16 || no_fit(*old(pm), t0.stack.is_kernel, 16)
                        || !has_room(
                        old(self).process@[k].info.satp,
                        old(self).process@[k].page_table,
                        *old(pm),
                        32 + if t0.stack.is_kernel {
                            16int
                        } else {
                            0
                        },
                    )
                    &&& t0.stack.wf() ==> t1.stack.wf()
                    &&& final(self).process@[k].wf()
                    &&& final(self).process@[k].program == old(self).process@[k].program
                    &&& forall|i2: int|
                        0 <= i2 < old(self).thread@.len() && i2 != i ==> #[trigger] final(self).thread@[i2]
                            == old(self).thread@[i2]
                    &&& forall|k2: int|
                        0 <= k2 < old(self).process@.len() && k2 != k ==> #[trigger] final(self).process@[k2]
                            == old(self).process@[k2]
                },
    {
        let (i, k) = self.owner_index(id);
        let ghost s0 = self.thread@;
        let ghost p0 = self.process@;
        let r = self.thread[i].expand_stack(&mut self.process[k], pm);
        proof {
            lemma_same_ids(s0, self.thread@, p0);
            lemma_same_pids(p0, self.process@, self.thread@);
        }
        r
    }
}

} // verus!
