//! The task manager: it runs the scheduler over the task pool and answers
//! for the threads by number or by the hart they run on.

use vstd::prelude::*;
use super::scheduler::{Scheduler, rotation, after_round};
use super::task_info::{Environment, ExecutionInfo, ProgramInfo, TaskState};
use super::task_pool::{TaskPool, has_tid, has_pid, waiters_of, woken, timer_woken, lemma_unique_tid};
use super::lifecycle::{first_running, drop_program, program_waiters, waiters_stay, program_room, areas_room};
use super::resource::without_first;
use super::thread::{Thread, stack_top_of};
use super::process::{Process, MAX_HEAP_SIZE};
use super::lifecycle::{
    thread_put, process_put, main_thread_info, saved, can_fork, forked_info, branched_info, process_holds,
};
use crate::memory::config::{PAGE_SIZE, KERNEL_PAGE_NUM};
use crate::memory::page::{PageManager, no_fit};
use crate::memory::program_memory::program_area::{ProgramArea, area_mappable, first_containing, page_floor, kernel_system_areas};
use crate::memory::stack_memory::task_stack::first_stack_area;
use crate::memory::heap_memory::task_heap::{is_first_holder, no_server, heap_took, heap_freed};
use crate::memory::heap_memory::heap_pool::{is_align_of, pool_pages};
use crate::memory::map::satp::{satp_root, has_room};

verus! {

/// The scheduling methods.
#[derive(Debug, Clone, Copy, PartialEq, Eq, Structural)]
pub enum ScheduleMethod {
    Rotation,
}

/// A scheduler.
pub trait SchedulerOp {
    /// Picks the thread to run next; `None` when no thread waits.
    fn schedule(&mut self, task_pool: &mut TaskPool) -> (r: Option<usize>)
        requires
            old(task_pool).wf(),
            forall|j: int|
                0 <= j < old(task_pool).thread@.len() ==> #[trigger] old(task_pool).thread@[j].info.priority
                    < usize::MAX,
        ensures
            final(task_pool).wf(),
            final(task_pool).thread@.len() == old(task_pool).thread@.len(),
            r matches Some(id) ==> has_tid(final(task_pool).thread@, id),
    ;

    /// Changes the method.
    fn switch_method(&mut self, method: ScheduleMethod);
}

impl SchedulerOp for Scheduler {
    fn schedule(&mut self, task_pool: &mut TaskPool) -> (r: Option<usize>)
        ensures
            r == rotation(old(task_pool).thread@, old(task_pool).thread@.len() as int).0,
            final(task_pool).thread@ == after_round(old(task_pool).thread@, r),
    {
        let r = Scheduler::schedule(self, task_pool);
        proof {
            if let Some(id) = r {
                super::scheduler::lemma_pick_is_there(old(task_pool).thread@);
                let j = choose|j: int|
                    0 <= j < old(task_pool).thread@.len() && #[trigger] old(task_pool).thread@[j].info.tid == id;
                assert(task_pool.thread@[j].info.tid == id);
            }
        }
        r
    }

    fn switch_method(&mut self, method: ScheduleMethod) {
    }
}

/// The registers `env` with the program counter past the call that
/// stopped the thread.
pub open spec fn after_call(env: Environment) -> Environment {
    Environment { epc: (env.epc + 4) as usize, ..env }
}

fn advance(env: &Environment) -> (r: Environment)
    requires
        env.epc + 4 <= usize::MAX,
    ensures
        r == after_call(*env),
{
    Environment { epc: env.epc + 4, ..*env }
}

proof fn lemma_first_running_unique(s: Seq<Thread>, hartid: usize, i: int, j: int)
    requires
        first_running(s, hartid, i),
        first_running(s, hartid, j),
    ensures
        i == j,
{
    if i < j {
        assert(!(s[i].info.state == TaskState::Running && s[i].info.env.hartid == hartid));
    } else if j < i {
        assert(!(s[j].info.state == TaskState::Running && s[j].info.env.hartid == hartid));
    }
}

/// The threads `s` after the thread running on hart `env.hartid`, if one
/// does, stopped with the registers `env`: it waits again.
pub open spec fn stopped(s: Seq<Thread>, env: Environment) -> Seq<Thread> {
    if exists|i: int| first_running(s, env.hartid, i) {
        let i = choose|i: int| first_running(s, env.hartid, i);
        s.update(
            i,
            Thread { info: ExecutionInfo { state: TaskState::Waiting, env, ..s[i].info }, stack: s[i].stack },
        )
    } else {
        s
    }
}

/// The threads `s` after, on hart 0, the timers `tl` / `wl` due by `now`
/// went off; on another hart, `s`.
pub open spec fn timers_off(
    s: Seq<Thread>,
    tl: Seq<usize>,
    wl: Seq<(usize, usize)>,
    hartid: usize,
    now: usize,
) -> Seq<Thread> {
    if hartid == 0 {
        timer_woken(tl, wl, s, now, tl.len() as int)
    } else {
        s
    }
}

/// The threads `s` with thread `id` running on hart `hartid`.
pub open spec fn run_on(s: Seq<Thread>, id: usize, hartid: usize) -> Seq<Thread> {
    Seq::new(
        s.len(),
        |i: int|
            if s[i].info.tid == id {
                Thread {
                    info: ExecutionInfo {
                        state: TaskState::Running,
                        env: Environment { hartid, ..s[i].info.env },
                        ..s[i].info
                    },
                    stack: s[i].stack,
                }
            } else {
                s[i]
            },
    )
}

/// The task manager.
pub struct TaskManager {
    pub scheduler: Scheduler,
    pub task_pool: TaskPool,
}

impl TaskManager {
    /// A manager of the pool `pool` with the scheduler `sche`.
    pub fn new(sche: Scheduler, pool: TaskPool) -> (r: Self)
        ensures
            r.scheduler == sche,
            r.task_pool == pool,
    {
        Self { scheduler: sche, task_pool: pool }
    }

    /// Schedules on hart `env.hartid` at time `now`: the thread running
    /// there stops with the registers `env`; on hart 0 the due timers go
    /// off; the scheduler picks the next thread, which runs on this hart.
    /// Gives what is known of it, to switch to; `None` when no thread
    /// waits.
    #[verifier::spinoff_prover]
    #[verifier::rlimit(30)]
    pub fn schedule(&mut self, env: &Environment, now: usize) -> (r: Option<ExecutionInfo>)
        requires
            old(self).task_pool.wf(),
            forall|j: int|
                0 <= j < old(self).task_pool.thread@.len() ==> #[trigger] old(self).task_pool.thread@[j].info.priority < usize::MAX,
        ensures
            final(self).task_pool.wf(),
            final(self).task_pool.process@ == old(self).task_pool.process@,
            final(self).task_pool.waiting_list@ == old(self).task_pool.waiting_list@,
            ({
                let s1 = stopped(old(self).task_pool.thread@, *env);
                let s2 = timers_off(
                    s1,
                    old(self).task_pool.time_list@,
                    old(self).task_pool.wait_time_list@,
                    env.hartid,
                    now,
                );
                let next = rotation(s2, s2.len() as int).0;
                &&& final(self).task_pool.thread@ == match next {
                    Some(id) => run_on(after_round(s2, next), id, env.hartid),
                    None => after_round(s2, next),
                }
                &&& r is Some <==> next is Some
                &&& r matches Some(info) ==> {
                    &&& info.tid == next->Some_0
                    &&& info.state == TaskState::Running
                    &&& info.env.hartid == env.hartid
                    &&& forall|i: int|
                        0 <= i < final(self).task_pool.thread@.len() && #[trigger] final(self).task_pool.thread@[i].info.tid
                            == info.tid ==> final(self).task_pool.thread@[i].info == info
                }
            }),
    {
        let ghost s0 = self.task_pool.thread@;
        let cur = self.task_pool.find_running(env.hartid);
        if let Some(cur) = cur {
            let _ = self.task_pool.save_running(cur, env);
            proof {
                let i = choose|i: int|
                    0 <= i < s0.len() && #[trigger] s0[i].info.tid == cur && s0[i].info.state == TaskState::Running
                        && s0[i].info.env.hartid == env.hartid && forall|j: int|
                        0 <= j < i ==> !(#[trigger] s0[j].info.state == TaskState::Running && s0[j].info.env.hartid
                            == env.hartid);
                assert(first_running(s0, env.hartid, i));
                let w = choose|w: int| first_running(s0, env.hartid, w);
                lemma_first_running_unique(s0, env.hartid, w, i);
                let expect = s0.update(
                    i,
                    Thread { info: ExecutionInfo { state: TaskState::Waiting, env: *env, ..s0[i].info }, stack: s0[i].stack },
                );
                assert forall|j: int| 0 <= j < s0.len() implies #[trigger] self.task_pool.thread@[j] == expect[j] by {
                    if j != i && s0[j].info.tid == cur {
                        lemma_unique_tid(s0, i, j);
                    }
                }
                assert(self.task_pool.thread@ =~= stopped(s0, *env));
            }
        } else {
            proof {
                assert forall|w: int| !first_running(s0, env.hartid, w) by {
                    if 0 <= w < s0.len() {
                        assert(!(s0[w].info.state == TaskState::Running && s0[w].info.env.hartid == env.hartid));
                    }
                }
                assert(self.task_pool.thread@ == stopped(s0, *env));
            }
        }
        proof {
            assert forall|j: int| 0 <= j < self.task_pool.thread@.len() implies #[trigger] self.task_pool.thread@[j].info.priority
                == s0[j].info.priority by {}
        }
        let ghost s1 = self.task_pool.thread@;
        if env.hartid == 0 {
            self.task_pool.check_timer(now);
        }
        let ghost s2 = self.task_pool.thread@;
        proof {
            assert(s2 == timers_off(s1, old(self).task_pool.time_list@, old(self).task_pool.wait_time_list@, env.hartid, now));
            assert forall|j: int|
                0 <= j < self.task_pool.thread@.len() implies #[trigger] self.task_pool.thread@[j].info.priority
                < usize::MAX by {
                assert(self.task_pool.thread@[j].info.priority == s1[j].info.priority);
                assert(s1[j].info.priority == s0[j].info.priority);
            }
        }
        let next = self.scheduler.schedule(&mut self.task_pool);
        let ghost s3 = self.task_pool.thread@;
        if let Some(next) = next {
            proof {
                super::scheduler::lemma_pick_is_there(s2);
                let j = choose|j: int| 0 <= j < s2.len() && #[trigger] s2[j].info.tid == next;
                assert(s3[j].info.tid == next);
            }
            if self.task_pool.start_running(next, env.hartid).is_ok() {
                let r = self.task_pool.get_task_exec(next);
                proof {
                    assert(self.task_pool.thread@ =~= run_on(s3, next, env.hartid));
                    let j = choose|j: int| 0 <= j < s3.len() && #[trigger] s3[j].info.tid == next;
                    assert(self.task_pool.thread@[j].info.tid == next);
                    assert(r == Some(self.task_pool.thread@[j].info));
                }
                return r;
            }
        }
        None
    }
}


impl TaskManager {
    fn running_id(&self, hartid: usize) -> (r: Option<(usize, Ghost<int>)>)
        requires
            self.task_pool.wf(),
        ensures
            match r {
                Some((id, i)) => first_running(self.task_pool.thread@, hartid, i@) && self.task_pool.thread@[i@].info.tid
                    == id,
                None => forall|i: int| !first_running(self.task_pool.thread@, hartid, i),
            },
    {
        match self.task_pool.find_running(hartid) {
            Some(id) => {
                let ghost i = choose|i: int|
                    0 <= i < self.task_pool.thread@.len() && #[trigger] self.task_pool.thread@[i].info.tid == id
                        && self.task_pool.thread@[i].info.state == TaskState::Running
                        && self.task_pool.thread@[i].info.env.hartid == hartid && forall|j: int|
                        0 <= j < i ==> !(#[trigger] self.task_pool.thread@[j].info.state == TaskState::Running
                            && self.task_pool.thread@[j].info.env.hartid == hartid);
                Some((id, Ghost(i)))
            },
            None => {
                proof {
                    assert forall|i: int| !first_running(self.task_pool.thread@, hartid, i) by {
                        if 0 <= i < self.task_pool.thread@.len() {
                            assert(!(self.task_pool.thread@[i].info.state == TaskState::Running
                                && self.task_pool.thread@[i].info.env.hartid == hartid));
                        }
                    }
                }
                None
            },
        }
    }

    /// The first thread, in order of number, that `f` picks.
    pub fn find<F: Fn(&ExecutionInfo) -> bool>(&self, f: F) -> (r: Option<usize>)
        requires
            forall|i: int| 0 <= i < self.task_pool.thread@.len() ==> f.requires((&self.task_pool.thread@[i].info,)),
        ensures
            match r {
                Some(id) => exists|i: int|
                    0 <= i < self.task_pool.thread@.len() && #[trigger] self.task_pool.thread@[i].info.tid == id && f.ensures(
                        (&self.task_pool.thread@[i].info,),
                        true,
                    ) && forall|j: int| 0 <= j < i ==> f.ensures((&#[trigger] self.task_pool.thread@[j].info,), false),
                None => forall|j: int| 0 <= j < self.task_pool.thread@.len() ==> f.ensures((&#[trigger] self.task_pool.thread@[j].info,), false),
            },
    {
        self.task_pool.find(f)
    }

    /// Starts thread `id`, which is there, on hart `hartid`: it runs, and
    /// what is known of it is given, to switch to.
    pub fn start(&mut self, id: usize, hartid: usize) -> (r: Option<ExecutionInfo>)
        requires
            old(self).task_pool.wf(),
            has_tid(old(self).task_pool.thread@, id),
        ensures
            final(self).task_pool.wf(),
            final(self).task_pool.process@ == old(self).task_pool.process@,
            final(self).task_pool.thread@.len() == old(self).task_pool.thread@.len(),
            forall|i: int|
                0 <= i < old(self).task_pool.thread@.len() ==> #[trigger] final(self).task_pool.thread@[i] == if old(self).task_pool.thread@[i].info.tid == id {
                    Thread {
                        info: ExecutionInfo {
                            state: TaskState::Running,
                            env: Environment { hartid, ..old(self).task_pool.thread@[i].info.env },
                            ..old(self).task_pool.thread@[i].info
                        },
                        stack: old(self).task_pool.thread@[i].stack,
                    }
                } else {
                    old(self).task_pool.thread@[i]
                },
            forall|i: int|
                0 <= i < old(self).task_pool.thread@.len() && #[trigger] old(self).task_pool.thread@[i].info.tid == id
                    ==> r == Some(final(self).task_pool.thread@[i].info),
    {
        let _ = self.task_pool.start_running(id, hartid);
        let r = self.task_pool.get_task_exec(id);
        proof {
            assert forall|i: int|
                0 <= i < old(self).task_pool.thread@.len() && #[trigger] old(self).task_pool.thread@[i].info.tid == id
                    implies r == Some(self.task_pool.thread@[i].info) by {
                assert(self.task_pool.thread@[i].info.tid == id);
            }
        }
        r
    }

    /// Thread `id`, which is there, exits: as `kill_task`, the whole
    /// program goes when it is the main thread, else the thread alone.
    pub fn program_exit(&mut self, id: usize)
        requires
            old(self).task_pool.wf(),
            has_tid(old(self).task_pool.thread@, id),
            forall|i: int|
                0 <= i < old(self).task_pool.thread@.len() && #[trigger] old(self).task_pool.thread@[i].info.tid == id
                    ==> if old(self).task_pool.thread@[i].info.is_main {
                    waiters_stay(
                        old(self).task_pool.thread@,
                        old(self).task_pool.waiting_list@,
                        old(self).task_pool.thread@[i].info.pid,
                    )
                } else {
                    forall|k: int|
                        0 <= k < waiters_of(old(self).task_pool.waiting_list@, id).len() ==> #[trigger] waiters_of(
                            old(self).task_pool.waiting_list@,
                            id,
                        )[k] != id && has_tid(old(self).task_pool.thread@, waiters_of(old(self).task_pool.waiting_list@, id)[k])
                },
        ensures
            final(self).task_pool.wf(),
            final(self).task_pool.waiting_list@ == old(self).task_pool.waiting_list@,
            final(self).task_pool.time_list@ == old(self).task_pool.time_list@,
            final(self).task_pool.wait_time_list@ == old(self).task_pool.wait_time_list@,
            forall|i: int|
                0 <= i < old(self).task_pool.thread@.len() && #[trigger] old(self).task_pool.thread@[i].info.tid == id
                    ==> {
                    let pid = old(self).task_pool.thread@[i].info.pid;
                    let wl = old(self).task_pool.waiting_list@;
                    let s0 = old(self).task_pool.thread@;
                    let p0 = old(self).task_pool.process@;
                    if s0[i].info.is_main {
                        &&& final(self).task_pool.thread@ == drop_program(woken(s0, program_waiters(s0, wl, pid)), pid)
                        &&& forall|k: int|
                            0 <= k < p0.len() && #[trigger] p0[k].info.pid == pid ==> final(self).task_pool.process@
                                == p0.remove(k)
                    } else {
                        &&& final(self).task_pool.thread@ == woken(s0.remove(i), waiters_of(wl, id))
                        &&& final(self).task_pool.process@.len() == p0.len()
                        &&& forall|k: int|
                            0 <= k < p0.len() ==> {
                                let p1 = #[trigger] final(self).task_pool.process@[k];
                                &&& p1.info == p0[k].info
                                &&& p1.tid@ == if p0[k].info.pid == pid {
                                    without_first(p0[k].tid@, id)
                                } else {
                                    p0[k].tid@
                                }
                                &&& p1.join_num == p0[k].join_num
                            }
                    }
                },
    {
        self.kill_task(id)
    }

    /// Thread `id` joins its program's other threads, as the pool's
    /// `join`, and keeps the registers `env` past its call.
    pub fn join(&mut self, id: usize, env: &Environment)
        requires
            old(self).task_pool.wf(),
            has_tid(old(self).task_pool.thread@, id),
            env.epc + 4 <= usize::MAX,
            forall|i: int, k: int|
                0 <= i < old(self).task_pool.thread@.len() && #[trigger] old(self).task_pool.thread@[i].info.tid == id
                    && 0 <= k < old(self).task_pool.process@.len() && #[trigger] old(self).task_pool.process@[k].info.pid
                    == old(self).task_pool.thread@[i].info.pid ==> old(self).task_pool.process@[k].join_num < usize::MAX
                    && forall|q: int|
                    0 <= q < old(self).task_pool.process@[k].tid@.len() ==> has_tid(
                        old(self).task_pool.thread@,
                        #[trigger] old(self).task_pool.process@[k].tid@[q],
                    ),
        ensures
            final(self).task_pool.wf(),
            final(self).task_pool.waiting_list@ == old(self).task_pool.waiting_list@,
            final(self).task_pool.time_list@ == old(self).task_pool.time_list@,
            final(self).task_pool.wait_time_list@ == old(self).task_pool.wait_time_list@,
            final(self).task_pool.process@.len() == old(self).task_pool.process@.len(),
            forall|i: int, k: int|
                0 <= i < old(self).task_pool.thread@.len() && #[trigger] old(self).task_pool.thread@[i].info.tid == id
                    && 0 <= k < old(self).task_pool.process@.len() && #[trigger] old(self).task_pool.process@[k].info.pid
                    == old(self).task_pool.thread@[i].info.pid ==> {
                    let s0 = old(self).task_pool.thread@;
                    let p0 = old(self).task_pool.process@[k];
                    let p1 = final(self).task_pool.process@[k];
                    let joined = if p0.join_num + 1 >= p0.tid@.len() {
                        woken(s0, p0.tid@)
                    } else {
                        s0.update(
                            i,
                            Thread { info: ExecutionInfo { state: TaskState::Sleeping, ..s0[i].info }, stack: s0[i].stack },
                        )
                    };
                    &&& p1.tid@ == p0.tid@
                    &&& p1.info == p0.info
                    &&& p1.join_num == if p0.join_num + 1 >= p0.tid@.len() {
                        0
                    } else {
                        p0.join_num + 1
                    }
                    &&& final(self).task_pool.thread@ == joined.update(
                        i,
                        Thread { info: ExecutionInfo { env: after_call(*env), ..joined[i].info }, stack: joined[i].stack },
                    )
                },
    {
        let ghost s0 = self.task_pool.thread@;
        self.task_pool.join(id);
        let ghost s1 = self.task_pool.thread@;
        let e = advance(env);
        let _ = self.task_pool.set_env(id, &e);
        proof {
            assert forall|i: int|
                0 <= i < s0.len() && #[trigger] s0[i].info.tid == id implies self.task_pool.thread@ == s1.update(
                    i,
                    Thread { info: ExecutionInfo { env: after_call(*env), ..s1[i].info }, stack: s1[i].stack },
                ) by {
                assert(has_pid(old(self).task_pool.process@, s0[i].info.pid));
                let k = choose|k: int|
                    0 <= k < old(self).task_pool.process@.len() && #[trigger] old(self).task_pool.process@[k].info.pid
                        == s0[i].info.pid;
                let p0 = old(self).task_pool.process@[k];
                if p0.join_num + 1 >= p0.tid@.len() {
                    assert(s1 == woken(s0, p0.tid@));
                } else {
                    assert(s1 == s0.update(
                        i,
                        Thread { info: ExecutionInfo { state: TaskState::Sleeping, ..s0[i].info }, stack: s0[i].stack },
                    ));
                }
                assert(s1.len() == s0.len());
                assert(s1[i].info.tid == id);
                assert forall|j: int| 0 <= j < s1.len() implies #[trigger] self.task_pool.thread@[j] == s1.update(
                    i,
                    Thread { info: ExecutionInfo { env: after_call(*env), ..s1[i].info }, stack: s1[i].stack },
                )[j] by {
                    if j != i && s1[j].info.tid == id {
                        lemma_unique_tid(s1, i, j);
                    }
                }
                assert(self.task_pool.thread@ =~= s1.update(
                    i,
                    Thread { info: ExecutionInfo { env: after_call(*env), ..s1[i].info }, stack: s1[i].stack },
                ));
            }
        }
    }

    /// Ends thread `id`, which is there: the whole program when it is its
    /// program's main thread, else the thread alone.
    pub fn kill_task(&mut self, id: usize)
        requires
            old(self).task_pool.wf(),
            has_tid(old(self).task_pool.thread@, id),
            forall|i: int|
                0 <= i < old(self).task_pool.thread@.len() && #[trigger] old(self).task_pool.thread@[i].info.tid == id
                    ==> if old(self).task_pool.thread@[i].info.is_main {
                    waiters_stay(
                        old(self).task_pool.thread@,
                        old(self).task_pool.waiting_list@,
                        old(self).task_pool.thread@[i].info.pid,
                    )
                } else {
                    forall|k: int|
                        0 <= k < waiters_of(old(self).task_pool.waiting_list@, id).len() ==> #[trigger] waiters_of(
                            old(self).task_pool.waiting_list@,
                            id,
                        )[k] != id && has_tid(old(self).task_pool.thread@, waiters_of(old(self).task_pool.waiting_list@, id)[k])
                },
        ensures
            final(self).task_pool.wf(),
            final(self).task_pool.waiting_list@ == old(self).task_pool.waiting_list@,
            final(self).task_pool.time_list@ == old(self).task_pool.time_list@,
            final(self).task_pool.wait_time_list@ == old(self).task_pool.wait_time_list@,
            forall|i: int|
                0 <= i < old(self).task_pool.thread@.len() && #[trigger] old(self).task_pool.thread@[i].info.tid == id
                    ==> {
                    let pid = old(self).task_pool.thread@[i].info.pid;
                    let wl = old(self).task_pool.waiting_list@;
                    let s0 = old(self).task_pool.thread@;
                    let p0 = old(self).task_pool.process@;
                    if s0[i].info.is_main {
                        &&& final(self).task_pool.thread@ == drop_program(woken(s0, program_waiters(s0, wl, pid)), pid)
                        &&& forall|k: int|
                            0 <= k < p0.len() && #[trigger] p0[k].info.pid == pid ==> final(self).task_pool.process@
                                == p0.remove(k)
                    } else {
                        &&& final(self).task_pool.thread@ == woken(s0.remove(i), waiters_of(wl, id))
                        &&& final(self).task_pool.process@.len() == p0.len()
                        &&& forall|k: int|
                            0 <= k < p0.len() ==> {
                                let p1 = #[trigger] final(self).task_pool.process@[k];
                                &&& p1.info == p0[k].info
                                &&& p1.tid@ == if p0[k].info.pid == pid {
                                    without_first(p0[k].tid@, id)
                                } else {
                                    p0[k].tid@
                                }
                                &&& p1.join_num == p0[k].join_num
                            }
                    }
                },
    {
        match self.task_pool.get_task_exec(id) {
            Some(info) => {
                if info.is_main {
                    let _ = self.task_pool.remove_program(id);
                } else {
                    let _ = self.task_pool.remove_task(id);
                }
            },
            None => {},
        }
    }

    /// The thread running on hart `hartid` and its program; `None` when
    /// none runs there.
    pub fn get_current_task(&self, hartid: usize) -> (r: Option<(ExecutionInfo, ProgramInfo)>)
        requires
            self.task_pool.wf(),
        ensures
            match r {
                Some((e, p)) => exists|i: int, k: int|
                    #![trigger first_running(self.task_pool.thread@, hartid, i), self.task_pool.process@[k]]
                    first_running(self.task_pool.thread@, hartid, i) && 0 <= k < self.task_pool.process@.len()
                        && self.task_pool.process@[k].info.pid == self.task_pool.thread@[i].info.pid && e
                        == self.task_pool.thread@[i].info && p == self.task_pool.process@[k].info,
                None => forall|i: int| !first_running(self.task_pool.thread@, hartid, i),
            },
    {
        match self.running_id(hartid) {
            Some((id, gi)) => {
                let ghost i = gi@;
                let e = self.task_pool.get_task_exec(id);
                let p = self.task_pool.get_task_prog(id);
                proof {
                    assert(has_pid(self.task_pool.process@, self.task_pool.thread@[i].info.pid));
                    let k = choose|k: int|
                        0 <= k < self.task_pool.process@.len() && #[trigger] self.task_pool.process@[k].info.pid
                            == self.task_pool.thread@[i].info.pid;
                    assert(e == Some(self.task_pool.thread@[i].info));
                    assert(p == Some(self.task_pool.process@[k].info));
                }
                match (e, p) {
                    (Some(e), Some(p)) => Some((e, p)),
                    _ => None,
                }
            },
            None => None,
        }
    }

    /// The thread running on hart `env.hartid` waits for thread `target`
    /// to end, and keeps the registers `env` past its call.
    pub fn wait_task(&mut self, env: &Environment, target: usize)
        requires
            old(self).task_pool.wf(),
            exists|i: int| first_running(old(self).task_pool.thread@, env.hartid, i),
            env.epc + 4 <= usize::MAX,
        ensures
            final(self).task_pool.wf(),
            final(self).task_pool.process@ == old(self).task_pool.process@,
            final(self).task_pool.time_list@ == old(self).task_pool.time_list@,
            final(self).task_pool.wait_time_list@ == old(self).task_pool.wait_time_list@,
            forall|i: int|
                #[trigger] first_running(old(self).task_pool.thread@, env.hartid, i) ==> {
                    let s0 = old(self).task_pool.thread@;
                    let id = s0[i].info.tid;
                    &&& final(self).task_pool.thread@ == s0.update(
                        i,
                        Thread {
                            info: ExecutionInfo {
                                state: if has_tid(s0, target) {
                                    TaskState::Sleeping
                                } else {
                                    TaskState::Waiting
                                },
                                env: after_call(*env),
                                ..s0[i].info
                            },
                            stack: s0[i].stack,
                        },
                    )
                    &&& has_tid(s0, target) ==> waiters_of(final(self).task_pool.waiting_list@, target)
                        == waiters_of(old(self).task_pool.waiting_list@, target).push(id)
                    &&& !has_tid(s0, target) ==> final(self).task_pool.waiting_list@ == old(self).task_pool.waiting_list@
                },
    {
        let ghost s0 = self.task_pool.thread@;
        let (id, Ghost(i)) = match self.running_id(env.hartid) {
            Some(r) => r,
            None => {
                proof {
                    let w = choose|w: int| first_running(s0, env.hartid, w);
                }
                return;
            },
        };
        proof {
            assert(has_tid(s0, id));
            assert forall|w: int| first_running(s0, env.hartid, w) implies w == i by {
                lemma_first_running_unique(s0, env.hartid, w, i);
            }
        }
        self.task_pool.wait_task(id, target);
        let e = advance(env);
        let _ = self.task_pool.set_env(id, &e);
        proof {
            let s = self.task_pool.thread@;
            let expect = s0.update(
                i,
                Thread {
                    info: ExecutionInfo {
                        state: if has_tid(s0, target) {
                            TaskState::Sleeping
                        } else {
                            TaskState::Waiting
                        },
                        env: after_call(*env),
                        ..s0[i].info
                    },
                    stack: s0[i].stack,
                },
            );
            assert forall|j: int| 0 <= j < s.len() implies s[j] == expect[j] by {
                if j != i && s0[j].info.tid == id {
                    lemma_unique_tid(s0, i, j);
                }
            }
            assert(s =~= expect);
        }
    }

    /// The thread running on hart `env.hartid` sleeps until `now + time`,
    /// and keeps the registers `env` past its call.
    pub fn sleep_timer(&mut self, env: &Environment, time: usize, now: usize)
        requires
            old(self).task_pool.wf(),
            exists|i: int| first_running(old(self).task_pool.thread@, env.hartid, i),
            env.epc + 4 <= usize::MAX,
            now + time <= usize::MAX,
            !old(self).task_pool.time_list@.contains((now + time) as usize),
        ensures
            final(self).task_pool.wf(),
            final(self).task_pool.process@ == old(self).task_pool.process@,
            final(self).task_pool.waiting_list@ == old(self).task_pool.waiting_list@,
            forall|i: int|
                #[trigger] first_running(old(self).task_pool.thread@, env.hartid, i) ==> {
                    let s0 = old(self).task_pool.thread@;
                    let id = s0[i].info.tid;
                    let at = (now + time) as usize;
                    &&& final(self).task_pool.thread@ == s0.update(
                        i,
                        Thread {
                            info: ExecutionInfo {
                                trigger_time: at,
                                state: TaskState::Sleeping,
                                env: after_call(*env),
                                ..s0[i].info
                            },
                            stack: s0[i].stack,
                        },
                    )
                    &&& exists|pos: int|
                        0 <= pos <= old(self).task_pool.time_list@.len() && final(self).task_pool.time_list@
                            == old(self).task_pool.time_list@.insert(pos, at) && #[trigger] final(self).task_pool.wait_time_list@ == old(self).task_pool.wait_time_list@.insert(pos, (at, id))
                },
    {
        let ghost s0 = self.task_pool.thread@;
        let at = now + time;
        let (id, Ghost(i)) = match self.running_id(env.hartid) {
            Some(r) => r,
            None => {
                proof {
                    let w = choose|w: int| first_running(s0, env.hartid, w);
                }
                return;
            },
        };
        proof {
            assert(has_tid(s0, id));
            assert forall|w: int| first_running(s0, env.hartid, w) implies w == i by {
                lemma_first_running_unique(s0, env.hartid, w, i);
            }
        }
        self.task_pool.set_timer(id, at);
        let e = advance(env);
        let _ = self.task_pool.set_env(id, &e);
        proof {
            let s = self.task_pool.thread@;
            let expect = s0.update(
                i,
                Thread {
                    info: ExecutionInfo {
                        trigger_time: at,
                        state: TaskState::Sleeping,
                        env: after_call(*env),
                        ..s0[i].info
                    },
                    stack: s0[i].stack,
                },
            );
            assert forall|j: int| 0 <= j < s.len() implies s[j] == expect[j] by {
                if j != i && s0[j].info.tid == id {
                    lemma_unique_tid(s0, i, j);
                }
            }
            assert(s =~= expect);
        }
    }

    /// Thread `id` sleeps and keeps the registers `env` past its call;
    /// `Err` when there is no such thread.
    pub fn sleep_task(&mut self, id: usize, env: &Environment) -> (r: Result<(), ()>)
        requires
            old(self).task_pool.wf(),
            env.epc + 4 <= usize::MAX,
        ensures
            final(self).task_pool.wf(),
            final(self).task_pool.process@ == old(self).task_pool.process@,
            final(self).task_pool.waiting_list@ == old(self).task_pool.waiting_list@,
            final(self).task_pool.time_list@ == old(self).task_pool.time_list@,
            final(self).task_pool.wait_time_list@ == old(self).task_pool.wait_time_list@,
            r is Ok <==> has_tid(old(self).task_pool.thread@, id),
            final(self).task_pool.thread@.len() == old(self).task_pool.thread@.len(),
            forall|i: int|
                0 <= i < old(self).task_pool.thread@.len() ==> #[trigger] final(self).task_pool.thread@[i] == if old(self).task_pool.thread@[i].info.tid == id {
                    Thread {
                        info: ExecutionInfo {
                            state: TaskState::Sleeping,
                            env: after_call(*env),
                            ..old(self).task_pool.thread@[i].info
                        },
                        stack: old(self).task_pool.thread@[i].stack,
                    }
                } else {
                    old(self).task_pool.thread@[i]
                },
    {
        let r = self.task_pool.set_state(id, TaskState::Sleeping);
        let e = advance(env);
        let _ = self.task_pool.set_env(id, &e);
        r
    }

    /// Thread `id`, which is there, waits to be scheduled again.
    pub fn wake_task(&mut self, id: usize)
        requires
            old(self).task_pool.wf(),
            has_tid(old(self).task_pool.thread@, id),
        ensures
            final(self).task_pool.wf(),
            final(self).task_pool.process@ == old(self).task_pool.process@,
            final(self).task_pool.waiting_list@ == old(self).task_pool.waiting_list@,
            final(self).task_pool.time_list@ == old(self).task_pool.time_list@,
            final(self).task_pool.wait_time_list@ == old(self).task_pool.wait_time_list@,
            final(self).task_pool.thread@.len() == old(self).task_pool.thread@.len(),
            forall|i: int|
                0 <= i < old(self).task_pool.thread@.len() ==> #[trigger] final(self).task_pool.thread@[i] == if old(self).task_pool.thread@[i].info.tid == id {
                    Thread {
                        info: ExecutionInfo { state: TaskState::Waiting, ..old(self).task_pool.thread@[i].info },
                        stack: old(self).task_pool.thread@[i].stack,
                    }
                } else {
                    old(self).task_pool.thread@[i]
                },
    {
        let _ = self.task_pool.set_state(id, TaskState::Waiting);
    }

    /// The information of program `pid`, found through its first thread;
    /// `None` when no thread of it is there.
    pub fn get_program_info(&self, pid: usize) -> (r: Option<ProgramInfo>)
        requires
            self.task_pool.wf(),
        ensures
            !(exists|i: int| 0 <= i < self.task_pool.thread@.len() && #[trigger] self.task_pool.thread@[i].info.pid == pid)
                ==> r is None,
            forall|i: int, k: int|
                0 <= i < self.task_pool.thread@.len() && #[trigger] self.task_pool.thread@[i].info.pid == pid && 0 <= k
                    < self.task_pool.process@.len() && #[trigger] self.task_pool.process@[k].info.pid == pid ==> r
                    == Some(self.task_pool.process@[k].info),
    {
        let mut j: usize = 0;
        while j < self.task_pool.thread.len()
            invariant
                self.task_pool.wf(),
                j <= self.task_pool.thread@.len(),
                forall|q: int| 0 <= q < j ==> #[trigger] self.task_pool.thread@[q].info.pid != pid,
            decreases self.task_pool.thread@.len() - j,
        {
            if self.task_pool.thread[j].info.pid == pid {
                let id = self.task_pool.thread[j].info.tid;
                let r = self.task_pool.get_task_prog(id);
                proof {
                    assert(has_pid(self.task_pool.process@, pid));
                    let k = choose|k: int|
                        0 <= k < self.task_pool.process@.len() && #[trigger] self.task_pool.process@[k].info.pid == pid;
                    assert(r == Some(self.task_pool.process@[k].info));
                    assert forall|k2: int|
                        0 <= k2 < self.task_pool.process@.len() && #[trigger] self.task_pool.process@[k2].info.pid == pid
                            implies k2 == k by {
                        let p = self.task_pool.process@;
                        if k2 < k {
                            assert(p[k2].info.pid < p[k].info.pid);
                        } else if k2 > k {
                            assert(p[k].info.pid < p[k2].info.pid);
                        }
                    }
                }
                return r;
            }
            j = j + 1;
        }
        None
    }
}

impl TaskManager {
    /// Starts `program` as program `pid` with its main thread `tid`, made
    /// by a thread with registers `env`: the program comes in with its
    /// areas mapped and `tid` as its one thread, and the thread sleeps
    /// until woken. Gives `tid`; `None` when the areas or the first stack
    /// pages could not be mapped, and then the pool is as it was. `pid`
    /// and `tid` are numbers no program and no thread of the pool has yet.
    pub fn create_task(
        &mut self,
        program: ProgramArea,
        env: &Environment,
        pid: usize,
        tid: usize,
        memory_end: usize,
        process_exit: usize,
        pm: &mut PageManager,
    ) -> (r: Option<usize>)
        requires
            old(self).task_pool.wf(),
            old(pm).wf(),
            old(pm).page_size_spec() == PAGE_SIZE,
            forall|i: int| 0 <= i < program.area@.len() ==> area_mappable(#[trigger] program.area@[i]),
            memory_end + MAX_HEAP_SIZE <= usize::MAX,
            stack_top_of(memory_end as int, tid as int) + PAGE_SIZE <= usize::MAX,
            !has_tid(old(self).task_pool.thread@, tid),
            !has_pid(old(self).task_pool.process@, pid),
        ensures
            final(self).task_pool.wf(),
            final(pm).wf(),
            final(pm).page_size_spec() == PAGE_SIZE,
            final(self).task_pool.waiting_list@ == old(self).task_pool.waiting_list@,
            final(self).task_pool.time_list@ == old(self).task_pool.time_list@,
            final(self).task_pool.wait_time_list@ == old(self).task_pool.wait_time_list@,
            match r {
                Some(id) => id == tid && exists|t: Thread, p: Process|
                    #![trigger thread_put(old(self).task_pool.thread@, t), process_put(old(self).task_pool.process@, p)]
                    {
                        &&& final(self).task_pool.thread@ == thread_put(old(self).task_pool.thread@, t)
                        &&& final(self).task_pool.process@ == process_put(old(self).task_pool.process@, p)
                        &&& main_thread_info(t.info, pid, tid, program.is_kernel, program.entry, *env, memory_end, process_exit)
                        &&& p.wf()
                        &&& p.info.pid == pid
                        &&& p.info.state == TaskState::Running
                        &&& p.program == program
                        &&& p.is_kernel == program.is_kernel
                        &&& p.tid@ == seq![tid]
                        &&& p.join_num == 0
                        &&& p.resource.files@.len() == 0
                    },
                None => final(self).task_pool.thread@ == old(self).task_pool.thread@ && final(self).task_pool.process@ == old(self).task_pool.process@,
            },
            program_room(program, *old(pm)) ==> r is Some,
    {
        self.task_pool.create(program, env, pid, tid, memory_end, process_exit, pm)
    }

    /// Forks the thread running on hart `env.hartid` as thread `tid`: the
    /// source keeps the registers `env` it stopped with, the new thread
    /// joins its program and the pool, and continues after the call on a
    /// copy of the source's stack. Gives `tid` and the copies of stack
    /// frames to make; `None` when the new stack's pages could not be had
    /// or mapped, and then only the source's registers were recorded.
    /// `tid` is a number no thread of the pool has yet.
    pub fn fork_task(&mut self, env: &Environment, tid: usize, memory_end: usize, pm: &mut PageManager) -> (r:
        Option<(usize, Vec<(usize, usize, usize)>)>)
        requires
            old(self).task_pool.wf(),
            !has_tid(old(self).task_pool.thread@, tid),
            old(pm).wf(),
            old(pm).page_size_spec() == PAGE_SIZE,
            exists|i: int| first_running(old(self).task_pool.thread@, env.hartid, i),
            forall|i: int|
                #[trigger] first_running(old(self).task_pool.thread@, env.hartid, i) ==> can_fork(
                    old(self).task_pool.thread@[i],
                    *env,
                    tid,
                    memory_end,
                ) && forall|k: int|
                    0 <= k < old(self).task_pool.process@.len() && old(self).task_pool.process@[k].info.pid
                        == old(self).task_pool.thread@[i].info.pid ==> #[trigger] old(self).task_pool.process@[k].wf(),
        ensures
            final(self).task_pool.wf(),
            final(pm).wf(),
            final(pm).page_size_spec() == PAGE_SIZE,
            final(self).task_pool.waiting_list@ == old(self).task_pool.waiting_list@,
            final(self).task_pool.time_list@ == old(self).task_pool.time_list@,
            final(self).task_pool.wait_time_list@ == old(self).task_pool.wait_time_list@,
            final(self).task_pool.process@.len() == old(self).task_pool.process@.len(),
            forall|i: int|
                #[trigger] first_running(old(self).task_pool.thread@, env.hartid, i) ==> {
                    let src = saved(old(self).task_pool.thread@[i], *env);
                    let s1 = old(self).task_pool.thread@.update(i, src);
                    &&& match r {
                        Some((id, copies)) => {
                            &&& id == tid
                            &&& copies@.len() == src.stack.area@.len()
                            &&& exists|t: Thread|
                                #![trigger thread_put(s1, t)]
                                final(self).task_pool.thread@ == thread_put(s1, t) && forked_info(t.info, src.info, tid, memory_end)
                        },
                        None => final(self).task_pool.thread@ == s1,
                    }
                    &&& forall|k: int|
                        0 <= k < old(self).task_pool.process@.len() ==> {
                            let p0 = old(self).task_pool.process@[k];
                            let p1 = #[trigger] final(self).task_pool.process@[k];
                            if p0.info.pid == src.info.pid {
                                &&& p1.wf()
                                &&& p1.info.pid == p0.info.pid
                                &&& p1.program == p0.program
                                &&& p1.tid@ == if r is Some {
                                    p0.tid@.push(tid)
                                } else {
                                    p0.tid@
                                }
                            } else {
                                p1 == p0
                            }
                        }
                },
    {
        self.task_pool.fork(env, tid, memory_end, pm)
    }

    /// Branches the thread running on hart `env.hartid` as thread `tid`:
    /// the source keeps the registers `env` it stopped with, and the new
    /// thread joins its program and the pool and starts the function the
    /// source named. Gives `tid`, a number no thread of the pool has yet.
    pub fn branch(&mut self, env: &Environment, tid: usize, memory_end: usize, thread_exit: usize) -> (r:
        Option<usize>)
        requires
            old(self).task_pool.wf(),
            exists|i: int| first_running(old(self).task_pool.thread@, env.hartid, i),
            stack_top_of(memory_end as int, tid as int) + PAGE_SIZE <= usize::MAX,
            !has_tid(old(self).task_pool.thread@, tid),
        ensures
            final(self).task_pool.wf(),
            r == Some(tid),
            final(self).task_pool.waiting_list@ == old(self).task_pool.waiting_list@,
            final(self).task_pool.time_list@ == old(self).task_pool.time_list@,
            final(self).task_pool.wait_time_list@ == old(self).task_pool.wait_time_list@,
            final(self).task_pool.process@.len() == old(self).task_pool.process@.len(),
            forall|i: int|
                #[trigger] first_running(old(self).task_pool.thread@, env.hartid, i) ==> {
                    let src = saved(old(self).task_pool.thread@[i], *env);
                    let s1 = old(self).task_pool.thread@.update(i, src);
                    &&& exists|t: Thread|
                        #![trigger thread_put(s1, t)]
                        final(self).task_pool.thread@ == thread_put(s1, t) && branched_info(t.info, src.info, tid, memory_end, thread_exit)
                            && t.stack.area@.len() == 0 && t.stack.wf()
                    &&& forall|k: int|
                        0 <= k < old(self).task_pool.process@.len() ==> {
                            let p0 = old(self).task_pool.process@[k];
                            let p1 = #[trigger] final(self).task_pool.process@[k];
                            if p0.info.pid == src.info.pid {
                                p1 == Process { tid: p1.tid, ..p0 } && p1.tid@ == p0.tid@.push(tid)
                            } else {
                                p1 == p0
                            }
                        }
                },
    {
        self.task_pool.branch(env, tid, memory_end, thread_exit)
    }

    /// Takes `size` bytes of the heap of thread `id`'s program, as the
    /// program's own heap does; gives the virtual and physical address.
    pub fn alloc_heap(&mut self, size: usize, id: usize, pm: &mut PageManager) -> (r: Option<(usize, usize)>)
        requires
            old(self).task_pool.wf(),
            has_tid(old(self).task_pool.thread@, id),
            old(pm).wf(),
            old(pm).page_size_spec() == PAGE_SIZE,
            size <= usize::MAX / 2 + 1,
            forall|i: int, k: int|
                0 <= i < old(self).task_pool.thread@.len() && #[trigger] old(self).task_pool.thread@[i].info.tid == id && 0 <= k
                    < old(self).task_pool.process@.len() && #[trigger] old(self).task_pool.process@[k].info.pid
                    == old(self).task_pool.thread@[i].info.pid ==> {
                    let p = old(self).task_pool.process@[k];
                    &&& p.wf()
                    &&& satp_root(p.info.satp.flag) != 0
                    &&& no_server(p.heap.memory_area@, size as int) ==> forall|b: int|
                        is_align_of(size as int, b) ==> p.heap.virtual_heap_top + pool_pages(b) * 4096
                            - p.heap.virtual_heap_start <= MAX_HEAP_SIZE
                },
        ensures
            final(self).task_pool.wf(),
            final(pm).wf(),
            final(pm).page_size_spec() == PAGE_SIZE,
            final(self).task_pool.thread@ == old(self).task_pool.thread@,
            final(self).task_pool.waiting_list@ == old(self).task_pool.waiting_list@,
            final(self).task_pool.time_list@ == old(self).task_pool.time_list@,
            final(self).task_pool.wait_time_list@ == old(self).task_pool.wait_time_list@,
            final(self).task_pool.process@.len() == old(self).task_pool.process@.len(),
            forall|i: int, k: int|
                0 <= i < old(self).task_pool.thread@.len() && #[trigger] old(self).task_pool.thread@[i].info.tid == id && 0 <= k
                    < old(self).task_pool.process@.len() && #[trigger] old(self).task_pool.process@[k].info.pid
                    == old(self).task_pool.thread@[i].info.pid ==> {
                    let p0 = old(self).task_pool.process@[k];
                    let p1 = final(self).task_pool.process@[k];
                    &&& p1.wf()
                    &&& p1.info == p0.info
                    &&& p1.program == p0.program
                    &&& p1.tid == p0.tid
                    &&& p1.resource == p0.resource
                    &&& p1.heap.virtual_heap_start == p0.heap.virtual_heap_start
                    &&& !no_server(p0.heap.memory_area@, size as int) ==> r is Some
                    &&& heap_took(p0.heap, p1.heap, size as int, r, *old(pm), p0.page_table, p1.page_table)
                    &&& forall|k2: int|
                        0 <= k2 < old(self).task_pool.process@.len() && k2 != k ==> #[trigger] final(self).task_pool.process@[k2]
                            == old(self).task_pool.process@[k2]
                },
    {
        self.task_pool.alloc_heap(size, id, pm)
    }

    /// Gives back the heap block at `addr` of thread `id`'s program.
    pub fn free_heap(&mut self, addr: usize, id: usize)
        requires
            old(self).task_pool.wf(),
            has_tid(old(self).task_pool.thread@, id),
            forall|i: int, k: int|
                0 <= i < old(self).task_pool.thread@.len() && #[trigger] old(self).task_pool.thread@[i].info.tid == id && 0 <= k
                    < old(self).task_pool.process@.len() && #[trigger] old(self).task_pool.process@[k].info.pid
                    == old(self).task_pool.thread@[i].info.pid ==> {
                    let h = old(self).task_pool.process@[k].heap;
                    &&& h.wf()
                    &&& exists|j: int|
                        #[trigger] is_first_holder(h.memory_area@, addr as int, j) && (addr
                            - h.memory_area@[j].virtual_base) / (h.memory_area@[j].block_size as int)
                            < h.memory_area@[j].block_num && h.memory_area@[j].record@[(addr
                            - h.memory_area@[j].virtual_base) / (h.memory_area@[j].block_size as int)]
                },
        ensures
            final(self).task_pool.wf(),
            final(self).task_pool.thread@ == old(self).task_pool.thread@,
            final(self).task_pool.waiting_list@ == old(self).task_pool.waiting_list@,
            final(self).task_pool.time_list@ == old(self).task_pool.time_list@,
            final(self).task_pool.wait_time_list@ == old(self).task_pool.wait_time_list@,
            final(self).task_pool.process@.len() == old(self).task_pool.process@.len(),
            forall|i: int, k: int|
                0 <= i < old(self).task_pool.thread@.len() && #[trigger] old(self).task_pool.thread@[i].info.tid == id && 0 <= k
                    < old(self).task_pool.process@.len() && #[trigger] old(self).task_pool.process@[k].info.pid
                    == old(self).task_pool.thread@[i].info.pid ==> {
                    let p0 = old(self).task_pool.process@[k];
                    let p1 = final(self).task_pool.process@[k];
                    &&& p1.heap.wf()
                    &&& p1 == Process { heap: p1.heap, ..p0 }
                    &&& p1.heap.virtual_heap_top == p0.heap.virtual_heap_top
                    &&& heap_freed(p0.heap, p1.heap, addr as int)
                    &&& forall|k2: int|
                        0 <= k2 < old(self).task_pool.process@.len() && k2 != k ==> #[trigger] final(self).task_pool.process@[k2]
                            == old(self).task_pool.process@[k2]
                },
    {
        self.task_pool.free_heap(addr, id)
    }

    /// The physical address of `va` for thread `id`: through its
    /// program when the program holds `va`, else through the thread's
    /// stack.
    pub fn virt_to_phy(&self, id: usize, va: usize, memory_end: usize) -> (r: usize)
        requires
            self.task_pool.wf(),
            has_tid(self.task_pool.thread@, id),
            memory_end + MAX_HEAP_SIZE <= usize::MAX,
            forall|i: int, k: int|
                0 <= i < self.task_pool.thread@.len() && #[trigger] self.task_pool.thread@[i].info.tid == id && 0 <= k
                    < self.task_pool.process@.len() && #[trigger] self.task_pool.process@[k].info.pid == self.task_pool.thread@[i].info.pid
                    ==> {
                    let p = self.task_pool.process@[k];
                    let t = self.task_pool.thread@[i];
                    let a = p.program.area@;
                    let sa = t.stack.area@;
                    if process_holds(p, va, memory_end) {
                        &&& va >= memory_end ==> va <= memory_end + MAX_HEAP_SIZE && exists|h: int|
                            #[trigger] is_first_holder(p.heap.memory_area@, va as int, h)
                                && p.heap.memory_area@[h].physic_addr + va <= usize::MAX
                        &&& va < memory_end && first_containing(a, va as int) >= 0 ==> a[first_containing(
                            a,
                            va as int,
                        )].pst + va <= usize::MAX
                    } else {
                        &&& first_stack_area(sa, va as int) >= 0
                        &&& sa[first_stack_area(sa, va as int)].pst + (va - sa[first_stack_area(sa, va as int)].vst)
                            <= usize::MAX
                    }
                },
        ensures
            forall|i: int, k: int|
                0 <= i < self.task_pool.thread@.len() && #[trigger] self.task_pool.thread@[i].info.tid == id && 0 <= k
                    < self.task_pool.process@.len() && #[trigger] self.task_pool.process@[k].info.pid == self.task_pool.thread@[i].info.pid
                    ==> {
                    let p = self.task_pool.process@[k];
                    let t = self.task_pool.thread@[i];
                    let a = p.program.area@;
                    let sa = t.stack.area@;
                    if process_holds(p, va, memory_end) {
                        &&& va >= memory_end ==> forall|h: int|
                            #[trigger] is_first_holder(p.heap.memory_area@, va as int, h) ==> r
                                == p.heap.memory_area@[h].physic_addr + va - p.heap.memory_area@[h].virtual_base
                        &&& va < memory_end && first_containing(a, va as int) >= 0 ==> r == a[first_containing(
                            a,
                            va as int,
                        )].pst + va - a[first_containing(a, va as int)].vst
                        &&& va < memory_end && first_containing(a, va as int) < 0 ==> r == va
                    } else {
                        r == sa[first_stack_area(sa, va as int)].pst + (va - sa[first_stack_area(sa, va as int)].vst)
                    }
                },
    {
        self.task_pool.virt_to_phy(id, va, memory_end)
    }

    /// Grows the stack of thread `id` by its step of pages in its
    /// program's address space.
    pub fn expand_stack(&mut self, id: usize, pm: &mut PageManager) -> (r: Result<(), ()>)
        requires
            old(self).task_pool.wf(),
            has_tid(old(self).task_pool.thread@, id),
            old(pm).wf(),
            old(pm).page_size_spec() == PAGE_SIZE,
            forall|i: int, k: int|
                0 <= i < old(self).task_pool.thread@.len() && #[trigger] old(self).task_pool.thread@[i].info.tid == id && 0 <= k
                    < old(self).task_pool.process@.len() && #[trigger] old(self).task_pool.process@[k].info.pid
                    == old(self).task_pool.thread@[i].info.pid ==> {
                    let st = old(self).task_pool.thread@[i].stack;
                    &&& old(self).task_pool.process@[k].wf()
                    &&& 16 <= st.last_page ==> 16 * 4096 <= st.stack_bottom
                    &&& st.stack_bottom + PAGE_SIZE <= usize::MAX
                },
        ensures
            final(self).task_pool.wf(),
            final(pm).wf(),
            final(self).task_pool.waiting_list@ == old(self).task_pool.waiting_list@,
            final(self).task_pool.time_list@ == old(self).task_pool.time_list@,
            final(self).task_pool.wait_time_list@ == old(self).task_pool.wait_time_list@,
            final(self).task_pool.thread@.len() == old(self).task_pool.thread@.len(),
            final(self).task_pool.process@.len() == old(self).task_pool.process@.len(),
            forall|i: int, k: int|
                0 <= i < old(self).task_pool.thread@.len() && #[trigger] old(self).task_pool.thread@[i].info.tid == id && 0 <= k
                    < old(self).task_pool.process@.len() && #[trigger] old(self).task_pool.process@[k].info.pid
                    == old(self).task_pool.thread@[i].info.pid ==> {
                    let t0 = old(self).task_pool.thread@[i];
                    let t1 = final(self).task_pool.thread@[i];
                    &&& t1.info == t0.info
                    &&& t1.stack.stack_top == t0.stack.stack_top
                    &&& t0.stack.last_page < 16 ==> r is Err && t1.stack == t0.stack
                    &&& r is Ok ==> t1.stack.stack_bottom == t0.stack.stack_bottom - 16 * 4096
                        && t1.stack.last_page == t0.stack.last_page - 16
                    &&& r is Err ==> t0.stack.last_page < 16 || no_fit(*old(pm), t0.stack.is_kernel, 16)
                        || !has_room(
                        old(self).task_pool.process@[k].info.satp,
                        old(self).task_pool.process@[k].page_table,
                        *old(pm),
                        32 + if t0.stack.is_kernel {
                            16int
                        } else {
                            0
                        },
                    )
                    &&& t0.stack.wf() ==> t1.stack.wf()
                    &&& final(self).task_pool.process@[k].wf()
                    &&& final(self).task_pool.process@[k].program == old(self).task_pool.process@[k].program
                    &&& forall|i2: int|
                        0 <= i2 < old(self).task_pool.thread@.len() && i2 != i ==> #[trigger] final(self).task_pool.thread@[i2]
                            == old(self).task_pool.thread@[i2]
                    &&& forall|k2: int|
                        0 <= k2 < old(self).task_pool.process@.len() && k2 != k ==> #[trigger] final(self).task_pool.process@[k2]
                            == old(self).task_pool.process@[k2]
                },
    {
        self.task_pool.expand_stack(id, pm)
    }

    /// Ends thread `id`: it leaves the pool and its program's threads, and
    /// every thread waiting for it is woken. The list of its waiters stays.
    pub fn task_exit(&mut self, id: usize)
        requires
            old(self).task_pool.wf(),
            has_tid(old(self).task_pool.thread@, id),
            forall|k: int|
                0 <= k < waiters_of(old(self).task_pool.waiting_list@, id).len() ==> #[trigger] waiters_of(
                    old(self).task_pool.waiting_list@,
                    id,
                )[k] != id && has_tid(old(self).task_pool.thread@, waiters_of(old(self).task_pool.waiting_list@, id)[k]),
        ensures
            final(self).task_pool.wf(),
            final(self).task_pool.waiting_list@ == old(self).task_pool.waiting_list@,
            final(self).task_pool.time_list@ == old(self).task_pool.time_list@,
            final(self).task_pool.wait_time_list@ == old(self).task_pool.wait_time_list@,
            forall|i: int|
                0 <= i < old(self).task_pool.thread@.len() && #[trigger] old(self).task_pool.thread@[i].info.tid == id ==> {
                    let pid = old(self).task_pool.thread@[i].info.pid;
                    &&& final(self).task_pool.thread@ == woken(old(self).task_pool.thread@.remove(i), waiters_of(old(self).task_pool.waiting_list@, id))
                    &&& final(self).task_pool.process@.len() == old(self).task_pool.process@.len()
                    &&& forall|k: int|
                        0 <= k < old(self).task_pool.process@.len() ==> {
                            let p0 = old(self).task_pool.process@[k];
                            let p1 = #[trigger] final(self).task_pool.process@[k];
                            &&& p1.info == p0.info
                            &&& p1.tid@ == if p0.info.pid == pid {
                                without_first(p0.tid@, id)
                            } else {
                                p0.tid@
                            }
                            &&& p1.join_num == p0.join_num
                        }
                },
    {
        let _ = self.task_pool.remove_task(id);
    }

    /// Records that the program of thread `task_id`, which is there, took
    /// file `file_id`.
    pub fn push_file(&mut self, task_id: usize, file_id: usize)
        requires
            old(self).task_pool.wf(),
            has_tid(old(self).task_pool.thread@, task_id),
        ensures
            final(self).task_pool.wf(),
            final(self).task_pool.thread@ == old(self).task_pool.thread@,
            final(self).task_pool.process@.len() == old(self).task_pool.process@.len(),
            forall|i: int, k: int|
                0 <= i < old(self).task_pool.thread@.len() && #[trigger] old(self).task_pool.thread@[i].info.tid == task_id
                    && 0 <= k < old(self).task_pool.process@.len() ==> {
                    let p0 = old(self).task_pool.process@[k];
                    let p1 = #[trigger] final(self).task_pool.process@[k];
                    &&& p1.info == p0.info
                    &&& p1.resource.files@ == if p0.info.pid == old(self).task_pool.thread@[i].info.pid {
                        p0.resource.files@.push(file_id)
                    } else {
                        p0.resource.files@
                    }
                },
    {
        self.task_pool.push_file(task_id, file_id)
    }

    /// Records that the program of thread `task_id`, which is there, gave
    /// file `file_id` back.
    pub fn release_file(&mut self, task_id: usize, file_id: usize)
        requires
            old(self).task_pool.wf(),
            has_tid(old(self).task_pool.thread@, task_id),
        ensures
            final(self).task_pool.wf(),
            final(self).task_pool.thread@ == old(self).task_pool.thread@,
            final(self).task_pool.process@.len() == old(self).task_pool.process@.len(),
            forall|i: int, k: int|
                0 <= i < old(self).task_pool.thread@.len() && #[trigger] old(self).task_pool.thread@[i].info.tid == task_id
                    && 0 <= k < old(self).task_pool.process@.len() ==> {
                    let p0 = old(self).task_pool.process@[k];
                    let p1 = #[trigger] final(self).task_pool.process@[k];
                    &&& p1.info == p0.info
                    &&& p1.resource.files@ == if p0.info.pid == old(self).task_pool.thread@[i].info.pid {
                        without_first(p0.resource.files@, file_id)
                    } else {
                        p0.resource.files@
                    }
                },
    {
        self.task_pool.release_file(task_id, file_id)
    }

    /// What is known of thread `id`; `None` when there is no such thread.
    pub fn get_task_exec(&self, id: usize) -> (r: Option<ExecutionInfo>)
        requires
            self.task_pool.wf(),
        ensures
            !has_tid(self.task_pool.thread@, id) ==> r is None,
            forall|i: int|
                0 <= i < self.task_pool.thread@.len() && #[trigger] self.task_pool.thread@[i].info.tid == id ==> r == Some(
                    self.task_pool.thread@[i].info,
                ),
    {
        self.task_pool.get_task_exec(id)
    }

}

/// Starts the first program, a kernel program entered at `entry` with
/// the kernel's own areas (code, data, virtio and timer registers), as
/// program `pid` with main thread `tid` (numbers not in use yet), and
/// runs that thread on hart 0.
/// Gives what is known of it, to switch to; `None` when it could not be
/// made.
pub fn start_init_process(
    mgr: &mut TaskManager,
    entry: usize,
    memory_start: usize,
    rodata_end: usize,
    data_start: usize,
    heap_start: usize,
    pid: usize,
    tid: usize,
    memory_end: usize,
    pm: &mut PageManager,
) -> (r: Option<ExecutionInfo>)
    requires
        old(mgr).task_pool.wf(),
        old(pm).wf(),
        old(pm).page_size_spec() == PAGE_SIZE,
        rodata_end + PAGE_SIZE <= usize::MAX,
        heap_start + KERNEL_PAGE_NUM * PAGE_SIZE + PAGE_SIZE <= usize::MAX,
        memory_end + MAX_HEAP_SIZE <= usize::MAX,
        stack_top_of(memory_end as int, tid as int) + PAGE_SIZE <= usize::MAX,
        !has_tid(old(mgr).task_pool.thread@, tid),
        !has_pid(old(mgr).task_pool.process@, pid),
    ensures
        final(mgr).task_pool.wf(),
        final(pm).wf(),
        match r {
            Some(info) => {
                &&& info.tid == tid
                &&& info.pid == pid
                &&& info.state == TaskState::Running
                &&& info.is_main
                &&& info.is_kernel
                &&& info.env.epc == entry
                &&& info.env.hartid == 0
                &&& has_tid(final(mgr).task_pool.thread@, tid)
                &&& has_pid(final(mgr).task_pool.process@, pid)
            },
            None => final(mgr).task_pool.thread@ == old(mgr).task_pool.thread@,
        },
        areas_room(kernel_system_areas(memory_start, rodata_end, data_start, heap_start), true, *old(pm)) ==> r is Some,
{
    let mut program = ProgramArea::new(entry, true);
    program.push_system_areas(memory_start, rodata_end, data_start, heap_start, 0, 0, 0);
    proof {
        assert(program.area@.subrange(0, 0) =~= Seq::<crate::memory::program_memory::program_area::Area>::empty());
        assert(program.area@ =~= kernel_system_areas(memory_start, rodata_end, data_start, heap_start));
    }
    proof {
        assert forall|i: int| 0 <= i < program.area@.len() implies area_mappable(#[trigger] program.area@[i]) by {
            assert(page_floor(rodata_end as int) <= rodata_end) by (nonlinear_arith)
                requires rodata_end >= 0;
            assert(page_floor(heap_start + KERNEL_PAGE_NUM * PAGE_SIZE) <= heap_start + KERNEL_PAGE_NUM * PAGE_SIZE)
                by (nonlinear_arith)
                requires heap_start >= 0;
        }
    }
    let ghost s0 = mgr.task_pool.thread@;
    let env = Environment::new();
    match mgr.create_task(program, &env, pid, tid, memory_end, 0, pm) {
        Some(id) => {
            proof {
                let (t, p) = choose|t: Thread, p: Process|
                    #![trigger thread_put(s0, t), process_put(old(mgr).task_pool.process@, p)]
                    {
                        &&& mgr.task_pool.thread@ == thread_put(s0, t)
                        &&& mgr.task_pool.process@ == process_put(old(mgr).task_pool.process@, p)
                        &&& main_thread_info(t.info, pid, tid, true, entry, env, memory_end, 0)
                        &&& p.wf()
                        &&& p.info.pid == pid
                        &&& p.info.state == TaskState::Running
                        &&& p.program == program
                        &&& p.is_kernel == true
                        &&& p.tid@ == seq![tid]
                        &&& p.join_num == 0
                        &&& p.resource.files@.len() == 0
                    };
                super::lifecycle::lemma_put_has(s0, t);
                let j = choose|j: int| 0 <= j < thread_put(s0, t).len() && #[trigger] thread_put(s0, t)[j] == t;
                assert(mgr.task_pool.thread@[j] == t);
                assert(mgr.task_pool.thread@[j].info.tid == tid);
                assert forall|j2: int| 0 <= j2 < mgr.task_pool.thread@.len() && #[trigger] mgr.task_pool.thread@[j2].info.tid == tid implies mgr.task_pool.thread@[j2] == t by {
                    lemma_unique_tid(mgr.task_pool.thread@, j, j2);
                }
                assert(has_pid(mgr.task_pool.process@, t.info.pid));
            }
            let ghost s1 = mgr.task_pool.thread@;
            let ghost p1 = mgr.task_pool.process@;
            let r = mgr.start(id, 0);
            proof {
                let j = choose|j: int| 0 <= j < s1.len() && #[trigger] s1[j].info.tid == tid;
                assert(mgr.task_pool.thread@[j].info.tid == tid);
                assert(has_pid(p1, s1[j].info.pid));
                assert(r == Some(mgr.task_pool.thread@[j].info));
            }
            r
        },
        None => None,
    }
}

} // verus!
