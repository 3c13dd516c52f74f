//! The task pool: the programs by number, the threads by number, who waits
//! for whom, and the sleep timers. Threads and programs are kept in order
//! of their numbers, and every walk over them goes in that order.

use vstd::prelude::*;
use crate::memory::config::PAGE_SIZE;
use crate::memory::page::PageManager;
use crate::memory::program_memory::program_area::{ProgramArea, area_mappable};
use super::process::{Process, MAX_HEAP_SIZE};
use super::resource::{without_first, remove_first};
use super::task_info::{Environment, ExecutionInfo, ProgramInfo, TaskState};
use super::thread::{Thread, stack_top_of};

verus! {

/// The threads `s` are in strictly increasing order of number.
pub open spec fn tids_sorted(s: Seq<Thread>) -> bool {
    forall|i: int, j: int| 0 <= i < j < s.len() ==> #[trigger] s[i].info.tid < #[trigger] s[j].info.tid
}

/// The programs `s` are in strictly increasing order of number.
pub open spec fn pids_sorted(s: Seq<Process>) -> bool {
    forall|i: int, j: int| 0 <= i < j < s.len() ==> #[trigger] s[i].info.pid < #[trigger] s[j].info.pid
}

/// The keys of `s` are strictly increasing.
pub open spec fn keys_sorted<V>(s: Seq<(usize, V)>) -> bool {
    forall|i: int, j: int| 0 <= i < j < s.len() ==> #[trigger] s[i].0 < #[trigger] s[j].0
}

/// The times `s` are strictly increasing.
pub open spec fn times_sorted(s: Seq<usize>) -> bool {
    forall|i: int, j: int| 0 <= i < j < s.len() ==> #[trigger] s[i] < #[trigger] s[j]
}

/// Thread `id` is among `s`.
pub open spec fn has_tid(s: Seq<Thread>, id: usize) -> bool {
    exists|i: int| 0 <= i < s.len() && #[trigger] s[i].info.tid == id
}

/// Program `pid` is among `s`.
pub open spec fn has_pid(s: Seq<Process>, pid: usize) -> bool {
    exists|i: int| 0 <= i < s.len() && #[trigger] s[i].info.pid == pid
}

/// The threads `s` with those numbered in `ws` woken.
pub open spec fn woken(s: Seq<Thread>, ws: Seq<usize>) -> Seq<Thread> {
    Seq::new(
        s.len(),
        |i: int|
            if ws.contains(s[i].info.tid) {
                Thread { info: ExecutionInfo { state: TaskState::Waiting, ..s[i].info }, stack: s[i].stack }
            } else {
                s[i]
            },
    )
}


/// The threads `a` and `b` have the same numbers and programs, in the same
/// places.
pub open spec fn same_ids(a: Seq<Thread>, b: Seq<Thread>) -> bool {
    &&& a.len() == b.len()
    &&& forall|i: int| 0 <= i < a.len() ==> #[trigger] b[i].info.tid == a[i].info.tid && b[i].info.pid == a[i].info.pid
}

/// The threads waiting for thread `id` to end.
pub open spec fn waiters_of(wl: Seq<(usize, Vec<usize>)>, id: usize) -> Seq<usize>
    decreases wl.len(),
{
    if wl.len() == 0 {
        Seq::empty()
    } else if wl.last().0 == id {
        wl.last().1@
    } else {
        waiters_of(wl.drop_last(), id)
    }
}

/// How many of the first `n` timers of `w` belong to threads of `s`.
pub open spec fn live_timers(w: Seq<(usize, usize)>, s: Seq<Thread>, n: int) -> int
    decreases n,
{
    if n <= 0 {
        0
    } else {
        live_timers(w, s, n - 1) + if has_tid(s, w[n - 1].1) {
            1int
        } else {
            0int
        }
    }
}

/// How many of the times `t` have come by `time`.
pub open spec fn due_count(t: Seq<usize>, time: usize) -> int
    decreases t.len(),
{
    if t.len() == 0 {
        0
    } else if t.last() <= time {
        due_count(t.drop_last(), time) + 1
    } else {
        due_count(t.drop_last(), time)
    }
}

pub(crate) proof fn lemma_same_ids(a: Seq<Thread>, b: Seq<Thread>, procs: Seq<Process>)
    requires
        same_ids(a, b),
        tids_sorted(a),
        forall|i: int| 0 <= i < a.len() ==> has_pid(procs, #[trigger] a[i].info.pid),
    ensures
        tids_sorted(b),
        forall|i: int| 0 <= i < b.len() ==> has_pid(procs, #[trigger] b[i].info.pid),
{
    assert forall|x: int, y: int| 0 <= x < y < b.len() implies #[trigger] b[x].info.tid < #[trigger] b[y].info.tid by {
        assert(a[x].info.tid < a[y].info.tid);
    }
    assert forall|i: int| 0 <= i < b.len() implies has_pid(procs, #[trigger] b[i].info.pid) by {
        assert(b[i].info.tid == a[i].info.tid);
        assert(has_pid(procs, a[i].info.pid));
    }
}

pub(crate) proof fn lemma_unique_tid(s: Seq<Thread>, i: int, j: int)
    requires
        tids_sorted(s),
        0 <= i < s.len(),
        0 <= j < s.len(),
        s[i].info.tid == s[j].info.tid,
    ensures
        i == j,
{
    if i < j {
        assert(s[i].info.tid < s[j].info.tid);
    } else if j < i {
        assert(s[j].info.tid < s[i].info.tid);
    }
}


pub(crate) proof fn lemma_waiters_at(wl: Seq<(usize, Vec<usize>)>, id: usize, k: int)
    requires
        keys_sorted(wl),
        0 <= k < wl.len(),
        wl[k].0 == id,
    ensures
        waiters_of(wl, id) == wl[k].1@,
    decreases wl.len(),
{
    if k < wl.len() - 1 {
        assert(wl[k].0 < wl[wl.len() - 1].0);
        let t = wl.drop_last();
        assert forall|x: int, y: int| 0 <= x < y < t.len() implies #[trigger] t[x].0 < #[trigger] t[y].0 by {
            assert(wl[x].0 < wl[y].0);
        }
        lemma_waiters_at(t, id, k);
    }
}

pub(crate) proof fn lemma_waiters_absent(wl: Seq<(usize, Vec<usize>)>, id: usize)
    requires
        forall|j: int| 0 <= j < wl.len() ==> #[trigger] wl[j].0 != id,
    ensures
        waiters_of(wl, id) == Seq::<usize>::empty(),
    decreases wl.len(),
{
    if wl.len() > 0 {
        let t = wl.drop_last();
        assert forall|j: int| 0 <= j < t.len() implies #[trigger] t[j].0 != id by {
            assert(wl[j].0 != id);
        }
        lemma_waiters_absent(t, id);
    }
}


/// How many of the first `n` timers are due by `time` and belong to a
/// thread of `s`.
pub open spec fn timer_hits(t: Seq<usize>, w: Seq<(usize, usize)>, s: Seq<Thread>, time: usize, n: int) -> int
    decreases n,
{
    if n <= 0 {
        0
    } else {
        timer_hits(t, w, s, time, n - 1) + if t[n - 1] <= time && has_tid(s, w[n - 1].1) {
            1int
        } else {
            0int
        }
    }
}

/// The threads `s` after the timers among the first `n` that are due by
/// `time` went off: their threads wait again, with no timer.
pub open spec fn timer_woken(t: Seq<usize>, w: Seq<(usize, usize)>, s: Seq<Thread>, time: usize, n: int) -> Seq<
    Thread,
> {
    Seq::new(
        s.len(),
        |j: int|
            if exists|k: int| 0 <= k < n && t[k] <= time && #[trigger] w[k].1 == s[j].info.tid {
                Thread {
                    info: ExecutionInfo { trigger_time: 0, state: TaskState::Waiting, ..s[j].info },
                    stack: s[j].stack,
                }
            } else {
                s[j]
            },
    )
}

/// Every thread among those woken for the ending of a thread waits to be
/// scheduled again, and the woken threads keep their number, program,
/// priority and registers.
pub proof fn lemma_waiters_wake(s: Seq<Thread>, ws: Seq<usize>, j: int)
    requires
        0 <= j < s.len(),
    ensures
        woken(s, ws).len() == s.len(),
        ws.contains(s[j].info.tid) ==> woken(s, ws)[j].info.state == TaskState::Waiting,
        !ws.contains(s[j].info.tid) ==> woken(s, ws)[j] == s[j],
        woken(s, ws)[j].info.tid == s[j].info.tid && woken(s, ws)[j].info.pid == s[j].info.pid,
        woken(s, ws)[j].info.priority == s[j].info.priority && woken(s, ws)[j].info.env == s[j].info.env,
{
}

/// A thread whose timer is due by `time` waits again with no timer; a
/// thread with no due timer is left as it was.
pub proof fn lemma_due_timer_wakes(t: Seq<usize>, w: Seq<(usize, usize)>, s: Seq<Thread>, time: usize, j: int)
    requires
        0 <= j < s.len(),
    ensures
        (exists|k: int| 0 <= k < t.len() && t[k] <= time && #[trigger] w[k].1 == s[j].info.tid) ==> {
            &&& timer_woken(t, w, s, time, t.len() as int)[j].info.state == TaskState::Waiting
            &&& timer_woken(t, w, s, time, t.len() as int)[j].info.trigger_time == 0
        },
        !(exists|k: int| 0 <= k < t.len() && t[k] <= time && #[trigger] w[k].1 == s[j].info.tid)
            ==> timer_woken(t, w, s, time, t.len() as int)[j] == s[j],
{
}

/// The numbers of the threads `s` whose pick in `picks` is set, in
/// order.
pub open spec fn chosen(s: Seq<Thread>, picks: Seq<bool>) -> Seq<usize>
    decreases s.len(),
{
    if s.len() == 0 {
        Seq::empty()
    } else if picks.last() {
        chosen(s.drop_last(), picks.drop_last()).push(s.last().info.tid)
    } else {
        chosen(s.drop_last(), picks.drop_last())
    }
}

proof fn lemma_hits_bound(t: Seq<usize>, w: Seq<(usize, usize)>, s: Seq<Thread>, time: usize, n: int)
    requires
        n >= 0,
    ensures
        0 <= timer_hits(t, w, s, time, n) <= n,
    decreases n,
{
    if n > 0 {
        lemma_hits_bound(t, w, s, time, n - 1);
    }
}

/// The pool.
pub struct TaskPool {
    pub process: Vec<Process>,
    pub thread: Vec<Thread>,
    pub waiting_list: Vec<(usize, Vec<usize>)>,
    pub wait_time_list: Vec<(usize, usize)>,
    pub time_list: Vec<usize>,
}

impl TaskPool {
    /// Threads and programs are in order, every thread's program is there,
    /// the waiting lists and the timers are in order, and every timer has
    /// its thread.
    pub open spec fn wf(&self) -> bool {
        &&& tids_sorted(self.thread@)
        &&& pids_sorted(self.process@)
        &&& keys_sorted(self.waiting_list@)
        &&& keys_sorted(self.wait_time_list@)
        &&& times_sorted(self.time_list@)
        &&& self.time_list@.len() == self.wait_time_list@.len()
        &&& forall|i: int|
            0 <= i < self.time_list@.len() ==> #[trigger] self.wait_time_list@[i].0 == self.time_list@[i]
        &&& forall|i: int|
            0 <= i < self.thread@.len() ==> has_pid(self.process@, #[trigger] self.thread@[i].info.pid)
    }

    /// An empty pool.
    pub fn new() -> (r: Self)
        ensures
            r.wf(),
            r.process@.len() == 0,
            r.thread@.len() == 0,
            r.waiting_list@.len() == 0,
            r.time_list@.len() == 0,
    {
        TaskPool {
            process: Vec::new(),
            thread: Vec::new(),
            waiting_list: Vec::new(),
            wait_time_list: Vec::new(),
            time_list: Vec::new(),
        }
    }

    /// Where thread `id` is.
    pub fn thread_index(&self, id: usize) -> (r: Option<usize>)
        ensures
            match r {
                Some(i) => i < self.thread@.len() && self.thread@[i as int].info.tid == id,
                None => !has_tid(self.thread@, id),
            },
    {
        let mut i: usize = 0;
        while i < self.thread.len()
            invariant
                i <= self.thread@.len(),
                forall|j: int| 0 <= j < i ==> #[trigger] self.thread@[j].info.tid != id,
            decreases self.thread@.len() - i,
        {
            if self.thread[i].info.tid == id {
                return Some(i);
            }
            i = i + 1;
        }
        None
    }

    /// Where program `pid` is.
    pub fn process_index(&self, pid: usize) -> (r: Option<usize>)
        ensures
            match r {
                Some(i) => i < self.process@.len() && self.process@[i as int].info.pid == pid,
                None => !has_pid(self.process@, pid),
            },
    {
        let mut i: usize = 0;
        while i < self.process.len()
            invariant
                i <= self.process@.len(),
                forall|j: int| 0 <= j < i ==> #[trigger] self.process@[j].info.pid != pid,
            decreases self.process@.len() - i,
        {
            if self.process[i].info.pid == pid {
                return Some(i);
            }
            i = i + 1;
        }
        None
    }

    /// What is known of thread `id`; `None` when there is no such thread.
    pub fn get_task_exec(&self, id: usize) -> (r: Option<ExecutionInfo>)
        requires
            self.wf(),
        ensures
            !has_tid(self.thread@, id) ==> r is None,
            forall|i: int|
                0 <= i < self.thread@.len() && #[trigger] self.thread@[i].info.tid == id ==> r == Some(
                    self.thread@[i].info,
                ),
    {
        match self.thread_index(id) {
            Some(i) => {
                proof {
                    assert forall|j: int|
                        0 <= j < self.thread@.len() && #[trigger] self.thread@[j].info.tid == id implies j
                        == i by {
                        if j < i {
                            assert(self.thread@[j].info.tid < self.thread@[i as int].info.tid);
                        } else if j > i {
                            assert(self.thread@[i as int].info.tid < self.thread@[j].info.tid);
                        }
                    }
                }
                Some(self.thread[i].get_exec_info())
            },
            None => None,
        }
    }

    /// What is known of the program of thread `id`; `None` when there is
    /// no such thread.
    pub fn get_task_prog(&self, id: usize) -> (r: Option<ProgramInfo>)
        requires
            self.wf(),
        ensures
            !has_tid(self.thread@, id) ==> r is None,
            forall|i: int, k: int|
                0 <= i < self.thread@.len() && #[trigger] self.thread@[i].info.tid == id && 0 <= k
                    < self.process@.len() && #[trigger] self.process@[k].info.pid
                    == self.thread@[i].info.pid ==> r == Some(self.process@[k].info),
    {
        match self.thread_index(id) {
            Some(i) => {
                let pid = self.thread[i].info.pid;
                proof {
                    assert(has_pid(self.process@, self.thread@[i as int].info.pid));
                    assert forall|j: int|
                        0 <= j < self.thread@.len() && #[trigger] self.thread@[j].info.tid == id implies j
                        == i by {
                        if j < i {
                            assert(self.thread@[j].info.tid < self.thread@[i as int].info.tid);
                        } else if j > i {
                            assert(self.thread@[i as int].info.tid < self.thread@[j].info.tid);
                        }
                    }
                }
                match self.process_index(pid) {
                    Some(k) => {
                        proof {
                            assert forall|k2: int|
                                0 <= k2 < self.process@.len() && #[trigger] self.process@[k2].info.pid
                                    == pid implies k2 == k by {
                                if k2 < k {
                                    assert(self.process@[k2].info.pid < self.process@[k as int].info.pid);
                                } else if k2 > k {
                                    assert(self.process@[k as int].info.pid < self.process@[k2].info.pid);
                                }
                            }
                        }
                        Some(self.process[k].get_prog_info())
                    },
                    None => None,
                }
            },
            None => None,
        }
    }

    /// The first thread, in order of number, that runs on hart `hartid`.
    pub fn find_running(&self, hartid: usize) -> (r: Option<usize>)
        ensures
            match r {
                Some(id) => exists|i: int|
                    0 <= i < self.thread@.len() && #[trigger] self.thread@[i].info.tid == id
                        && self.thread@[i].info.state == TaskState::Running
                        && self.thread@[i].info.env.hartid == hartid && forall|j: int|
                        0 <= j < i ==> !(#[trigger] self.thread@[j].info.state == TaskState::Running
                            && self.thread@[j].info.env.hartid == hartid),
                None => forall|j: int|
                    0 <= j < self.thread@.len() ==> !(#[trigger] self.thread@[j].info.state
                        == TaskState::Running && self.thread@[j].info.env.hartid == hartid),
            },
    {
        let mut i: usize = 0;
        while i < self.thread.len()
            invariant
                i <= self.thread@.len(),
                forall|j: int|
                    0 <= j < i ==> !(#[trigger] self.thread@[j].info.state == TaskState::Running
                        && self.thread@[j].info.env.hartid == hartid),
            decreases self.thread@.len() - i,
        {
            let t = &self.thread[i];
            if t.info.state == TaskState::Running && t.info.env.hartid == hartid {
                return Some(t.info.tid);
            }
            i = i + 1;
        }
        None
    }

    /// Changes what is known of thread `id` to what `f` makes of it;
    /// `Err` when there is no such thread. `f` keeps a thread's number and
    /// program.
    pub fn set_task_exec<F: Fn(ExecutionInfo) -> ExecutionInfo>(&mut self, id: usize, f: F) -> (r: Result<(), ()>)
        requires
            old(self).wf(),
            forall|info: ExecutionInfo| #[trigger] f.requires((info,)),
            forall|info: ExecutionInfo, out: ExecutionInfo|
                #[trigger] f.ensures((info,), out) ==> out.tid == info.tid && out.pid == info.pid,
        ensures
            final(self).wf(),
            final(self).process@ == old(self).process@,
            final(self).waiting_list@ == old(self).waiting_list@,
            final(self).time_list@ == old(self).time_list@,
            final(self).wait_time_list@ == old(self).wait_time_list@,
            r is Ok <==> has_tid(old(self).thread@, id),
            final(self).thread@.len() == old(self).thread@.len(),
            forall|i: int|
                0 <= i < old(self).thread@.len() ==> if old(self).thread@[i].info.tid == id {
                    &&& f.ensures((old(self).thread@[i].info,), #[trigger] final(self).thread@[i].info)
                    &&& final(self).thread@[i].stack == old(self).thread@[i].stack
                } else {
                    final(self).thread@[i] == old(self).thread@[i]
                },
    {
        match self.thread_index(id) {
            Some(i) => {
                let info = self.thread[i].info;
                let new_info = f(info);
                proof {
                    assert forall|i2: int|
                        0 <= i2 < self.thread@.len() && #[trigger] self.thread@[i2].info.tid == id implies new_info.pid
                        == self.thread@[i2].info.pid by {
                        lemma_unique_tid(self.thread@, i as int, i2);
                    }
                }
                self.update_thread(id, new_info)
            },
            None => Err(()),
        }
    }

    /// Changes every thread's information to what `f` makes of it, in
    /// order of number. `f` keeps a thread's number and program.
    pub fn operation_all<F: Fn(ExecutionInfo) -> ExecutionInfo>(&mut self, f: F)
        requires
            old(self).wf(),
            forall|info: ExecutionInfo| #[trigger] f.requires((info,)),
            forall|info: ExecutionInfo, out: ExecutionInfo|
                #[trigger] f.ensures((info,), out) ==> out.tid == info.tid && out.pid == info.pid,
        ensures
            final(self).wf(),
            final(self).process@ == old(self).process@,
            final(self).waiting_list@ == old(self).waiting_list@,
            final(self).time_list@ == old(self).time_list@,
            final(self).wait_time_list@ == old(self).wait_time_list@,
            final(self).thread@.len() == old(self).thread@.len(),
            forall|i: int|
                0 <= i < old(self).thread@.len() ==> f.ensures(
                    (old(self).thread@[i].info,),
                    #[trigger] final(self).thread@[i].info,
                ) && final(self).thread@[i].stack == old(self).thread@[i].stack,
    {
        let ghost s0 = self.thread@;
        let mut i: usize = 0;
        while i < self.thread.len()
            invariant
                self.thread@.len() == s0.len(),
                s0 == old(self).thread@,
                i <= s0.len(),
                same_ids(s0, self.thread@),
                self.process@ == old(self).process@,
                self.waiting_list@ == old(self).waiting_list@,
                self.time_list@ == old(self).time_list@,
                self.wait_time_list@ == old(self).wait_time_list@,
                forall|info: ExecutionInfo| #[trigger] f.requires((info,)),
                forall|info: ExecutionInfo, out: ExecutionInfo|
                    #[trigger] f.ensures((info,), out) ==> out.tid == info.tid && out.pid == info.pid,
                forall|k: int|
                    0 <= k < s0.len() ==> if k < i {
                        f.ensures((s0[k].info,), #[trigger] self.thread@[k].info) && self.thread@[k].stack == s0[k].stack
                    } else {
                        self.thread@[k] == s0[k]
                    },
            decreases s0.len() - i,
        {
            let info = self.thread[i].info;
            let new_info = f(info);
            let ghost before = self.thread@;
            self.thread[i].info = new_info;
            proof {
                assert forall|k: int| 0 <= k < s0.len() && k != i implies #[trigger] self.thread@[k] == before[k] by {}
                assert forall|k: int| 0 <= k < s0.len() implies #[trigger] self.thread@[k].info.tid == s0[k].info.tid
                    && self.thread@[k].info.pid == s0[k].info.pid by {
                    if k != i {
                        assert(self.thread@[k] == before[k]);
                        assert(before[k].info.tid == s0[k].info.tid);
                    }
                }
            }
            i = i + 1;
        }
        proof {
            lemma_same_ids(s0, self.thread@, self.process@);
        }
    }

    /// Changes the information of program `pid` to what `f` makes of it;
    /// `Err` when there is no such program. `f` keeps a program's number.
    pub fn set_task_prog<F: Fn(ProgramInfo) -> ProgramInfo>(&mut self, pid: usize, f: F) -> (r: Result<(), ()>)
        requires
            old(self).wf(),
            forall|info: ProgramInfo| #[trigger] f.requires((info,)),
            forall|info: ProgramInfo, out: ProgramInfo| #[trigger] f.ensures((info,), out) ==> out.pid == info.pid,
        ensures
            final(self).wf(),
            final(self).thread@ == old(self).thread@,
            final(self).process@.len() == old(self).process@.len(),
            r is Ok <==> has_pid(old(self).process@, pid),
            forall|k: int|
                0 <= k < old(self).process@.len() ==> if old(self).process@[k].info.pid == pid {
                    &&& f.ensures((old(self).process@[k].info,), #[trigger] final(self).process@[k].info)
                    &&& final(self).process@[k] == (Process { info: final(self).process@[k].info, ..old(self).process@[k] })
                } else {
                    final(self).process@[k] == old(self).process@[k]
                },
    {
        match self.process_index(pid) {
            Some(k) => {
                let ghost p0 = self.process@;
                let info = self.process[k].info;
                let new_info = f(info);
                self.process[k].info = new_info;
                proof {
                    assert forall|k2: int| 0 <= k2 < p0.len() && k2 != k implies p0[k2].info.pid != pid by {
                        if k2 < k {
                            assert(p0[k2].info.pid < p0[k as int].info.pid);
                        } else {
                            assert(p0[k as int].info.pid < p0[k2].info.pid);
                        }
                    }
                    assert forall|a: int, b: int| 0 <= a < b < self.process@.len() implies #[trigger] self.process@[a].info.pid < #[trigger] self.process@[b].info.pid by {
                        assert(p0[a].info.pid < p0[b].info.pid);
                    }
                    assert forall|j: int| 0 <= j < self.thread@.len() implies has_pid(self.process@, #[trigger] self.thread@[j].info.pid) by {
                        let w = choose|w: int| 0 <= w < p0.len() && #[trigger] p0[w].info.pid == self.thread@[j].info.pid;
                        assert(self.process@[w].info.pid == self.thread@[j].info.pid);
                    }
                }
                Ok(())
            },
            None => Err(()),
        }
    }

    /// The numbers of the threads, in order, that `f` picks; `None` when
    /// it picks none.
    pub fn select<F: Fn(&ExecutionInfo) -> bool>(&self, f: F) -> (r: Option<Vec<usize>>)
        requires
            forall|i: int| 0 <= i < self.thread@.len() ==> f.requires((&self.thread@[i].info,)),
        ensures
            exists|picks: Seq<bool>|
                #![trigger chosen(self.thread@, picks)]
                picks.len() == self.thread@.len() && (forall|i: int|
                    0 <= i < self.thread@.len() ==> f.ensures((&#[trigger] self.thread@[i].info,), picks[i]))
                    && match r {
                    Some(v) => v@ == chosen(self.thread@, picks) && v@.len() > 0,
                    None => chosen(self.thread@, picks).len() == 0,
                },
    {
        let mut v: Vec<usize> = Vec::new();
        let ghost mut picks: Seq<bool> = Seq::empty();
        let mut i: usize = 0;
        while i < self.thread.len()
            invariant
                i <= self.thread@.len(),
                forall|k: int| 0 <= k < self.thread@.len() ==> f.requires((&self.thread@[k].info,)),
                picks.len() == i,
                forall|k: int| 0 <= k < i ==> f.ensures((&#[trigger] self.thread@[k].info,), picks[k]),
                v@ == chosen(self.thread@.subrange(0, i as int), picks),
            decreases self.thread@.len() - i,
        {
            let t = &self.thread[i];
            let b = f(&t.info);
            if b {
                v.push(t.info.tid);
            }
            proof {
                let s1 = self.thread@.subrange(0, i + 1);
                let p1 = picks.push(b);
                assert(s1.drop_last() =~= self.thread@.subrange(0, i as int));
                assert(p1.drop_last() =~= picks);
                assert(s1.last() == self.thread@[i as int]);
                picks = p1;
            }
            i = i + 1;
        }
        proof {
            assert(self.thread@.subrange(0, self.thread@.len() as int) =~= self.thread@);
        }
        if v.len() > 0 {
            Some(v)
        } else {
            None
        }
    }

    /// The first thread, in order of number, that `f` picks.
    pub fn find<F: Fn(&ExecutionInfo) -> bool>(&self, f: F) -> (r: Option<usize>)
        requires
            forall|i: int| 0 <= i < self.thread@.len() ==> f.requires((&self.thread@[i].info,)),
        ensures
            match r {
                Some(id) => exists|i: int|
                    0 <= i < self.thread@.len() && #[trigger] self.thread@[i].info.tid == id && f.ensures(
                        (&self.thread@[i].info,),
                        true,
                    ) && forall|j: int| 0 <= j < i ==> f.ensures((&#[trigger] self.thread@[j].info,), false),
                None => forall|j: int| 0 <= j < self.thread@.len() ==> f.ensures((&#[trigger] self.thread@[j].info,), false),
            },
    {
        let mut i: usize = 0;
        while i < self.thread.len()
            invariant
                i <= self.thread@.len(),
                forall|k: int| 0 <= k < self.thread@.len() ==> f.requires((&self.thread@[k].info,)),
                forall|j: int| 0 <= j < i ==> f.ensures((&#[trigger] self.thread@[j].info,), false),
            decreases self.thread@.len() - i,
        {
            let t = &self.thread[i];
            if f(&t.info) {
                return Some(t.info.tid);
            }
            i = i + 1;
        }
        None
    }

    /// Sets the state of thread `id`; `Err` when there is no such thread.
    pub fn set_state(&mut self, id: usize, state: TaskState) -> (r: Result<(), ()>)
        requires
            old(self).wf(),
        ensures
            final(self).wf(),
            final(self).process@ == old(self).process@,
            final(self).waiting_list@ == old(self).waiting_list@,
            final(self).time_list@ == old(self).time_list@,
            final(self).wait_time_list@ == old(self).wait_time_list@,
            r is Ok <==> has_tid(old(self).thread@, id),
            final(self).thread@.len() == old(self).thread@.len(),
            forall|i: int|
                0 <= i < old(self).thread@.len() ==> #[trigger] final(self).thread@[i] == if old(self).thread@[i].info.tid == id {
                    Thread {
                        info: ExecutionInfo { state, ..old(self).thread@[i].info },
                        stack: old(self).thread@[i].stack,
                    }
                } else {
                    old(self).thread@[i]
                },
    {
        match self.thread_index(id) {
            Some(i) => {
                let ghost s0 = self.thread@;
                self.thread[i].info.state = state;
                proof {
                    assert forall|j: int| 0 <= j < s0.len() && j != i implies s0[j].info.tid != id by {
                        if j < i {
                            assert(s0[j].info.tid < s0[i as int].info.tid);
                        } else {
                            assert(s0[i as int].info.tid < s0[j].info.tid);
                        }
                    }
                    assert forall|a: int, b: int| 0 <= a < b < self.thread@.len() implies #[trigger] self.thread@[a].info.tid < #[trigger] self.thread@[b].info.tid by {
                        assert(s0[a].info.tid < s0[b].info.tid);
                    }
                    assert forall|j: int| 0 <= j < self.thread@.len() implies has_pid(self.process@, #[trigger] self.thread@[j].info.pid) by {
                        assert(has_pid(self.process@, s0[j].info.pid));
                    }
                }
                Ok(())
            },
            None => Err(()),
        }
    }

    /// Sets the priority of thread `id`, which is there.
    pub fn set_priority(&mut self, id: usize, priority: usize)
        requires
            old(self).wf(),
            has_tid(old(self).thread@, id),
        ensures
            final(self).wf(),
            final(self).process@ == old(self).process@,
            final(self).thread@.len() == old(self).thread@.len(),
            forall|i: int|
                0 <= i < old(self).thread@.len() ==> #[trigger] final(self).thread@[i] == if old(self).thread@[i].info.tid == id {
                    Thread {
                        info: ExecutionInfo { priority, ..old(self).thread@[i].info },
                        stack: old(self).thread@[i].stack,
                    }
                } else {
                    old(self).thread@[i]
                },
            final(self).waiting_list@ == old(self).waiting_list@,
            final(self).time_list@ == old(self).time_list@,
            final(self).wait_time_list@ == old(self).wait_time_list@,
    {
        let i = match self.thread_index(id) {
            Some(i) => i,
            None => {
                return;
            },
        };
        let ghost s0 = self.thread@;
        self.thread[i].info.priority = priority;
        proof {
            assert forall|j: int| 0 <= j < s0.len() && j != i implies s0[j].info.tid != id by {
                if j < i {
                    assert(s0[j].info.tid < s0[i as int].info.tid);
                } else {
                    assert(s0[i as int].info.tid < s0[j].info.tid);
                }
            }
            assert forall|a: int, b: int| 0 <= a < b < self.thread@.len() implies #[trigger] self.thread@[a].info.tid < #[trigger] self.thread@[b].info.tid by {
                assert(s0[a].info.tid < s0[b].info.tid);
            }
            assert forall|j: int| 0 <= j < self.thread@.len() implies has_pid(self.process@, #[trigger] self.thread@[j].info.pid) by {
                assert(has_pid(self.process@, s0[j].info.pid));
            }
        }
    }

    /// Wakes every thread numbered in `ws`; each is there.
    pub(crate) fn wake_all(&mut self, ws: &Vec<usize>)
        requires
            old(self).wf(),
            forall|k: int| 0 <= k < ws@.len() ==> has_tid(old(self).thread@, #[trigger] ws@[k]),
        ensures
            final(self).wf(),
            final(self).thread@ == woken(old(self).thread@, ws@),
            final(self).process@ == old(self).process@,
            final(self).waiting_list@ == old(self).waiting_list@,
            final(self).time_list@ == old(self).time_list@,
            final(self).wait_time_list@ == old(self).wait_time_list@,
    {
        let ghost s0 = self.thread@;
        let mut k: usize = 0;
        while k < ws.len()
            invariant
                self.wf(),
                same_ids(s0, self.thread@),
                s0 == old(self).thread@,
                self.process@ == old(self).process@,
                self.waiting_list@ == old(self).waiting_list@,
                self.time_list@ == old(self).time_list@,
                self.wait_time_list@ == old(self).wait_time_list@,
                k <= ws@.len(),
                forall|q: int| 0 <= q < ws@.len() ==> has_tid(s0, #[trigger] ws@[q]),
                self.thread@ == woken(s0, ws@.subrange(0, k as int)),
            decreases ws@.len() - k,
        {
            let id = ws[k];
            let i = match self.thread_index(id) {
                Some(i) => i,
                None => {
                    proof {
                        let j = choose|j: int| 0 <= j < s0.len() && #[trigger] s0[j].info.tid == id;
                        assert(self.thread@[j].info.tid == id);
                    }
                    return;
                },
            };
            let ghost before = self.thread@;
            self.thread[i].wake();
            proof {
                lemma_same_ids(before, self.thread@, self.process@);
                let w1 = ws@.subrange(0, k as int);
                let w2 = ws@.subrange(0, k + 1);
                assert(w2 =~= w1.push(id));
                assert forall|j: int| 0 <= j < s0.len() implies #[trigger] self.thread@[j] == woken(s0, w2)[j] by {
                    if j == i {
                        assert(w2[k as int] == id);
                        assert(w2.contains(id));
                    } else {
                        if self.thread@[j].info.tid == id {
                            lemma_unique_tid(self.thread@, i as int, j);
                        }
                        assert(w2.contains(s0[j].info.tid) == w1.contains(s0[j].info.tid));
                    }
                }
                assert(self.thread@ =~= woken(s0, w2));
            }
            k = k + 1;
        }
        proof {
            assert(ws@.subrange(0, ws@.len() as int) =~= ws@);
        }
    }

    /// Puts thread `waiter` to sleep until thread `target` ends: it joins
    /// the list of those waiting for `target`. When there is no thread
    /// `target`, the waiter is woken again at once.
    pub fn wait_task(&mut self, waiter: usize, target: usize)
        requires
            old(self).wf(),
            has_tid(old(self).thread@, waiter),
        ensures
            final(self).wf(),
            final(self).process@ == old(self).process@,
            final(self).time_list@ == old(self).time_list@,
            final(self).wait_time_list@ == old(self).wait_time_list@,
            final(self).thread@.len() == old(self).thread@.len(),
            forall|i: int|
                0 <= i < old(self).thread@.len() ==> #[trigger] final(self).thread@[i] == if old(self).thread@[i].info.tid == waiter {
                    Thread {
                        info: ExecutionInfo {
                            state: if has_tid(old(self).thread@, target) {
                                TaskState::Sleeping
                            } else {
                                TaskState::Waiting
                            },
                            ..old(self).thread@[i].info
                        },
                        stack: old(self).thread@[i].stack,
                    }
                } else {
                    old(self).thread@[i]
                },
            has_tid(old(self).thread@, target) ==> waiters_of(final(self).waiting_list@, target)
                == waiters_of(old(self).waiting_list@, target).push(waiter),
            !has_tid(old(self).thread@, target) ==> final(self).waiting_list@ == old(self).waiting_list@,
    {
        let ghost s0 = self.thread@;
        let wi = match self.thread_index(waiter) {
            Some(i) => i,
            None => {
                return;
            },
        };
        self.thread[wi].sleep();
        let wait_id = self.thread[wi].info.tid;
        proof {
            lemma_same_ids(s0, self.thread@, self.process@);
            assert(has_tid(self.thread@, target) == has_tid(s0, target)) by {
                if has_tid(s0, target) {
                    let j = choose|j: int| 0 <= j < s0.len() && #[trigger] s0[j].info.tid == target;
                    assert(self.thread@[j].info.tid == target);
                }
                if has_tid(self.thread@, target) {
                    let j = choose|j: int| 0 <= j < self.thread@.len() && #[trigger] self.thread@[j].info.tid == target;
                    assert(s0[j].info.tid == target);
                }
            }
        }
        match self.thread_index(target) {
            Some(_) => {
                self.add_waiter(target, wait_id);
            },
            None => {
                self.thread[wi].wake();
                proof {
                    lemma_same_ids(s0, self.thread@, self.process@);
                }
            },
        }
        proof {
            assert forall|j: int| 0 <= j < s0.len() && j != wi implies s0[j].info.tid != waiter by {
                if s0[j].info.tid == waiter {
                    lemma_unique_tid(s0, wi as int, j);
                }
            }
        }
    }

    fn add_waiter(&mut self, target: usize, waiter: usize)
        requires
            old(self).wf(),
        ensures
            final(self).wf(),
            final(self).thread@ == old(self).thread@,
            final(self).process@ == old(self).process@,
            final(self).time_list@ == old(self).time_list@,
            final(self).wait_time_list@ == old(self).wait_time_list@,
            waiters_of(final(self).waiting_list@, target) == waiters_of(old(self).waiting_list@, target).push(waiter),
    {
        let ghost wl0 = self.waiting_list@;
        let mut k: usize = 0;
        while k < self.waiting_list.len() && self.waiting_list[k].0 < target
            invariant
                k <= self.waiting_list@.len(),
                self.waiting_list@ == wl0,
                forall|j: int| 0 <= j < k ==> #[trigger] wl0[j].0 < target,
            decreases self.waiting_list@.len() - k,
        {
            k = k + 1;
        }
        proof {
            assert(keys_sorted(wl0));
        }
        if k < self.waiting_list.len() && self.waiting_list[k].0 == target {
            let (key, mut list) = self.waiting_list.remove(k);
            list.push(waiter);
            self.waiting_list.insert(k, (key, list));
            proof {
                let wl = self.waiting_list@;
                assert(wl =~= wl0.update(k as int, (key, list)));
                assert forall|x: int, y: int| 0 <= x < y < wl.len() implies #[trigger] wl[x].0 < #[trigger] wl[y].0 by {
                    assert(wl0[x].0 < wl0[y].0);
                }
                lemma_waiters_at(wl0, target, k as int);
                lemma_waiters_at(wl, target, k as int);
            }
        } else {
            let mut list: Vec<usize> = Vec::new();
            list.push(waiter);
            self.waiting_list.insert(k, (target, list));
            proof {
                let wl = self.waiting_list@;
                assert forall|x: int, y: int| 0 <= x < y < wl.len() implies #[trigger] wl[x].0 < #[trigger] wl[y].0 by {
                    if y < k {
                        assert(wl0[x].0 < wl0[y].0);
                    } else if x > k {
                        assert(wl0[x - 1].0 < wl0[y - 1].0);
                    } else if x == k {
                        assert(wl[y] == wl0[y - 1]);
                        if y - 1 > k {
                            assert(wl0[k as int].0 < wl0[y - 1].0);
                        }
                    } else if y == k {
                    } else {
                        assert(wl0[x].0 < wl0[y - 1].0);
                    }
                }
                assert forall|j: int| 0 <= j < wl0.len() implies #[trigger] wl0[j].0 != target by {
                    if j >= k && j > k {
                        assert(wl0[k as int].0 < wl0[j].0);
                    }
                }
                lemma_waiters_absent(wl0, target);
                lemma_waiters_at(wl, target, k as int);
                assert(list@ =~= Seq::<usize>::empty().push(waiter));
            }
        }
    }

    pub(crate) fn waiting_index(&self, id: usize) -> (r: Option<usize>)
        requires
            keys_sorted(self.waiting_list@),
        ensures
            match r {
                Some(k) => k < self.waiting_list@.len() && self.waiting_list@[k as int].0 == id,
                None => forall|j: int| 0 <= j < self.waiting_list@.len() ==> #[trigger] self.waiting_list@[j].0 != id,
            },
    {
        let mut k: usize = 0;
        while k < self.waiting_list.len()
            invariant
                k <= self.waiting_list@.len(),
                forall|j: int| 0 <= j < k ==> #[trigger] self.waiting_list@[j].0 != id,
            decreases self.waiting_list@.len() - k,
        {
            if self.waiting_list[k].0 == id {
                return Some(k);
            }
            k = k + 1;
        }
        None
    }

    /// Ends thread `id`: it leaves the pool and its program's threads, and
    /// every thread waiting for it is woken. The list of its waiters stays.
    pub fn remove_task(&mut self, id: usize) -> (r: Result<(), ()>)
        requires
            old(self).wf(),
            has_tid(old(self).thread@, id),
            forall|k: int|
                0 <= k < waiters_of(old(self).waiting_list@, id).len() ==> #[trigger] waiters_of(
                    old(self).waiting_list@,
                    id,
                )[k] != id && has_tid(old(self).thread@, waiters_of(old(self).waiting_list@, id)[k]),
        ensures
            final(self).wf(),
            r is Ok,
            final(self).waiting_list@ == old(self).waiting_list@,
            final(self).time_list@ == old(self).time_list@,
            final(self).wait_time_list@ == old(self).wait_time_list@,
            forall|i: int|
                0 <= i < old(self).thread@.len() && #[trigger] old(self).thread@[i].info.tid == id ==> {
                    let pid = old(self).thread@[i].info.pid;
                    &&& final(self).thread@ == woken(old(self).thread@.remove(i), waiters_of(old(self).waiting_list@, id))
                    &&& final(self).process@.len() == old(self).process@.len()
                    &&& forall|k: int|
                        0 <= k < old(self).process@.len() ==> {
                            let p0 = old(self).process@[k];
                            let p1 = #[trigger] final(self).process@[k];
                            &&& p1.info == p0.info
                            &&& p1.tid@ == if p0.info.pid == pid {
                                without_first(p0.tid@, id)
                            } else {
                                p0.tid@
                            }
                            &&& p1.join_num == p0.join_num
                        }
                },
    {
        let i = match self.thread_index(id) {
            Some(i) => i,
            None => {
                return Ok(());
            },
        };
        let ghost s0 = self.thread@;
        let pid = self.thread[i].info.pid;
        proof {
            assert(has_pid(self.process@, s0[i as int].info.pid));
            assert forall|i2: int| 0 <= i2 < s0.len() && #[trigger] s0[i2].info.tid == id implies i2 == i by {
                lemma_unique_tid(s0, i as int, i2);
            }
        }
        self.thread.remove(i);
        proof {
            let t = self.thread@;
            assert(t =~= s0.remove(i as int));
            assert forall|a: int, b: int| 0 <= a < b < t.len() implies #[trigger] t[a].info.tid < #[trigger] t[b].info.tid by {
                if b < i {
                    assert(s0[a].info.tid < s0[b].info.tid);
                } else if a >= i {
                    assert(s0[a + 1].info.tid < s0[b + 1].info.tid);
                } else {
                    assert(s0[a].info.tid < s0[b + 1].info.tid);
                }
            }
            assert forall|j: int| 0 <= j < t.len() implies has_pid(self.process@, #[trigger] t[j].info.pid) by {
                if j < i {
                    assert(t[j] == s0[j]);
                    assert(has_pid(self.process@, s0[j].info.pid));
                } else {
                    assert(t[j] == s0[j + 1]);
                    assert(has_pid(self.process@, s0[j + 1].info.pid));
                }
            }
        }
        let ghost ws = waiters_of(self.waiting_list@, id);
        match self.waiting_index(id) {
            Some(k) => {
                proof {
                    lemma_waiters_at(self.waiting_list@, id, k as int);
                    let t = self.thread@;
                    assert forall|q: int| 0 <= q < ws.len() implies has_tid(t, #[trigger] ws[q]) by {
                        let w = ws[q];
                        let j = choose|j: int| 0 <= j < s0.len() && #[trigger] s0[j].info.tid == w;
                        assert(j != i);
                        if j < i {
                            assert(t[j].info.tid == w);
                        } else {
                            assert(t[j - 1].info.tid == w);
                        }
                    }
                }
                let list = self.waiting_list[k].1.clone();
                proof {
                    assert(list@ =~= ws) by {
                        assert forall|q: int| 0 <= q < list@.len() implies list@[q] == ws[q] by {
                            assert(vstd::pervasive::cloned(ws[q], list@[q]));
                        }
                    }
                }
                self.wake_all(&list);
            },
            None => {
                proof {
                    lemma_waiters_absent(self.waiting_list@, id);
                    assert(woken(self.thread@, ws) =~= self.thread@);
                }
            },
        }
        let ghost p0 = self.process@;
        let k = match self.process_index(pid) {
            Some(k) => k,
            None => {
                return Ok(());
            },
        };
        remove_first(&mut self.process[k].tid, id);
        proof {
            assert forall|k2: int| 0 <= k2 < p0.len() && k2 != k implies p0[k2].info.pid != pid by {
                if k2 < k {
                    assert(p0[k2].info.pid < p0[k as int].info.pid);
                } else {
                    assert(p0[k as int].info.pid < p0[k2].info.pid);
                }
            }
            assert forall|a: int, b: int| 0 <= a < b < self.process@.len() implies #[trigger] self.process@[a].info.pid < #[trigger] self.process@[b].info.pid by {
                assert(p0[a].info.pid < p0[b].info.pid);
            }
            assert forall|j: int| 0 <= j < self.thread@.len() implies has_pid(self.process@, #[trigger] self.thread@[j].info.pid) by {
                let w = choose|w: int| 0 <= w < p0.len() && #[trigger] p0[w].info.pid == self.thread@[j].info.pid;
                assert(self.process@[w].info.pid == self.thread@[j].info.pid);
            }
        }
        Ok(())
    }

    /// Thread `id` joins its program's other threads: once as many joins
    /// as threads have come, every thread of the program wakes and the
    /// count starts again; until then the joining thread sleeps.
    pub fn join(&mut self, id: usize)
        requires
            old(self).wf(),
            has_tid(old(self).thread@, id),
            forall|i: int, k: int|
                0 <= i < old(self).thread@.len() && #[trigger] old(self).thread@[i].info.tid == id && 0 <= k
                    < old(self).process@.len() && #[trigger] old(self).process@[k].info.pid
                    == old(self).thread@[i].info.pid ==> old(self).process@[k].join_num < usize::MAX
                    && forall|q: int|
                    0 <= q < old(self).process@[k].tid@.len() ==> has_tid(
                        old(self).thread@,
                        #[trigger] old(self).process@[k].tid@[q],
                    ),
        ensures
            final(self).wf(),
            final(self).waiting_list@ == old(self).waiting_list@,
            final(self).time_list@ == old(self).time_list@,
            final(self).wait_time_list@ == old(self).wait_time_list@,
            final(self).process@.len() == old(self).process@.len(),
            forall|i: int, k: int|
                0 <= i < old(self).thread@.len() && #[trigger] old(self).thread@[i].info.tid == id && 0 <= k
                    < old(self).process@.len() && #[trigger] old(self).process@[k].info.pid
                    == old(self).thread@[i].info.pid ==> {
                    let p0 = old(self).process@[k];
                    let p1 = final(self).process@[k];
                    &&& p1.tid@ == p0.tid@
                    &&& p1.info == p0.info
                    &&& if p0.join_num + 1 >= p0.tid@.len() {
                        &&& p1.join_num == 0
                        &&& final(self).thread@ == woken(old(self).thread@, p0.tid@)
                    } else {
                        &&& p1.join_num == p0.join_num + 1
                        &&& final(self).thread@ == old(self).thread@.update(
                            i,
                            Thread {
                                info: ExecutionInfo {
                                    state: TaskState::Sleeping,
                                    ..old(self).thread@[i].info
                                },
                                stack: old(self).thread@[i].stack,
                            },
                        )
                    }
                },
    {
        let ti = match self.thread_index(id) {
            Some(i) => i,
            None => {
                return;
            },
        };
        let ghost s0 = self.thread@;
        let ghost pr0 = self.process@;
        let pid = self.thread[ti].info.pid;
        proof {
            assert(has_pid(self.process@, s0[ti as int].info.pid));
        }
        let pk = match self.process_index(pid) {
            Some(k) => k,
            None => {
                return;
            },
        };
        proof {
            assert forall|i2: int| 0 <= i2 < s0.len() && #[trigger] s0[i2].info.tid == id implies i2 == ti by {
                lemma_unique_tid(s0, ti as int, i2);
            }
            assert forall|k2: int| 0 <= k2 < pr0.len() && #[trigger] pr0[k2].info.pid == pid implies k2 == pk by {
                if k2 < pk {
                    assert(pr0[k2].info.pid < pr0[pk as int].info.pid);
                } else if k2 > pk {
                    assert(pr0[pk as int].info.pid < pr0[k2].info.pid);
                }
            }
        }
        let jn = self.process[pk].join_num + 1;
        self.process[pk].join_num = jn;
        proof {
            assert forall|a: int, b: int| 0 <= a < b < self.process@.len() implies #[trigger] self.process@[a].info.pid < #[trigger] self.process@[b].info.pid by {
                assert(pr0[a].info.pid < pr0[b].info.pid);
            }
            assert forall|j: int| 0 <= j < self.thread@.len() implies has_pid(self.process@, #[trigger] self.thread@[j].info.pid) by {
                let w = choose|w: int| 0 <= w < pr0.len() && #[trigger] pr0[w].info.pid == self.thread@[j].info.pid;
                assert(self.process@[w].info.pid == self.thread@[j].info.pid);
            }
        }
        if jn >= self.process[pk].tid.len() {
            let list = self.process[pk].tid.clone();
            proof {
                assert(list@ =~= pr0[pk as int].tid@) by {
                    assert forall|q: int| 0 <= q < list@.len() implies list@[q] == pr0[pk as int].tid@[q] by {
                        assert(vstd::pervasive::cloned(pr0[pk as int].tid@[q], list@[q]));
                    }
                }
            }
            self.wake_all(&list);
            self.process[pk].join_num = 0;
            proof {
                assert forall|a: int, b: int| 0 <= a < b < self.process@.len() implies #[trigger] self.process@[a].info.pid < #[trigger] self.process@[b].info.pid by {
                    assert(pr0[a].info.pid < pr0[b].info.pid);
                }
                assert forall|j: int| 0 <= j < self.thread@.len() implies has_pid(self.process@, #[trigger] self.thread@[j].info.pid) by {
                    let w = choose|w: int| 0 <= w < pr0.len() && #[trigger] pr0[w].info.pid == self.thread@[j].info.pid;
                    assert(self.process@[w].info.pid == self.thread@[j].info.pid);
                }
            }
        } else {
            self.thread[ti].sleep();
            proof {
                lemma_same_ids(s0, self.thread@, self.process@);
                assert(self.thread@ =~= s0.update(
                    ti as int,
                    Thread {
                        info: ExecutionInfo { state: TaskState::Sleeping, ..s0[ti as int].info },
                        stack: s0[ti as int].stack,
                    },
                ));
            }
        }
    }

    /// Puts thread `id` to sleep until `time`: its timer is recorded in
    /// order of time.
    pub fn set_timer(&mut self, id: usize, time: usize)
        requires
            old(self).wf(),
            has_tid(old(self).thread@, id),
            !old(self).time_list@.contains(time),
        ensures
            final(self).wf(),
            final(self).process@ == old(self).process@,
            final(self).waiting_list@ == old(self).waiting_list@,
            final(self).thread@.len() == old(self).thread@.len(),
            forall|i: int|
                0 <= i < old(self).thread@.len() ==> #[trigger] final(self).thread@[i] == if old(self).thread@[i].info.tid == id {
                    Thread {
                        info: ExecutionInfo {
                            trigger_time: time,
                            state: TaskState::Sleeping,
                            ..old(self).thread@[i].info
                        },
                        stack: old(self).thread@[i].stack,
                    }
                } else {
                    old(self).thread@[i]
                },
            exists|pos: int|
                0 <= pos <= old(self).time_list@.len() && final(self).time_list@ == old(self).time_list@.insert(pos, time) && #[trigger] final(self).wait_time_list@
                    == old(self).wait_time_list@.insert(pos, (time, id)),
    {
        let i = match self.thread_index(id) {
            Some(i) => i,
            None => {
                return;
            },
        };
        let ghost s0 = self.thread@;
        self.thread[i].info.trigger_time = time;
        self.thread[i].info.state = TaskState::Sleeping;
        let tid = self.thread[i].info.tid;
        proof {
            lemma_same_ids(s0, self.thread@, self.process@);
            assert forall|j: int| 0 <= j < s0.len() && j != i implies s0[j].info.tid != id by {
                if s0[j].info.tid == id {
                    lemma_unique_tid(s0, i as int, j);
                }
            }
        }
        let ghost t0 = self.time_list@;
        let ghost w0 = self.wait_time_list@;
        let mut pos: usize = 0;
        while pos < self.time_list.len() && self.time_list[pos] < time
            invariant
                pos <= self.time_list@.len(),
                self.time_list@ == t0,
                forall|j: int| 0 <= j < pos ==> #[trigger] t0[j] < time,
            decreases self.time_list@.len() - pos,
        {
            pos = pos + 1;
        }
        proof {
            assert forall|j: int| pos <= j < t0.len() implies #[trigger] t0[j] > time by {
                if t0[j] == time {
                    assert(t0.contains(time));
                }
                if j > pos {
                    assert(t0[pos as int] < t0[j]);
                    if t0[pos as int] == time {
                        assert(t0.contains(time));
                    }
                }
            }
        }
        self.time_list.insert(pos, time);
        self.wait_time_list.insert(pos, (time, tid));
        proof {
            let t = self.time_list@;
            let w = self.wait_time_list@;
            assert forall|a: int, b: int| 0 <= a < b < t.len() implies #[trigger] t[a] < #[trigger] t[b] by {
                if b < pos {
                    assert(t0[a] < t0[b]);
                } else if a > pos {
                    assert(t0[a - 1] < t0[b - 1]);
                } else if a < pos && b > pos {
                    assert(t0[a] < time);
                }
            }
            assert forall|q: int| 0 <= q < t.len() implies #[trigger] w[q].0 == t[q] by {
                if q < pos {
                    assert(w0[q].0 == t0[q]);
                } else if q > pos {
                    assert(w0[q - 1].0 == t0[q - 1]);
                }
            }
            assert forall|a: int, b: int| 0 <= a < b < w.len() implies #[trigger] w[a].0 < #[trigger] w[b].0 by {
                assert(w[a].0 == t[a]);
                assert(w[b].0 == t[b]);
                assert(t[a] < t[b]);
            }
            assert(w == w0.insert(pos as int, (time, id)));
        }
    }

    /// Sets off the timers due by `time`: the thread of each, when it is
    /// still there, waits again with no timer. Then as many timers as
    /// threads were woken are dropped, the earliest first.
    pub fn check_timer(&mut self, time: usize)
        requires
            old(self).wf(),
        ensures
            final(self).wf(),
            final(self).process@ == old(self).process@,
            final(self).waiting_list@ == old(self).waiting_list@,
            final(self).thread@ == timer_woken(
                old(self).time_list@,
                old(self).wait_time_list@,
                old(self).thread@,
                time,
                old(self).time_list@.len() as int,
            ),
            final(self).time_list@ == old(self).time_list@.skip(
                timer_hits(
                    old(self).time_list@,
                    old(self).wait_time_list@,
                    old(self).thread@,
                    time,
                    old(self).time_list@.len() as int,
                ),
            ),
            final(self).wait_time_list@ == old(self).wait_time_list@.skip(
                timer_hits(
                    old(self).time_list@,
                    old(self).wait_time_list@,
                    old(self).thread@,
                    time,
                    old(self).time_list@.len() as int,
                ),
            ),
    {
        let ghost s0 = self.thread@;
        let ghost t0 = self.time_list@;
        let ghost w0 = self.wait_time_list@;
        let mut cnt: usize = 0;
        let mut i: usize = 0;
        while i < self.time_list.len()
            invariant
                self.wf(),
                same_ids(s0, self.thread@),
                self.process@ == old(self).process@,
                self.waiting_list@ == old(self).waiting_list@,
                self.time_list@ == t0,
                self.wait_time_list@ == w0,
                t0.len() == w0.len(),
                i <= t0.len(),
                cnt == timer_hits(t0, w0, s0, time, i as int),
                cnt <= i,
                self.thread@ == timer_woken(t0, w0, s0, time, i as int),
            decreases t0.len() - i,
        {
            let tm = self.time_list[i];
            proof {
                lemma_hits_bound(t0, w0, s0, time, i as int);
            }
            if tm <= time {
                let id = self.wait_time_list[i].1;
                match self.thread_index(id) {
                    Some(j) => {
                        let ghost before = self.thread@;
                        self.thread[j].info.trigger_time = 0;
                        self.thread[j].info.state = TaskState::Waiting;
                        cnt = cnt + 1;
                        proof {
                            lemma_same_ids(before, self.thread@, self.process@);
                            assert(has_tid(s0, w0[i as int].1)) by {
                                assert(s0[j as int].info.tid == id);
                            }
                            assert forall|q: int| 0 <= q < s0.len() implies #[trigger] self.thread@[q]
                                == timer_woken(t0, w0, s0, time, i + 1)[q] by {
                                if q == j {
                                    assert(t0[i as int] <= time && w0[i as int].1 == s0[q].info.tid);
                                } else {
                                    if s0[q].info.tid == id {
                                        lemma_unique_tid(self.thread@, j as int, q);
                                    }
                                    if exists|k: int| 0 <= k < i + 1 && t0[k] <= time && #[trigger] w0[k].1 == s0[q].info.tid {
                                        let k = choose|k: int| 0 <= k < i + 1 && t0[k] <= time && #[trigger] w0[k].1 == s0[q].info.tid;
                                        assert(k != i);
                                    }
                                }
                            }
                            assert(self.thread@ =~= timer_woken(t0, w0, s0, time, i + 1));
                        }
                    },
                    None => {
                        proof {
                            assert(!has_tid(s0, id)) by {
                                if has_tid(s0, id) {
                                    let j = choose|j: int| 0 <= j < s0.len() && #[trigger] s0[j].info.tid == id;
                                    assert(self.thread@[j].info.tid == id);
                                }
                            }
                            assert forall|q: int| 0 <= q < s0.len() implies #[trigger] self.thread@[q]
                                == timer_woken(t0, w0, s0, time, i + 1)[q] by {
                                if exists|k: int| 0 <= k < i + 1 && t0[k] <= time && #[trigger] w0[k].1 == s0[q].info.tid {
                                    let k = choose|k: int| 0 <= k < i + 1 && t0[k] <= time && #[trigger] w0[k].1 == s0[q].info.tid;
                                    if k == i {
                                        assert(has_tid(s0, id));
                                    }
                                }
                            }
                            assert(self.thread@ =~= timer_woken(t0, w0, s0, time, i + 1));
                        }
                    },
                }
            } else {
                proof {
                    assert forall|q: int| 0 <= q < s0.len() implies #[trigger] self.thread@[q]
                        == timer_woken(t0, w0, s0, time, i + 1)[q] by {
                        if exists|k: int| 0 <= k < i + 1 && t0[k] <= time && #[trigger] w0[k].1 == s0[q].info.tid {
                            let k = choose|k: int| 0 <= k < i + 1 && t0[k] <= time && #[trigger] w0[k].1 == s0[q].info.tid;
                            assert(k != i);
                        }
                    }
                    assert(self.thread@ =~= timer_woken(t0, w0, s0, time, i + 1));
                }
            }
            i = i + 1;
        }
        let ghost th = self.thread@;
        let mut c: usize = 0;
        while c < cnt
            invariant
                self.thread@ == th,
                same_ids(s0, th),
                tids_sorted(s0),
                pids_sorted(self.process@),
                keys_sorted(self.waiting_list@),
                forall|q: int| 0 <= q < s0.len() ==> has_pid(self.process@, #[trigger] s0[q].info.pid),
                times_sorted(t0),
                keys_sorted(w0),
                forall|q: int| 0 <= q < t0.len() ==> #[trigger] w0[q].0 == t0[q],
                self.process@ == old(self).process@,
                self.waiting_list@ == old(self).waiting_list@,
                c <= cnt,
                cnt <= t0.len(),
                t0.len() == w0.len(),
                self.time_list@ == t0.skip(c as int),
                self.wait_time_list@ == w0.skip(c as int),
            decreases cnt - c,
        {
            self.time_list.remove(0);
            self.wait_time_list.remove(0);
            proof {
                assert(self.time_list@ =~= t0.skip(c + 1));
                assert(self.wait_time_list@ =~= w0.skip(c + 1));
            }
            c = c + 1;
        }
        proof {
            lemma_same_ids(s0, self.thread@, self.process@);
            let t = self.time_list@;
            let w = self.wait_time_list@;
            assert forall|a: int, b: int| 0 <= a < b < t.len() implies #[trigger] t[a] < #[trigger] t[b] by {
                assert(t0[a + cnt] < t0[b + cnt]);
            }
            assert forall|q: int| 0 <= q < t.len() implies #[trigger] w[q].0 == t[q] by {
                assert(w0[q + cnt].0 == t0[q + cnt]);
            }
            assert forall|a: int, b: int| 0 <= a < b < w.len() implies #[trigger] w[a].0 < #[trigger] w[b].0 by {
                assert(w0[a + cnt].0 < w0[b + cnt].0);
            }
        }
    }

    /// Replaces what is known of thread `id` by `info`, which keeps its
    /// number and program; `Err` when there is no such thread.
    fn update_thread(&mut self, id: usize, info: ExecutionInfo) -> (r: Result<(), ()>)
        requires
            old(self).wf(),
            info.tid == id,
            forall|i: int|
                0 <= i < old(self).thread@.len() && #[trigger] old(self).thread@[i].info.tid == id
                    ==> info.pid == old(self).thread@[i].info.pid,
        ensures
            final(self).wf(),
            final(self).process@ == old(self).process@,
            final(self).waiting_list@ == old(self).waiting_list@,
            final(self).time_list@ == old(self).time_list@,
            final(self).wait_time_list@ == old(self).wait_time_list@,
            r is Ok <==> has_tid(old(self).thread@, id),
            final(self).thread@.len() == old(self).thread@.len(),
            forall|i: int|
                0 <= i < old(self).thread@.len() ==> #[trigger] final(self).thread@[i] == if old(self).thread@[i].info.tid == id {
                    Thread { info, stack: old(self).thread@[i].stack }
                } else {
                    old(self).thread@[i]
                },
    {
        match self.thread_index(id) {
            Some(i) => {
                let ghost s0 = self.thread@;
                self.thread[i].info = info;
                proof {
                    lemma_same_ids(s0, self.thread@, self.process@);
                    assert forall|j: int| 0 <= j < s0.len() && j != i implies s0[j].info.tid != id by {
                        if s0[j].info.tid == id {
                            lemma_unique_tid(s0, i as int, j);
                        }
                    }
                }
                Ok(())
            },
            None => Err(()),
        }
    }

    /// Stops thread `id`, which ran: it waits again with the registers
    /// `env`.
    pub fn save_running(&mut self, id: usize, env: &Environment) -> (r: Result<(), ()>)
        requires
            old(self).wf(),
        ensures
            final(self).wf(),
            final(self).process@ == old(self).process@,
            final(self).waiting_list@ == old(self).waiting_list@,
            final(self).time_list@ == old(self).time_list@,
            final(self).wait_time_list@ == old(self).wait_time_list@,
            r is Ok <==> has_tid(old(self).thread@, id),
            final(self).thread@.len() == old(self).thread@.len(),
            forall|i: int|
                0 <= i < old(self).thread@.len() ==> #[trigger] final(self).thread@[i] == if old(self).thread@[i].info.tid == id {
                    Thread {
                        info: ExecutionInfo {
                            state: TaskState::Waiting,
                            env: *env,
                            ..old(self).thread@[i].info
                        },
                        stack: old(self).thread@[i].stack,
                    }
                } else {
                    old(self).thread@[i]
                },
    {
        match self.get_task_exec(id) {
            Some(info) => {
                let new_info = ExecutionInfo { state: TaskState::Waiting, env: *env, ..info };
                self.update_thread(id, new_info)
            },
            None => Err(()),
        }
    }

    /// Records the registers `env` of thread `id`; `Err` when there is no
    /// such thread.
    pub fn set_env(&mut self, id: usize, env: &Environment) -> (r: Result<(), ()>)
        requires
            old(self).wf(),
        ensures
            final(self).wf(),
            final(self).process@ == old(self).process@,
            final(self).waiting_list@ == old(self).waiting_list@,
            final(self).time_list@ == old(self).time_list@,
            final(self).wait_time_list@ == old(self).wait_time_list@,
            r is Ok <==> has_tid(old(self).thread@, id),
            final(self).thread@.len() == old(self).thread@.len(),
            forall|i: int|
                0 <= i < old(self).thread@.len() ==> #[trigger] final(self).thread@[i] == if old(self).thread@[i].info.tid == id {
                    Thread { info: ExecutionInfo { env: *env, ..old(self).thread@[i].info }, stack: old(self).thread@[i].stack }
                } else {
                    old(self).thread@[i]
                },
    {
        match self.get_task_exec(id) {
            Some(info) => {
                let new_info = ExecutionInfo { env: *env, ..info };
                self.update_thread(id, new_info)
            },
            None => Err(()),
        }
    }

    /// Starts thread `id` on hart `hartid`.
    pub fn start_running(&mut self, id: usize, hartid: usize) -> (r: Result<(), ()>)
        requires
            old(self).wf(),
        ensures
            final(self).wf(),
            final(self).process@ == old(self).process@,
            final(self).waiting_list@ == old(self).waiting_list@,
            final(self).time_list@ == old(self).time_list@,
            final(self).wait_time_list@ == old(self).wait_time_list@,
            r is Ok <==> has_tid(old(self).thread@, id),
            final(self).thread@.len() == old(self).thread@.len(),
            forall|i: int|
                0 <= i < old(self).thread@.len() ==> #[trigger] final(self).thread@[i] == if old(self).thread@[i].info.tid == id {
                    Thread {
                        info: ExecutionInfo {
                            state: TaskState::Running,
                            env: Environment { hartid, ..old(self).thread@[i].info.env },
                            ..old(self).thread@[i].info
                        },
                        stack: old(self).thread@[i].stack,
                    }
                } else {
                    old(self).thread@[i]
                },
    {
        match self.get_task_exec(id) {
            Some(info) => {
                let new_info = ExecutionInfo {
                    state: TaskState::Running,
                    env: Environment { hartid, ..info.env },
                    ..info
                };
                self.update_thread(id, new_info)
            },
            None => Err(()),
        }
    }

    /// Records that the program of thread `task_id`, which is there, took
    /// file `file_id`.
    pub fn push_file(&mut self, task_id: usize, file_id: usize)
        requires
            old(self).wf(),
            has_tid(old(self).thread@, task_id),
        ensures
            final(self).wf(),
            final(self).thread@ == old(self).thread@,
            final(self).process@.len() == old(self).process@.len(),
            forall|i: int, k: int|
                0 <= i < old(self).thread@.len() && #[trigger] old(self).thread@[i].info.tid == task_id
                    && 0 <= k < old(self).process@.len() ==> {
                    let p0 = old(self).process@[k];
                    let p1 = #[trigger] final(self).process@[k];
                    &&& p1.info == p0.info
                    &&& p1.resource.files@ == if p0.info.pid == old(self).thread@[i].info.pid {
                        p0.resource.files@.push(file_id)
                    } else {
                        p0.resource.files@
                    }
                },
    {
        let i = match self.thread_index(task_id) {
            Some(i) => i,
            None => {
                return;
            },
        };
        let pid = self.thread[i].info.pid;
        proof {
            assert(has_pid(self.process@, pid));
            assert forall|i2: int| 0 <= i2 < self.thread@.len() && #[trigger] self.thread@[i2].info.tid == task_id implies i2 == i by {
                lemma_unique_tid(self.thread@, i as int, i2);
            }
        }
        let ghost p0 = self.process@;
        let k = match self.process_index(pid) {
            Some(k) => k,
            None => {
                return;
            },
        };
        self.process[k].push_file(file_id);
        proof {
            assert forall|k2: int| 0 <= k2 < p0.len() && k2 != k implies p0[k2].info.pid != pid by {
                if k2 < k {
                    assert(p0[k2].info.pid < p0[k as int].info.pid);
                } else {
                    assert(p0[k as int].info.pid < p0[k2].info.pid);
                }
            }
            assert forall|a: int, b: int| 0 <= a < b < self.process@.len() implies #[trigger] self.process@[a].info.pid < #[trigger] self.process@[b].info.pid by {
                assert(p0[a].info.pid < p0[b].info.pid);
            }
            assert forall|j: int| 0 <= j < self.thread@.len() implies has_pid(self.process@, #[trigger] self.thread@[j].info.pid) by {
                let w = choose|w: int| 0 <= w < p0.len() && #[trigger] p0[w].info.pid == self.thread@[j].info.pid;
                assert(self.process@[w].info.pid == self.thread@[j].info.pid);
            }
        }
    }

    /// Records that the program of thread `task_id`, which is there, gave
    /// file `file_id` back.
    pub fn release_file(&mut self, task_id: usize, file_id: usize)
        requires
            old(self).wf(),
            has_tid(old(self).thread@, task_id),
        ensures
            final(self).wf(),
            final(self).thread@ == old(self).thread@,
            final(self).process@.len() == old(self).process@.len(),
            forall|i: int, k: int|
                0 <= i < old(self).thread@.len() && #[trigger] old(self).thread@[i].info.tid == task_id
                    && 0 <= k < old(self).process@.len() ==> {
                    let p0 = old(self).process@[k];
                    let p1 = #[trigger] final(self).process@[k];
                    &&& p1.info == p0.info
                    &&& p1.resource.files@ == if p0.info.pid == old(self).thread@[i].info.pid {
                        without_first(p0.resource.files@, file_id)
                    } else {
                        p0.resource.files@
                    }
                },
    {
        let i = match self.thread_index(task_id) {
            Some(i) => i,
            None => {
                return;
            },
        };
        let pid = self.thread[i].info.pid;
        proof {
            assert(has_pid(self.process@, pid));
            assert forall|i2: int| 0 <= i2 < self.thread@.len() && #[trigger] self.thread@[i2].info.tid == task_id implies i2 == i by {
                lemma_unique_tid(self.thread@, i as int, i2);
            }
        }
        let ghost p0 = self.process@;
        let k = match self.process_index(pid) {
            Some(k) => k,
            None => {
                return;
            },
        };
        self.process[k].release_file(file_id);
        proof {
            assert forall|k2: int| 0 <= k2 < p0.len() && k2 != k implies p0[k2].info.pid != pid by {
                if k2 < k {
                    assert(p0[k2].info.pid < p0[k as int].info.pid);
                } else {
                    assert(p0[k as int].info.pid < p0[k2].info.pid);
                }
            }
            assert forall|a: int, b: int| 0 <= a < b < self.process@.len() implies #[trigger] self.process@[a].info.pid < #[trigger] self.process@[b].info.pid by {
                assert(p0[a].info.pid < p0[b].info.pid);
            }
            assert forall|j: int| 0 <= j < self.thread@.len() implies has_pid(self.process@, #[trigger] self.thread@[j].info.pid) by {
                let w = choose|w: int| 0 <= w < p0.len() && #[trigger] p0[w].info.pid == self.thread@[j].info.pid;
                assert(self.process@[w].info.pid == self.thread@[j].info.pid);
            }
        }
    }
}

} // verus!
