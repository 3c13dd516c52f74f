//! What a task pool offers the task manager: threads by number, their
//! programs, waiting, timers, files and priorities.

use vstd::prelude::*;
use super::task_info::{ExecutionInfo, ProgramInfo, TaskState};
use super::task_pool::{TaskPool, has_tid, waiters_of, woken, timer_hits, timer_woken};
use super::resource::without_first;
use super::thread::Thread;

verus! {

/// The basic operations of a task pool.
pub trait TaskPoolBasicOp {
    /// The pool holds together.
    spec fn pool_ready(&self) -> bool;

    /// Thread `id` is in the pool.
    spec fn has_task(&self, id: usize) -> bool;

    /// Thread `id` can be ended: it is there and those waiting for it are
    /// other threads that are there.
    spec fn can_remove(&self, id: usize) -> bool;

    /// What is known of thread `id`.
    fn get_task_exec(&self, id: usize) -> (r: Option<ExecutionInfo>)
        requires
            self.pool_ready(),
        ensures
            !self.has_task(id) ==> r is None,
    ;

    /// What is known of the program of thread `id`.
    fn get_task_prog(&self, id: usize) -> (r: Option<ProgramInfo>)
        requires
            self.pool_ready(),
        ensures
            !self.has_task(id) ==> r is None,
    ;

    /// Sets the state of thread `id`; `Err` when there is no such thread.
    fn set_task_state(&mut self, id: usize, state: TaskState) -> (r: Result<(), ()>)
        requires
            old(self).pool_ready(),
        ensures
            final(self).pool_ready(),
            r is Ok <==> old(self).has_task(id),
    ;

    /// Ends thread `id`.
    fn remove_task(&mut self, id: usize) -> (r: Result<(), ()>)
        requires
            old(self).pool_ready(),
            old(self).can_remove(id),
        ensures
            final(self).pool_ready(),
            r is Ok,
    ;
}

/// Waiting, joining and timers.
pub trait TaskComplexOp {
    /// The pool holds together.
    spec fn complex_ready(&self) -> bool;

    /// Thread `id` is in the pool.
    spec fn has_thread(&self, id: usize) -> bool;

    /// Thread `id` can join its program's threads.
    spec fn can_join(&self, id: usize) -> bool;

    /// No timer is set for `time` yet.
    spec fn time_free(&self, time: usize) -> bool;

    /// Thread `waiter` waits for thread `target` to end.
    fn wait_task(&mut self, waiter: usize, target: usize)
        requires
            old(self).complex_ready(),
            old(self).has_thread(waiter),
        ensures
            final(self).complex_ready(),
    ;

    /// Sets off the timers due by `time`.
    fn check_timer(&mut self, time: usize)
        requires
            old(self).complex_ready(),
        ensures
            final(self).complex_ready(),
    ;

    /// Thread `id` sleeps until `time`.
    fn set_timer(&mut self, id: usize, time: usize)
        requires
            old(self).complex_ready(),
            old(self).has_thread(id),
            old(self).time_free(time),
        ensures
            final(self).complex_ready(),
    ;

    /// Thread `id` joins its program's threads.
    fn join(&mut self, id: usize)
        requires
            old(self).complex_ready(),
            old(self).can_join(id),
        ensures
            final(self).complex_ready(),
    ;
}

/// The files of programs.
pub trait TaskResourceOp {
    /// The pool holds together and thread `id` is in it.
    spec fn resource_ready(&self, id: usize) -> bool;

    /// The program of thread `task_id` took file `file_id`.
    fn push_file(&mut self, task_id: usize, file_id: usize)
        requires
            old(self).resource_ready(task_id),
    ;

    /// The program of thread `task_id` gave file `file_id` back.
    fn release_file(&mut self, task_id: usize, file_id: usize)
        requires
            old(self).resource_ready(task_id),
    ;
}

/// Priorities.
pub trait TaskScheduleOp {
    /// The pool holds together and thread `id` is in it.
    spec fn priority_ready(&self, id: usize) -> bool;

    /// Sets the priority of thread `id`.
    fn set_priority(&mut self, id: usize, priority: usize)
        requires
            old(self).priority_ready(id),
    ;
}

/// A task pool that offers all of these.
pub trait TaskPoolOp: TaskPoolBasicOp + TaskComplexOp + TaskResourceOp + TaskScheduleOp {

}

impl TaskPoolBasicOp for TaskPool {
    open spec fn pool_ready(&self) -> bool {
        self.wf()
    }

    open spec fn has_task(&self, id: usize) -> bool {
        has_tid(self.thread@, id)
    }

    open spec fn can_remove(&self, id: usize) -> bool {
        &&& has_tid(self.thread@, id)
        &&& forall|k: int|
            0 <= k < waiters_of(self.waiting_list@, id).len() ==> #[trigger] waiters_of(
                self.waiting_list@,
                id,
            )[k] != id && has_tid(self.thread@, waiters_of(self.waiting_list@, id)[k])
    }

    fn get_task_exec(&self, id: usize) -> (r: Option<ExecutionInfo>)
        ensures
            !has_tid(self.thread@, id) ==> r is None,
            forall|i: int|
                0 <= i < self.thread@.len() && #[trigger] self.thread@[i].info.tid == id ==> r == Some(
                    self.thread@[i].info,
                ),
    {
        TaskPool::get_task_exec(self, id)
    }

    fn get_task_prog(&self, id: usize) -> (r: Option<ProgramInfo>)
        ensures
            !has_tid(self.thread@, id) ==> r is None,
            forall|i: int, k: int|
                0 <= i < self.thread@.len() && #[trigger] self.thread@[i].info.tid == id && 0 <= k
                    < self.process@.len() && #[trigger] self.process@[k].info.pid
                    == self.thread@[i].info.pid ==> r == Some(self.process@[k].info),
    {
        TaskPool::get_task_prog(self, id)
    }

    fn set_task_state(&mut self, id: usize, state: TaskState) -> (r: Result<(), ()>) {
        self.set_state(id, state)
    }

    fn remove_task(&mut self, id: usize) -> (r: Result<(), ()>)
        ensures
            final(self).wf(),
            r is Ok,
            final(self).waiting_list@ == old(self).waiting_list@,
            final(self).time_list@ == old(self).time_list@,
            final(self).wait_time_list@ == old(self).wait_time_list@,
            forall|i: int|
                0 <= i < old(self).thread@.len() && #[trigger] old(self).thread@[i].info.tid == id ==> {
                    let pid = old(self).thread@[i].info.pid;
                    &&& final(self).thread@ == woken(old(self).thread@.remove(i), waiters_of(old(self).waiting_list@, id))
                    &&& final(self).process@.len() == old(self).process@.len()
                    &&& forall|k: int|
                        0 <= k < old(self).process@.len() ==> {
                            let p0 = old(self).process@[k];
                            let p1 = #[trigger] final(self).process@[k];
                            &&& p1.info == p0.info
                            &&& p1.tid@ == if p0.info.pid == pid {
                                without_first(p0.tid@, id)
                            } else {
                                p0.tid@
                            }
                            &&& p1.join_num == p0.join_num
                        }
                },
    {
        TaskPool::remove_task(self, id)
    }
}

impl TaskComplexOp for TaskPool {
    open spec fn complex_ready(&self) -> bool {
        self.wf()
    }

    open spec fn has_thread(&self, id: usize) -> bool {
        has_tid(self.thread@, id)
    }

    open spec fn can_join(&self, id: usize) -> bool {
        &&& has_tid(self.thread@, id)
        &&& forall|i: int, k: int|
            0 <= i < self.thread@.len() && #[trigger] self.thread@[i].info.tid == id && 0 <= k
                < self.process@.len() && #[trigger] self.process@[k].info.pid
                == self.thread@[i].info.pid ==> self.process@[k].join_num < usize::MAX && forall|q: int|
                0 <= q < self.process@[k].tid@.len() ==> has_tid(
                    self.thread@,
                    #[trigger] self.process@[k].tid@[q],
                )
    }

    open spec fn time_free(&self, time: usize) -> bool {
        !self.time_list@.contains(time)
    }

    fn wait_task(&mut self, waiter: usize, target: usize)
        ensures
            final(self).wf(),
            final(self).process@ == old(self).process@,
            final(self).time_list@ == old(self).time_list@,
            final(self).wait_time_list@ == old(self).wait_time_list@,
            final(self).thread@.len() == old(self).thread@.len(),
            forall|i: int|
                0 <= i < old(self).thread@.len() ==> #[trigger] final(self).thread@[i] == if old(self).thread@[i].info.tid == waiter {
                    Thread {
                        info: ExecutionInfo {
                            state: if has_tid(old(self).thread@, target) {
                                TaskState::Sleeping
                            } else {
                                TaskState::Waiting
                            },
                            ..old(self).thread@[i].info
                        },
                        stack: old(self).thread@[i].stack,
                    }
                } else {
                    old(self).thread@[i]
                },
            has_tid(old(self).thread@, target) ==> waiters_of(final(self).waiting_list@, target)
                == waiters_of(old(self).waiting_list@, target).push(waiter),
            !has_tid(old(self).thread@, target) ==> final(self).waiting_list@ == old(self).waiting_list@,
    {
        TaskPool::wait_task(self, waiter, target)
    }

    fn check_timer(&mut self, time: usize)
        ensures
            final(self).wf(),
            final(self).process@ == old(self).process@,
            final(self).waiting_list@ == old(self).waiting_list@,
            final(self).thread@ == timer_woken(
                old(self).time_list@,
                old(self).wait_time_list@,
                old(self).thread@,
                time,
                old(self).time_list@.len() as int,
            ),
            final(self).time_list@ == old(self).time_list@.skip(
                timer_hits(
                    old(self).time_list@,
                    old(self).wait_time_list@,
                    old(self).thread@,
                    time,
                    old(self).time_list@.len() as int,
                ),
            ),
            final(self).wait_time_list@ == old(self).wait_time_list@.skip(
                timer_hits(
                    old(self).time_list@,
                    old(self).wait_time_list@,
                    old(self).thread@,
                    time,
                    old(self).time_list@.len() as int,
                ),
            ),
    {
        TaskPool::check_timer(self, time)
    }

    fn set_timer(&mut self, id: usize, time: usize)
        ensures
            final(self).wf(),
            final(self).process@ == old(self).process@,
            final(self).waiting_list@ == old(self).waiting_list@,
            final(self).thread@.len() == old(self).thread@.len(),
            forall|i: int|
                0 <= i < old(self).thread@.len() ==> #[trigger] final(self).thread@[i] == if old(self).thread@[i].info.tid == id {
                    Thread {
                        info: ExecutionInfo {
                            trigger_time: time,
                            state: TaskState::Sleeping,
                            ..old(self).thread@[i].info
                        },
                        stack: old(self).thread@[i].stack,
                    }
                } else {
                    old(self).thread@[i]
                },
            exists|pos: int|
                0 <= pos <= old(self).time_list@.len() && final(self).time_list@ == old(self).time_list@.insert(pos, time) && #[trigger] final(self).wait_time_list@
                    == old(self).wait_time_list@.insert(pos, (time, id)),
    {
        TaskPool::set_timer(self, id, time)
    }

    fn join(&mut self, id: usize)
        ensures
            final(self).wf(),
            final(self).waiting_list@ == old(self).waiting_list@,
            final(self).time_list@ == old(self).time_list@,
            final(self).wait_time_list@ == old(self).wait_time_list@,
            final(self).process@.len() == old(self).process@.len(),
            forall|i: int, k: int|
                0 <= i < old(self).thread@.len() && #[trigger] old(self).thread@[i].info.tid == id && 0 <= k
                    < old(self).process@.len() && #[trigger] old(self).process@[k].info.pid
                    == old(self).thread@[i].info.pid ==> {
                    let p0 = old(self).process@[k];
                    let p1 = final(self).process@[k];
                    &&& p1.tid@ == p0.tid@
                    &&& p1.info == p0.info
                    &&& if p0.join_num + 1 >= p0.tid@.len() {
                        &&& p1.join_num == 0
                        &&& final(self).thread@ == woken(old(self).thread@, p0.tid@)
                    } else {
                        &&& p1.join_num == p0.join_num + 1
                        &&& final(self).thread@ == old(self).thread@.update(
                            i,
                            Thread {
                                info: ExecutionInfo {
                                    state: TaskState::Sleeping,
                                    ..old(self).thread@[i].info
                                },
                                stack: old(self).thread@[i].stack,
                            },
                        )
                    }
                },
    {
        TaskPool::join(self, id)
    }
}

impl TaskResourceOp for TaskPool {
    open spec fn resource_ready(&self, id: usize) -> bool {
        self.wf() && has_tid(self.thread@, id)
    }

    fn push_file(&mut self, task_id: usize, file_id: usize)
        ensures
            final(self).wf(),
            final(self).thread@ == old(self).thread@,
            final(self).process@.len() == old(self).process@.len(),
            forall|i: int, k: int|
                0 <= i < old(self).thread@.len() && #[trigger] old(self).thread@[i].info.tid == task_id
                    && 0 <= k < old(self).process@.len() ==> {
                    let p0 = old(self).process@[k];
                    let p1 = #[trigger] final(self).process@[k];
                    &&& p1.info == p0.info
                    &&& p1.resource.files@ == if p0.info.pid == old(self).thread@[i].info.pid {
                        p0.resource.files@.push(file_id)
                    } else {
                        p0.resource.files@
                    }
                },
    {
        TaskPool::push_file(self, task_id, file_id)
    }

    fn release_file(&mut self, task_id: usize, file_id: usize)
        ensures
            final(self).wf(),
            final(self).thread@ == old(self).thread@,
            final(self).process@.len() == old(self).process@.len(),
            forall|i: int, k: int|
                0 <= i < old(self).thread@.len() && #[trigger] old(self).thread@[i].info.tid == task_id
                    && 0 <= k < old(self).process@.len() ==> {
                    let p0 = old(self).process@[k];
                    let p1 = #[trigger] final(self).process@[k];
                    &&& p1.info == p0.info
                    &&& p1.resource.files@ == if p0.info.pid == old(self).thread@[i].info.pid {
                        without_first(p0.resource.files@, file_id)
                    } else {
                        p0.resource.files@
                    }
                },
    {
        TaskPool::release_file(self, task_id, file_id)
    }
}

impl TaskScheduleOp for TaskPool {
    open spec fn priority_ready(&self, id: usize) -> bool {
        self.wf() && has_tid(self.thread@, id)
    }

    fn set_priority(&mut self, id: usize, priority: usize)
        ensures
            final(self).wf(),
            final(self).process@ == old(self).process@,
            final(self).thread@.len() == old(self).thread@.len(),
            forall|i: int|
                0 <= i < old(self).thread@.len() ==> #[trigger] final(self).thread@[i] == if old(self).thread@[i].info.tid == id {
                    Thread {
                        info: ExecutionInfo { priority, ..old(self).thread@[i].info },
                        stack: old(self).thread@[i].stack,
                    }
                } else {
                    old(self).thread@[i]
                },
            final(self).waiting_list@ == old(self).waiting_list@,
            final(self).time_list@ == old(self).time_list@,
            final(self).wait_time_list@ == old(self).wait_time_list@,
    {
        TaskPool::set_priority(self, id, priority)
    }
}

impl TaskPoolOp for TaskPool {

}

} // verus!
