//! The scheduler: rotation by priority. Every waiting thread that is at
//! least as urgent as the best one seen so far, in order of number, becomes
//! the pick and gains a point of priority; the final pick runs next and
//! starts again from zero.

use vstd::prelude::*;
use super::task_info::{ExecutionInfo, TaskState};
use super::task_manager::ScheduleMethod;
use super::task_pool::{TaskPool, has_tid, has_pid, tids_sorted};
use super::thread::Thread;

verus! {

/// The pick and the best priority after the first `k` threads of `s`.
pub open spec fn rotation(s: Seq<Thread>, k: int) -> (Option<usize>, int)
    decreases k,
{
    if k <= 0 {
        (None, 0)
    } else {
        let prev = rotation(s, k - 1);
        if s[k - 1].info.state == TaskState::Waiting && prev.1 <= s[k - 1].info.priority {
            (Some(s[k - 1].info.tid), s[k - 1].info.priority as int)
        } else {
            prev
        }
    }
}

/// Thread `j` of `s` became the pick when its turn came.
pub open spec fn picked(s: Seq<Thread>, j: int) -> bool {
    s[j].info.state == TaskState::Waiting && rotation(s, j).1 <= s[j].info.priority
}

/// The threads `s` after a round: each thread that became the pick when
/// its turn came has one more point, and the final pick `next` has none.
pub open spec fn after_round(s: Seq<Thread>, next: Option<usize>) -> Seq<Thread> {
    Seq::new(
        s.len(),
        |j: int|
            if next == Some(s[j].info.tid) {
                Thread { info: ExecutionInfo { priority: 0, ..s[j].info }, stack: s[j].stack }
            } else if picked(s, j) {
                Thread {
                    info: ExecutionInfo { priority: (s[j].info.priority + 1) as usize, ..s[j].info },
                    stack: s[j].stack,
                }
            } else {
                s[j]
            },
    )
}

proof fn lemma_rotation_pick(s: Seq<Thread>, k: int)
    requires
        0 <= k <= s.len(),
    ensures
        rotation(s, k).0 is Some ==> exists|j: int| 0 <= j < k && #[trigger] s[j].info.tid == rotation(s, k).0->Some_0,
        rotation(s, k).1 >= 0,
    decreases k,
{
    if k > 0 {
        lemma_rotation_pick(s, k - 1);
    }
}

proof fn lemma_rotation_none(s: Seq<Thread>, k: int)
    requires
        0 <= k <= s.len(),
        rotation(s, k).0 is None,
    ensures
        forall|j: int| 0 <= j < k ==> !#[trigger] picked(s, j),
    decreases k,
{
    if k > 0 {
        lemma_rotation_none(s, k - 1);
    }
}


proof fn lemma_rotation_max(s: Seq<Thread>, k: int)
    requires
        0 <= k <= s.len(),
    ensures
        forall|j: int|
            0 <= j < k && #[trigger] s[j].info.state == TaskState::Waiting ==> s[j].info.priority
                <= rotation(s, k).1,
        rotation(s, k).0 is Some ==> exists|j: int|
            0 <= j < k && #[trigger] s[j].info.tid == rotation(s, k).0->Some_0 && s[j].info.state
                == TaskState::Waiting && s[j].info.priority == rotation(s, k).1,
        rotation(s, k).0 is None ==> forall|j: int| 0 <= j < k ==> #[trigger] s[j].info.state != TaskState::Waiting,
        rotation(s, k).0 is None ==> rotation(s, k).1 == 0,
    decreases k,
{
    if k > 0 {
        lemma_rotation_max(s, k - 1);
    }
}

/// The thread a round picks waits, and no waiting thread has a higher
/// priority; when no thread waits, there is no pick.
pub proof fn lemma_pick_is_most_urgent(s: Seq<Thread>)
    ensures
        rotation(s, s.len() as int).0 is None ==> forall|j: int|
            0 <= j < s.len() ==> #[trigger] s[j].info.state != TaskState::Waiting,
        rotation(s, s.len() as int).0 is Some ==> exists|p: int|
            0 <= p < s.len() && #[trigger] s[p].info.tid == rotation(s, s.len() as int).0->Some_0
                && s[p].info.state == TaskState::Waiting && forall|j: int|
                0 <= j < s.len() && #[trigger] s[j].info.state == TaskState::Waiting ==> s[j].info.priority
                    <= s[p].info.priority,
{
    lemma_rotation_max(s, s.len() as int);
}

/// The pick of a round is one of the threads.
pub proof fn lemma_pick_is_there(s: Seq<Thread>)
    ensures
        rotation(s, s.len() as int).0 is Some ==> exists|j: int|
            0 <= j < s.len() && #[trigger] s[j].info.tid == rotation(s, s.len() as int).0->Some_0,
{
    lemma_rotation_pick(s, s.len() as int);
}

/// The scheduler.
#[derive(Debug)]
pub struct Scheduler {
    pub method: ScheduleMethod,
}

impl Scheduler {
    /// A scheduler by rotation.
    pub fn new() -> (r: Self)
        ensures
            r.method == ScheduleMethod::Rotation,
    {
        Self { method: ScheduleMethod::Rotation }
    }

    /// Picks the thread to run next: see `rotation`; the points are
    /// given as `after_round` says. `None` when no thread waits.
    pub fn schedule(&mut self, task_pool: &mut TaskPool) -> (r: Option<usize>)
        requires
            old(task_pool).wf(),
            forall|j: int|
                0 <= j < old(task_pool).thread@.len() ==> #[trigger] old(task_pool).thread@[j].info.priority
                    < usize::MAX,
        ensures
            final(task_pool).wf(),
            r == rotation(old(task_pool).thread@, old(task_pool).thread@.len() as int).0,
            final(task_pool).thread@ == after_round(old(task_pool).thread@, r),
            final(task_pool).process@ == old(task_pool).process@,
            final(task_pool).waiting_list@ == old(task_pool).waiting_list@,
            final(task_pool).time_list@ == old(task_pool).time_list@,
            final(task_pool).wait_time_list@ == old(task_pool).wait_time_list@,
            *final(self) == *old(self),
    {
        let ghost s0 = task_pool.thread@;
        let mut id: Option<usize> = None;
        let mut mx: usize = 0;
        let mut i: usize = 0;
        while i < task_pool.thread.len()
            invariant
                i <= task_pool.thread@.len(),
                task_pool.thread@.len() == s0.len(),
                s0 == old(task_pool).thread@,
                task_pool.process@ == old(task_pool).process@,
                task_pool.waiting_list@ == old(task_pool).waiting_list@,
                task_pool.time_list@ == old(task_pool).time_list@,
                task_pool.wait_time_list@ == old(task_pool).wait_time_list@,
                forall|j: int| 0 <= j < s0.len() ==> #[trigger] s0[j].info.priority < usize::MAX,
                (id, mx as int) == rotation(s0, i as int),
                forall|j: int|
                    0 <= j < s0.len() ==> #[trigger] task_pool.thread@[j] == if j < i && picked(s0, j) {
                        Thread {
                            info: ExecutionInfo { priority: (s0[j].info.priority + 1) as usize, ..s0[j].info },
                            stack: s0[j].stack,
                        }
                    } else {
                        s0[j]
                    },
            decreases task_pool.thread@.len() - i,
        {
            let st = task_pool.thread[i].info.state;
            let pr = task_pool.thread[i].info.priority;
            if st == TaskState::Waiting && mx <= pr {
                id = Some(task_pool.thread[i].info.tid);
                mx = pr;
                task_pool.thread[i].info.priority = pr + 1;
            }
            i = i + 1;
        }
        let ghost mid = task_pool.thread@;
        if let Some(next) = id {
            match task_pool.thread_index(next) {
                Some(k) => {
                    task_pool.thread[k].info.priority = 0;
                    proof {
                        assert(tids_sorted(s0));
                        assert forall|j: int| 0 <= j < s0.len() && j != k implies s0[j].info.tid != next by {
                            if j < k {
                                assert(s0[j].info.tid < s0[k as int].info.tid);
                            } else {
                                assert(s0[k as int].info.tid < s0[j].info.tid);
                            }
                        }
                    }
                },
                None => {
                    proof {
                        lemma_rotation_pick(s0, s0.len() as int);
                        let j = choose|j: int| 0 <= j < s0.len() && #[trigger] s0[j].info.tid == next;
                        assert(task_pool.thread@[j].info.tid == next);
                    }
                },
            }
        } else {
            proof {
                lemma_rotation_none(s0, s0.len() as int);
            }
        }
        proof {
            let s = task_pool.thread@;
            assert forall|j: int| 0 <= j < s.len() implies #[trigger] s[j] == after_round(s0, id)[j] by {
                assert(mid[j] == if picked(s0, j) {
                    Thread {
                        info: ExecutionInfo { priority: (s0[j].info.priority + 1) as usize, ..s0[j].info },
                        stack: s0[j].stack,
                    }
                } else {
                    s0[j]
                });
            }
            assert(s =~= after_round(s0, id));
            assert forall|a: int, b: int| 0 <= a < b < s.len() implies #[trigger] s[a].info.tid < #[trigger] s[b].info.tid by {
                assert(s0[a].info.tid < s0[b].info.tid);
            }
            assert forall|j: int| 0 <= j < s.len() implies has_pid(task_pool.process@, #[trigger] s[j].info.pid) by {
                assert(has_pid(task_pool.process@, s0[j].info.pid));
            }
        }
        id
    }
}

} // verus!
