//! A summary of a thread, and a pipe unit: the values sent to a thread,
//! first in first out.

use vstd::prelude::*;
use std::collections::VecDeque;
use super::task_info::Environment;
use super::thread::Thread;

verus! {

/// What a thread is: its program and number, its mode, its stack top and
/// registers.
#[derive(Debug, Clone, Copy, PartialEq, Eq)]
pub struct Info {
    pub pid: usize,
    pub tid: usize,
    pub is_kernel: bool,
    pub stack_top: usize,
    pub env: Environment,
}

impl Info {
    /// The summary of `thread`.
    pub fn from_thread(thread: &Thread) -> (r: Self)
        ensures
            r == (Info {
                pid: thread.info.pid,
                tid: thread.info.tid,
                is_kernel: thread.info.is_kernel,
                stack_top: thread.info.stack_top,
                env: thread.info.env,
            }),
    {
        Self {
            pid: thread.info.pid,
            tid: thread.info.tid,
            is_kernel: thread.info.is_kernel,
            stack_top: thread.info.stack_top,
            env: thread.info.env,
        }
    }
}

/// The values sent to thread `tid` and not read yet, oldest first.
#[derive(Debug)]
pub struct PipeUnit {
    pub tid: usize,
    pub val: VecDeque<usize>,
}

impl PipeUnit {
    /// No value for thread `tid`.
    pub fn new(tid: usize) -> (r: Self)
        ensures
            r.tid == tid,
            r.val@ == Seq::<usize>::empty(),
    {
        Self { tid, val: VecDeque::new() }
    }

    /// Sends `val`.
    pub fn push(&mut self, val: usize)
        ensures
            final(self).tid == old(self).tid,
            final(self).val@ == old(self).val@.push(val),
    {
        self.val.push_back(val);
    }

    /// Reads the oldest value; `None` when there is none.
    pub fn pop(&mut self) -> (r: Option<usize>)
        ensures
            final(self).tid == old(self).tid,
            old(self).val@.len() == 0 ==> r is None && final(self).val@ == old(self).val@,
            old(self).val@.len() > 0 ==> r == Some(old(self).val@[0]) && final(self).val@
                == old(self).val@.drop_first(),
    {
        self.val.pop_front()
    }
}

/// Values come out of a pipe in the order they went in: after sending
/// `v`, the next read gives the oldest value, which is `v` only when the
/// pipe was empty, and what is left keeps `v` last.
pub proof fn lemma_pipe_fifo(before: Seq<usize>, v: usize)
    ensures
        before.push(v)[0] == if before.len() > 0 {
            before[0]
        } else {
            v
        },
        before.push(v).drop_first() == if before.len() > 0 {
            before.drop_first().push(v)
        } else {
            before
        },
{
    if before.len() > 0 {
        assert(before.push(v).drop_first() =~= before.drop_first().push(v));
    } else {
        assert(before.push(v).drop_first() =~= before);
    }
}

} // verus!
