//! A ring buffer of input events: pushes go in at the write position and
//! pops come out at the read position, both running round a queue of
//! `QUEUE_SIZE` slots. A push never waits: it overwrites the oldest slot.

use vstd::prelude::*;

verus! {

/// Slots in the ring.
pub const QUEUE_SIZE: usize = 128;

/// A ring of `QUEUE_SIZE` input values.
pub struct InputBuffer<T> {
    pub write_idx: usize,
    pub read_idx: usize,
    pub buffer: Vec<T>,
}

impl<T: Copy> InputBuffer<T> {
    /// Both positions lie in the ring, which has its size.
    pub open spec fn wf(&self) -> bool {
        &&& self.write_idx < QUEUE_SIZE
        &&& self.read_idx < QUEUE_SIZE
        &&& self.buffer@.len() == QUEUE_SIZE
    }

    /// Number of values pushed and not yet popped (modulo the ring size).
    pub open spec fn pending_len(&self) -> int {
        (self.write_idx - self.read_idx + QUEUE_SIZE) % (QUEUE_SIZE as int)
    }

    /// The values pushed and not yet popped, oldest first.
    pub open spec fn pending(&self) -> Seq<T> {
        Seq::new(
            self.pending_len() as nat,
            |i: int| self.buffer@[(self.read_idx + i) % (QUEUE_SIZE as int)],
        )
    }

    /// An empty ring whose slots all hold `val`.
    pub fn new(val: T) -> (r: Self)
        ensures
            r.wf(),
            r.write_idx == 0,
            r.read_idx == 0,
            r.buffer@ == Seq::new(QUEUE_SIZE as nat, |i: int| val),
            r.pending() == Seq::<T>::empty(),
    {
        let mut buffer: Vec<T> = Vec::new();
        let mut i: usize = 0;
        while i < QUEUE_SIZE
            invariant
                i <= QUEUE_SIZE,
                buffer@ == Seq::new(i as nat, |j: int| val),
            decreases QUEUE_SIZE - i,
        {
            buffer.push(val);
            i += 1;
            proof {
                assert(buffer@ =~= Seq::new(i as nat, |j: int| val));
            }
        }
        let r = Self { write_idx: 0, read_idx: 0, buffer };
        assert(r.pending() =~= Seq::<T>::empty());
        r
    }

    /// The oldest value not yet popped, which leaves the ring; `None` when
    /// the ring is empty.
    pub fn pop(&mut self) -> (r: Option<T>)
        requires
            old(self).wf(),
        ensures
            final(self).wf(),
            final(self).write_idx == old(self).write_idx,
            final(self).buffer@ == old(self).buffer@,
            old(self).read_idx != old(self).write_idx ==> r == Some(
                old(self).buffer@[old(self).read_idx as int],
            ) && final(self).read_idx == (old(self).read_idx + 1) % QUEUE_SIZE as int,
            old(self).read_idx == old(self).write_idx ==> r.is_none() && final(self).read_idx
                == old(self).read_idx,
            r == (if old(self).pending().len() > 0 {
                Some(old(self).pending()[0])
            } else {
                None::<T>
            }),
            final(self).pending() == if old(self).pending().len() > 0 {
                old(self).pending().drop_first()
            } else {
                old(self).pending()
            },
    {
        if self.read_idx != self.write_idx {
            let idx = self.read_idx;
            self.read_idx = (self.read_idx + 1) % QUEUE_SIZE;
            proof {
                assert(self.pending() =~= old(self).pending().drop_first());
            }
            Some(self.buffer[idx])
        } else {
            None
        }
    }

    /// Puts `val` in at the write position, which moves on by one.
    pub fn push(&mut self, val: T)
        requires
            old(self).wf(),
        ensures
            final(self).wf(),
            final(self).buffer@ == old(self).buffer@.update(old(self).write_idx as int, val),
            final(self).write_idx == (old(self).write_idx + 1) % QUEUE_SIZE as int,
            final(self).read_idx == old(self).read_idx,
            old(self).pending().len() < QUEUE_SIZE - 1 ==> final(self).pending() == old(self).pending().push(val),
    {
        self.buffer.set(self.write_idx, val);
        self.write_idx = (self.write_idx + 1) % QUEUE_SIZE;
        proof {
            if old(self).pending().len() < QUEUE_SIZE - 1 {
                assert(self.pending() =~= old(self).pending().push(val));
            }
        }
    }

    /// The value pushed last.
    pub fn get_cur(&mut self) -> (r: T)
        requires
            old(self).wf(),
        ensures
            *final(self) == *old(self),
            r == old(self).buffer@[(old(self).write_idx + QUEUE_SIZE - 1) % QUEUE_SIZE as int],
    {
        self.buffer[(self.write_idx + QUEUE_SIZE - 1) % QUEUE_SIZE]
    }
}

/// Into a ring with room, a value pushed is the last of those waiting, and
/// into an empty ring it is the next to come out.
pub proof fn lemma_push_then_pop<T: Copy>(before: InputBuffer<T>, after: InputBuffer<T>, val: T)
    requires
        before.wf(),
        before.pending().len() == 0,
        after.pending() == before.pending().push(val),
    ensures
        after.pending().len() == 1,
        after.pending()[0] == val,
{
}

} // verus!
