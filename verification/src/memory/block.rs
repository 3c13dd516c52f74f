//! A block: a fixed number of elements of one type, read and written by
//! index, and copied into another block.

use vstd::prelude::*;

verus! {

/// `size` elements.
#[derive(Debug)]
pub struct Block<T: Copy> {
    pub data: Vec<T>,
    pub size: usize,
}

impl<T: Copy> Block<T> {
    /// The elements.
    pub open spec fn view(&self) -> Seq<T> {
        self.data@
    }

    /// The element count agrees with the elements.
    pub open spec fn wf(&self) -> bool {
        self.data@.len() == self.size
    }

    /// A block of `size` elements, each `fill`.
    pub fn new(size: usize, fill: T) -> (r: Block<T>)
        ensures
            r.wf(),
            r.size == size,
            r@ == Seq::new(size as nat, |i: int| fill),
    {
        let mut data: Vec<T> = Vec::new();
        let mut i: usize = 0;
        while i < size
            invariant
                i <= size,
                data@ == Seq::new(i as nat, |j: int| fill),
            decreases size - i,
        {
            data.push(fill);
            i = i + 1;
            proof {
                assert(data@ =~= Seq::new(i as nat, |j: int| fill));
            }
        }
        Block { data, size }
    }

    /// Element `idx`; `None` past the end.
    pub fn get(&self, idx: usize) -> (r: Option<T>)
        requires
            self.wf(),
        ensures
            r == if idx < self.size {
                Some(self@[idx as int])
            } else {
                None::<T>
            },
    {
        if idx >= self.size {
            None
        } else {
            Some(self.data[idx])
        }
    }

    /// Writes `val` into the elements from `idx` up to `len` (or the end of
    /// the block, whichever comes first).
    pub fn set(&mut self, idx: usize, val: T, len: usize)
        requires
            old(self).wf(),
            idx < old(self).size,
        ensures
            final(self).wf(),
            final(self).size == old(self).size,
            final(self)@ == Seq::new(
                old(self).size as nat,
                |i: int|
                    if idx <= i < len && i < old(self).size {
                        val
                    } else {
                        old(self)@[i]
                    },
            ),
    {
        let end = if len < self.size {
            len
        } else {
            self.size
        };
        let mut i = idx;
        while i < end
            invariant
                self.wf(),
                self.size == old(self).size,
                end <= self.size,
                end == if len < old(self).size { len } else { old(self).size },
                old(self)@.len() == old(self).size,
                self@.len() == self.size,
                idx <= i,
                i <= end || i == idx,
                forall|j: int|
                    0 <= j < self.size ==> #[trigger] self@[j] == if idx <= j < i {
                        val
                    } else {
                        old(self)@[j]
                    },
            decreases end - i,
        {
            self.data.set(i, val);
            i = i + 1;
        }
        proof {
            assert(self@ =~= Seq::new(
                old(self).size as nat,
                |j: int|
                    if idx <= j < len && j < old(self).size {
                        val
                    } else {
                        old(self)@[j]
                    },
            ));
        }
    }

    /// Copies the first `len` elements (at most as many as the smaller
    /// block holds) into `other`.
    pub fn copy_to(&self, other: &mut Block<T>, len: usize)
        requires
            self.wf(),
            old(other).wf(),
        ensures
            final(other).wf(),
            final(other).size == old(other).size,
            final(other)@ == Seq::new(
                old(other).size as nat,
                |i: int|
                    if i < len && i < self.size {
                        self@[i]
                    } else {
                        old(other)@[i]
                    },
            ),
    {
        let count = if self.size < other.size {
            self.size
        } else {
            other.size
        };
        let count = if len < count {
            len
        } else {
            count
        };
        let mut i: usize = 0;
        while i < count
            invariant
                self.wf(),
                other.wf(),
                other.size == old(other).size,
                count <= self.size,
                count <= other.size,
                count == if len < (if self.size < old(other).size { self.size } else { old(other).size }) {
                    len
                } else {
                    if self.size < old(other).size { self.size } else { old(other).size }
                },
                i <= count,
                old(other)@.len() == old(other).size,
                other@.len() == other.size,
                forall|j: int|
                    0 <= j < other.size ==> #[trigger] other@[j] == if j < i {
                        self@[j]
                    } else {
                        old(other)@[j]
                    },
            decreases count - i,
        {
            other.data.set(i, self.data[i]);
            i = i + 1;
        }
        proof {
            assert(other@ =~= Seq::new(
                old(other).size as nat,
                |j: int|
                    if j < len && j < self.size {
                        self@[j]
                    } else {
                        old(other)@[j]
                    },
            ));
        }
    }

    /// Copies the first `len` elements (at most as many as the smaller
    /// block holds) of `other` onto themselves, which leaves `other` as it
    /// was.
    pub fn copy_from(&self, other: &mut Block<T>, len: usize)
        requires
            self.wf(),
            old(other).wf(),
        ensures
            final(other)@ == old(other)@,
            final(other).size == old(other).size,
    {
        let count = if self.size < other.size {
            self.size
        } else {
            other.size
        };
        let count = if len < count {
            len
        } else {
            count
        };
        let mut i: usize = 0;
        while i < count
            invariant
                other.wf(),
                other.size == old(other).size,
                count <= other.size,
                other@ == old(other)@,
                i <= count,
            decreases count - i,
        {
            let v = other.data[i];
            other.data.set(i, v);
            proof {
                assert(other@ =~= old(other)@);
            }
            i = i + 1;
        }
    }
}

} // verus!
