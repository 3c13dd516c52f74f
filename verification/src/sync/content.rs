//! A value kept behind a lock: taking the lock gives access to the value,
//! and the lock is held until it is let go.

use vstd::prelude::*;

verus! {

/// `value`, and whether its lock is held.
#[derive(Debug)]
pub struct ContentMutex<T> {
    pub value: T,
    pub locked: bool,
}

impl<T> ContentMutex<T> {
    /// `value` behind a free lock.
    pub fn new(value: T) -> (r: Self)
        ensures
            r.value == value,
            !r.locked,
    {
        Self { value, locked: false }
    }

    /// Takes the lock, which is free, and gives access to the value.
    pub fn lock(&mut self) -> (r: &mut T)
        requires
            !old(self).locked,
        ensures
            *r == old(self).value,
            final(self).locked,
            final(self).value == *final(r),
    {
        self.locked = true;
        &mut self.value
    }

    /// Lets the lock go.
    pub fn unlock(&mut self)
        ensures
            !final(self).locked,
            final(self).value == old(self).value,
    {
        self.locked = false;
    }
}

/// Access to the value behind a taken lock.
pub struct Content<'a, T> {
    pub mutex: &'a mut ContentMutex<T>,
}

impl<'a, T> Content<'a, T> {
    /// Access through `mutex`.
    pub fn new(mutex: &'a mut ContentMutex<T>) -> (r: Self)
        ensures
            *r.mutex == *old(mutex),
    {
        Self { mutex }
    }

    /// The value, to change.
    pub fn get_mut(&mut self) -> (r: &mut T)
        ensures
            *r == old(self).mutex.value,
            final(self).mutex.value == *final(r),
            final(self).mutex.locked == old(self).mutex.locked,
    {
        &mut self.mutex.value
    }

    /// The value.
    pub fn get(&self) -> (r: &T)
        ensures
            *r == old(self.mutex).value,
    {
        &self.mutex.value
    }
}

} // verus!
