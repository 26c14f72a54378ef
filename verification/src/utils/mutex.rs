//! Re-entrant mutex guarding a value.
//!
//! A thread (named by a non-zero id) takes the lock, may take it again any
//! number of times, and holds it until it has released it as often as it took
//! it. The lock is modelled as its state: the owning thread (0 when free) and
//! how many times the owner holds it. Exclusive access to the mutex (`&mut`)
//! stands for the atomic updates of that state.

use vstd::prelude::*;

verus! {

/// Re-entrant mutex holding a value of type `T`.
pub struct Mutex<T> {
    owner: usize,
    count: usize,
    data: T,
}

/// Proof that a thread holds a `Mutex`; handing it back to
/// `Mutex::release` releases one hold.
pub struct MutexGuard {
    thread_id: usize,
}

impl MutexGuard {
    /// The thread that holds the lock.
    pub closed spec fn thread_id(&self) -> usize {
        self.thread_id
    }
}

impl<T> Mutex<T> {
    /// Thread that holds the lock; 0 when the lock is free.
    pub closed spec fn owner(&self) -> usize {
        self.owner
    }

    /// How many times the owner holds the lock.
    pub closed spec fn count(&self) -> usize {
        self.count
    }

    /// The guarded value.
    pub closed spec fn value(&self) -> T {
        self.data
    }

    /// Whether `thread_id` would get the lock now: it is free or already
    /// held by that thread.
    pub open spec fn available_to(&self, thread_id: usize) -> bool {
        self.owner() == 0 || self.owner() == thread_id
    }

    /// The state after `thread_id` takes the lock once more.
    pub open spec fn locked_by(&self, next: &Self, thread_id: usize) -> bool {
        &&& next.owner() == thread_id
        &&& next.count() == if self.owner() == thread_id {
            if self.count() == usize::MAX {
                0
            } else {
                self.count() + 1
            }
        } else {
            1
        }
        &&& next.value() == self.value()
    }

    /// Creates a free mutex holding `value`.
    pub fn new(value: T) -> (r: Mutex<T>)
        ensures
            r.owner() == 0,
            r.count() == 0,
            r.value() == value,
    {
        Mutex { owner: 0, count: 0, data: value }
    }

    /// Takes the lock for `thread_id` and returns the guard. The lock must be
    /// available to that thread: while another thread holds it, the call
    /// waits, and a mutex owned by one caller never frees itself.
    pub fn lock(&mut self, thread_id: usize) -> (r: MutexGuard)
        requires
            thread_id != 0,
            old(self).available_to(thread_id),
        ensures
            old(self).locked_by(&*final(self), thread_id),
            r.thread_id() == thread_id,
    {
        self.raw_lock(thread_id);
        MutexGuard { thread_id }
    }

    /// Takes the lock for `thread_id` if it is available to it.
    pub fn try_lock(&mut self, thread_id: usize) -> (r: Option<MutexGuard>)
        requires
            thread_id != 0,
        ensures
            r is Some <==> old(self).available_to(thread_id),
            r matches Some(g) ==> old(self).locked_by(&*final(self), thread_id) && g.thread_id() == thread_id,
            r is None ==> *final(self) == *old(self),
    {
        if self.try_raw_lock(thread_id) {
            Some(MutexGuard { thread_id })
        } else {
            None
        }
    }

    /// Takes the lock for `thread_id` without a guard; it must be available
    /// to that thread.
    pub fn raw_lock(&mut self, thread_id: usize)
        requires
            thread_id != 0,
            old(self).available_to(thread_id),
        ensures
            old(self).locked_by(&*final(self), thread_id),
    {
        let taken = self.try_raw_lock(thread_id);
        assert(taken);
    }

    /// Takes the lock for `thread_id` without a guard if it is available to
    /// it; a lock already held by that thread counts one more hold (the
    /// count wraps as an atomic add does).
    pub fn try_raw_lock(&mut self, thread_id: usize) -> (r: bool)
        requires
            thread_id != 0,
        ensures
            r == old(self).available_to(thread_id),
            r ==> old(self).locked_by(&*final(self), thread_id),
            !r ==> *final(self) == *old(self),
    {
        let current = self.owner;
        if current == thread_id {
            self.count = self.count.wrapping_add(1);
            return true;
        }
        if current == 0 {
            self.owner = thread_id;
            self.count = 1;
            return true;
        }
        false
    }

    /// Releases one hold of `thread_id`, which must own the lock; the lock
    /// is free once every hold is released.
    pub fn unlock(&mut self, thread_id: usize)
        requires
            old(self).owner() == thread_id,
            old(self).count() > 0,
        ensures
            final(self).count() == old(self).count() - 1,
            final(self).owner() == if old(self).count() == 1 {
                0
            } else {
                thread_id
            },
            final(self).value() == old(self).value(),
    {
        let prev = self.count;
        self.count = prev - 1;
        if prev == 1 {
            self.owner = 0;
        }
    }

    /// Releases the hold that `guard` stands for.
    pub fn release(&mut self, guard: MutexGuard)
        requires
            old(self).owner() == guard.thread_id(),
            old(self).count() > 0,
        ensures
            final(self).count() == old(self).count() - 1,
            final(self).owner() == if old(self).count() == 1 {
                0
            } else {
                guard.thread_id()
            },
            final(self).value() == old(self).value(),
    {
        self.unlock(guard.thread_id);
    }

    /// The guarded value, read through the guard of its owner.
    pub fn guarded<'a>(&'a self, guard: &MutexGuard) -> (r: &'a T)
        requires
            self.owner() == guard.thread_id(),
        ensures
            *r == self.value(),
    {
        &self.data
    }

    /// The guarded value, writable through the guard of its owner.
    pub fn guarded_mut<'a>(&'a mut self, guard: &MutexGuard) -> (r: &'a mut T)
        requires
            old(self).owner() == guard.thread_id(),
        ensures
            *r == old(self).value(),
            final(self).value() == *final(r),
            final(self).owner() == old(self).owner(),
            final(self).count() == old(self).count(),
    {
        &mut self.data
    }

    /// The guarded value, read without taking the lock.
    pub fn data_ptr(&self) -> (r: &T)
        ensures
            *r == self.value(),
    {
        &self.data
    }

    /// The guarded value, writable through exclusive access to the mutex.
    pub fn get_mut(&mut self) -> (r: &mut T)
        ensures
            *r == old(self).value(),
            final(self).value() == *final(r),
            final(self).owner() == old(self).owner(),
            final(self).count() == old(self).count(),
    {
        &mut self.data
    }

    /// Consumes the mutex and returns the guarded value.
    pub fn into_inner(self) -> (r: T)
        ensures
            r == self.value(),
    {
        self.data
    }
}

/// Taking a free lock and releasing it as often as it was taken leaves it
/// free with the value unchanged; a held lock is never available to
/// another thread.
pub proof fn lemma_lock_unlock<T>(m0: Mutex<T>, m1: Mutex<T>, m2: Mutex<T>, thread_id: usize, other: usize)
    requires
        m0.owner() == 0,
        thread_id != 0,
        m0.locked_by(&m1, thread_id),
        m2.count() == m1.count() - 1,
        m2.owner() == if m1.count() == 1 { 0 } else { thread_id },
        m2.value() == m1.value(),
        other != thread_id,
        other != 0,
    ensures
        m2.owner() == 0,
        m2.value() == m0.value(),
        !m1.available_to(other),
        m1.available_to(thread_id),
{
}

/// Taking a free lock `k` times in a row for one thread (each state of
/// `h` follows the one before by a take for `thread_id`) leaves it held by
/// that thread `k` times, value unchanged. It is then not available to any
/// other thread, so `try_raw_lock` of another thread fails and leaves it as
/// it is, while one more take by its owner holds it `k + 1` times.
pub proof fn lemma_nested_locks<T>(h: Seq<Mutex<T>>, thread_id: usize, other: usize)
    requires
        h.len() >= 2,
        h.len() - 1 < usize::MAX,
        h[0].owner() == 0,
        thread_id != 0,
        forall|i: int, j: int| 0 <= i && j == i + 1 && j < h.len() ==> #[trigger] h[i].locked_by(&h[j], thread_id),
        other != 0,
        other != thread_id,
    ensures
        h.last().owner() == thread_id,
        h.last().count() == h.len() - 1,
        h.last().value() == h[0].value(),
        !h.last().available_to(other),
        h.last().available_to(thread_id),
        forall|next: Mutex<T>|
            #[trigger] h.last().locked_by(&next, thread_id) ==> next.owner() == thread_id && next.count() == h.len(),
    decreases h.len(),
{
    if h.len() > 2 {
        let p = h.drop_last();
        assert forall|i: int, j: int| 0 <= i && j == i + 1 && j < p.len() implies #[trigger] p[i].locked_by(
            &p[j],
            thread_id,
        ) by {
            assert(h[i].locked_by(&h[j], thread_id));
        }
        lemma_nested_locks(p, thread_id, other);
        assert(h[h.len() - 2].locked_by(&h[h.len() - 1], thread_id));
    } else {
        assert(h[0].locked_by(&h[1], thread_id));
    }
}

/// One call on a mutex takes it from `a` to `b`. `write` is the value
/// written through `guarded_mut` or `get_mut`, which leave the lock as it
/// is; `None` stands for a call that writes nothing (taking, releasing or
/// reading), which keeps the value.
pub open spec fn mutex_step<T>(a: Mutex<T>, b: Mutex<T>, write: Option<T>) -> bool {
    match write {
        Some(w) => b.owner() == a.owner() && b.count() == a.count() && b.value() == w,
        None => b.value() == a.value(),
    }
}

/// The value last written in `writes`, or `initial` when none is.
pub open spec fn last_written<T>(initial: T, writes: Seq<Option<T>>) -> T
    decreases writes.len(),
{
    if writes.len() == 0 {
        initial
    } else {
        match writes.last() {
            Some(w) => w,
            None => last_written(initial, writes.drop_last()),
        }
    }
}

/// Over any sequence of calls, the guarded value (which `into_inner` and
/// `data_ptr` give) is the one last written, or the one the mutex was made
/// with when nothing was written.
pub proof fn lemma_value_is_last_written<T>(h: Seq<Mutex<T>>, writes: Seq<Option<T>>)
    requires
        h.len() == writes.len() + 1,
        forall|i: int, j: int| 0 <= i && j == i + 1 && j < h.len() ==> #[trigger] mutex_step(h[i], h[j], writes[i]),
    ensures
        h.last().value() == last_written(h[0].value(), writes),
    decreases writes.len(),
{
    if writes.len() > 0 {
        let p = h.drop_last();
        let pw = writes.drop_last();
        assert forall|i: int, j: int| 0 <= i && j == i + 1 && j < p.len() implies #[trigger] mutex_step(
            p[i],
            p[j],
            pw[i],
        ) by {
            assert(mutex_step(h[i], h[j], writes[i]));
        }
        lemma_value_is_last_written(p, pw);
        assert(mutex_step(h[writes.len() - 1], h[writes.len() as int], writes[writes.len() - 1]));
    }
}

} // verus!
