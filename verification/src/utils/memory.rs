//! Heap cells and fixed-size arrays whose contents do not move.

use vstd::prelude::*;

verus! {

/// A value kept in its own heap cell.
pub struct Boxed<T>(Box<T>);

/// A fixed-size sequence of values kept in one heap block.
pub struct Array<T>(Vec<T>);

impl<T> View for Boxed<T> {
    type V = T;

    closed spec fn view(&self) -> T {
        *self.0
    }
}

impl<T> View for Array<T> {
    type V = Seq<T>;

    closed spec fn view(&self) -> Seq<T> {
        self.0@
    }
}

impl<T> Boxed<T> {
    /// Moves `value` into a new cell.
    pub fn new(value: T) -> (r: Boxed<T>)
        ensures
            r@ == value,
    {
        Boxed(Box::new(value))
    }

    /// The value in the cell.
    pub fn as_raw(&self) -> (r: &T)
        ensures
            *r == self@,
    {
        &*self.0
    }

    /// The value in the cell, writable.
    pub fn as_raw_mut(&mut self) -> (r: &mut T)
        ensures
            *r == old(self)@,
            final(self)@ == *final(r),
    {
        &mut *self.0
    }
}

impl<T> Array<T> {
    /// An array holding the elements of `value`, in order.
    pub fn new(value: Vec<T>) -> (r: Array<T>)
        ensures
            r@ == value@,
    {
        Array(value)
    }

    /// An array without elements.
    pub fn empty() -> (r: Array<T>)
        ensures
            r@ == Seq::<T>::empty(),
    {
        Array(Vec::new())
    }

    /// The elements, as a slice.
    pub fn as_raw(&self) -> (r: &[T])
        ensures
            r@ == self@,
    {
        self.0.as_slice()
    }

    /// Number of elements.
    pub fn len(&self) -> (r: usize)
        ensures
            r == self@.len(),
    {
        self.0.len()
    }

    /// The element at `index`.
    pub fn get(&self, index: usize) -> (r: &T)
        requires
            index < self@.len(),
        ensures
            *r == self@[index as int],
    {
        &self.0[index]
    }
}

impl<T: Copy> Array<T> {
    /// An array holding a copy of each element of `value`.
    pub fn from_slice(value: &[T]) -> (r: Array<T>)
        ensures
            r@ == value@,
    {
        let mut v: Vec<T> = Vec::new();
        let n = value.len();
        let mut i: usize = 0;
        while i < n
            invariant
                n == value@.len(),
                i <= n,
                v@ == value@.take(i as int),
            decreases n - i,
        {
            v.push(value[i]);
            i = i + 1;
            assert(v@ =~= value@.take(i as int));
        }
        assert(value@.take(n as int) =~= value@);
        Array(v)
    }
}

} // verus!
