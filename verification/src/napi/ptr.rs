//! Counted references to heap objects, as native code holds them.
//!
//! A strong reference counts on its object: making one (or cloning it) adds
//! one, releasing it takes one away. Turning one kind of strong reference
//! into another moves the count along. A weak reference counts nothing and
//! reads as null once its object is freed.

use vstd::prelude::*;
use crate::vm::heap::{ObjectRef, ObjectRefNN, ObjectWeakRef, VMHeap};
use crate::vm::VMError;

verus! {

/// A strong reference that may be null.
#[derive(Debug)]
pub struct ObjectSmartRef(pub Option<ObjectRefNN>);

/// A strong reference that is not null.
#[derive(Debug)]
pub struct ObjectSmartRefNN(pub ObjectRefNN);

/// A weak reference (through a weak cell of the heap), or null.
#[derive(Debug)]
pub struct ObjectSmartWeakRef(pub Option<ObjectWeakRef>);

/// `heap2` is `heap1` with the strong count of `h` one higher.
pub open spec fn counted_up(heap1: VMHeap, heap2: VMHeap, h: u64) -> bool {
    &&& heap2.live(h)
    &&& heap2.rc(h) == (if heap1.rc(h) == u64::MAX { 0 } else { (heap1.rc(h) + 1) as u64 })
    &&& heap2.object(h).class == heap1.object(h).class
    &&& heap2.object(h).fields == heap1.object(h).fields
    &&& heap2.same_except(&heap1, h)
    &&& heap2.allocated() == heap1.allocated()
}

/// `heap2` is `heap1` with the strong count of `h` one lower.
pub open spec fn counted_down(heap1: VMHeap, heap2: VMHeap, h: u64) -> bool {
    &&& heap2.live(h)
    &&& heap2.rc(h) == (if heap1.rc(h) == 0 { u64::MAX } else { (heap1.rc(h) - 1) as u64 })
    &&& heap2.object(h).class == heap1.object(h).class
    &&& heap2.object(h).fields == heap1.object(h).fields
    &&& heap2.same_except(&heap1, h)
    &&& heap2.allocated() == heap1.allocated()
}

impl ObjectSmartRef {
    /// The handle this reference holds; null for the null reference.
    pub open spec fn raw(&self) -> ObjectRef {
        match self.0 {
            Some(nn) => nn.to_ref_spec(),
            None => ObjectRef(0),
        }
    }

    /// A strong reference to `native`, counted on its object; null for the
    /// null handle.
    pub fn new(heap: &mut VMHeap, native: ObjectRef) -> (r: ObjectSmartRef)
        requires
            native.0 != 0 ==> old(heap).live(native.0),
        ensures
            r.raw() == native,
            native.0 == 0 ==> *final(heap) == *old(heap),
            native.0 != 0 ==> counted_up(*old(heap), *final(heap), native.0),
    {
        match native.try_deref() {
            Some(nn) => Self::new_unchecked(heap, nn),
            None => Self::null(),
        }
    }

    /// A strong reference to the non-null `native`, counted on its object.
    pub fn new_unchecked(heap: &mut VMHeap, native: ObjectRefNN) -> (r: ObjectSmartRef)
        requires
            old(heap).live(native.addr()),
        ensures
            r.0 == Some(native),
            counted_up(*old(heap), *final(heap), native.addr()),
    {
        heap.inc_rc(native);
        ObjectSmartRef(Some(native))
    }

    /// The null reference.
    pub fn null() -> (r: ObjectSmartRef)
        ensures
            r.0 is None,
    {
        ObjectSmartRef(None)
    }

    /// Whether this reference is null.
    pub fn is_null(&self) -> (r: bool)
        ensures
            r == self.0 is None,
    {
        self.0.is_none()
    }

    /// This reference as a non-null one, or `NullPointer`.
    pub fn deref(self) -> (r: Result<ObjectSmartRefNN, VMError>)
        ensures
            self.0 matches Some(nn) ==> r matches Ok(x) && x.0 == nn,
            self.0 is None ==> r matches Err(VMError::NullPointer),
    {
        match self.try_deref() {
            Some(object) => Ok(object),
            None => Err(VMError::NullPointer),
        }
    }

    /// This reference as a non-null one, unless it is null.
    pub fn try_deref(self) -> (r: Option<ObjectSmartRefNN>)
        ensures
            self.0 matches Some(nn) ==> r matches Some(x) && x.0 == nn,
            self.0 is None ==> r is None,
    {
        match self.0 {
            Some(native) => Some(ObjectSmartRefNN(native)),
            None => None,
        }
    }

    /// A weak reference to the same object; null for the null reference.
    pub fn as_weak(&self, heap: &mut VMHeap) -> (r: ObjectSmartWeakRef)
        requires
            old(heap).weak_cells() < u64::MAX,
        ensures
            self.0 is None ==> r.0 is None && *final(heap) == *old(heap),
            self.0 matches Some(nn) ==> r.0 matches Some(w) && final(heap).weak_live(w)
                && final(heap).weak_target(w) == nn.to_ref_spec(),
    {
        match &self.0 {
            Some(native) => ObjectSmartWeakRef::new(heap, *native),
            None => ObjectSmartWeakRef::null(),
        }
    }

    /// The handle this reference holds.
    pub fn as_raw(&self) -> (r: ObjectRef)
        ensures
            r == self.raw(),
    {
        match &self.0 {
            Some(native) => native.to_ref(),
            None => ObjectRef::null(),
        }
    }

    /// Another strong reference to the same object, counted on it.
    pub fn clone(&self, heap: &mut VMHeap) -> (r: ObjectSmartRef)
        requires
            self.0 matches Some(nn) ==> old(heap).live(nn.addr()),
        ensures
            r.raw() == self.raw(),
            self.0 is None ==> *final(heap) == *old(heap),
            self.0 matches Some(nn) ==> counted_up(*old(heap), *final(heap), nn.addr()),
    {
        match &self.0 {
            Some(native) => Self::new_unchecked(heap, *native),
            None => Self::null(),
        }
    }

    /// Gives up this reference, which no longer counts on its object.
    pub fn release(self, heap: &mut VMHeap)
        requires
            self.0 matches Some(nn) ==> old(heap).live(nn.addr()),
        ensures
            self.0 is None ==> *final(heap) == *old(heap),
            self.0 matches Some(nn) ==> counted_down(*old(heap), *final(heap), nn.addr()),
    {
        match &self.0 {
            Some(native) => heap.dec_rc(*native),
            None => {},
        }
    }
}

impl ObjectSmartRefNN {
    /// A strong reference to `native`, counted on its object.
    pub fn new(heap: &mut VMHeap, native: ObjectRefNN) -> (r: ObjectSmartRefNN)
        requires
            old(heap).live(native.addr()),
        ensures
            r.0 == native,
            counted_up(*old(heap), *final(heap), native.addr()),
    {
        heap.inc_rc(native);
        ObjectSmartRefNN(native)
    }

    /// A strong reference to `native`, or `NullPointer` for the null handle.
    pub fn deref(heap: &mut VMHeap, native: ObjectRef) -> (r: Result<ObjectSmartRefNN, VMError>)
        requires
            native.0 != 0 ==> old(heap).live(native.0),
        ensures
            native.0 == 0 ==> (r matches Err(VMError::NullPointer) && *final(heap) == *old(heap)),
            native.0 != 0 ==> (r matches Ok(x) && x.0.addr() == native.0 && counted_up(
                *old(heap),
                *final(heap),
                native.0,
            )),
    {
        match Self::try_deref(heap, native) {
            Some(value) => Ok(value),
            None => Err(VMError::NullPointer),
        }
    }

    /// A strong reference to `native`, unless it is the null handle.
    pub fn try_deref(heap: &mut VMHeap, native: ObjectRef) -> (r: Option<ObjectSmartRefNN>)
        requires
            native.0 != 0 ==> old(heap).live(native.0),
        ensures
            native.0 == 0 ==> r is None && *final(heap) == *old(heap),
            native.0 != 0 ==> (r matches Some(x) && x.0.addr() == native.0 && counted_up(
                *old(heap),
                *final(heap),
                native.0,
            )),
    {
        match native.try_deref() {
            Some(nn) => Some(Self::new(heap, nn)),
            None => None,
        }
    }

    /// A weak reference to the same object.
    pub fn to_weak(&self, heap: &mut VMHeap) -> (r: ObjectSmartWeakRef)
        requires
            old(heap).weak_cells() < u64::MAX,
        ensures
            r.0 matches Some(w) && final(heap).weak_live(w) && final(heap).weak_target(w) == self.0.to_ref_spec(),
    {
        ObjectSmartWeakRef::new(heap, self.0)
    }

    /// The handle this reference holds.
    pub fn as_raw(&self) -> (r: ObjectRefNN)
        ensures
            r == self.0,
    {
        self.0
    }

    /// The same reference as a possibly-null one; the count moves along.
    pub fn into(self) -> (r: ObjectSmartRef)
        ensures
            r.0 == Some(self.0),
    {
        ObjectSmartRef(Some(self.0))
    }

    /// Another strong reference to the same object, counted on it.
    pub fn clone(&self, heap: &mut VMHeap) -> (r: ObjectSmartRefNN)
        requires
            old(heap).live(self.0.addr()),
        ensures
            r.0 == self.0,
            counted_up(*old(heap), *final(heap), self.0.addr()),
    {
        Self::new(heap, self.0)
    }

    /// Gives up this reference, which no longer counts on its object.
    pub fn release(self, heap: &mut VMHeap)
        requires
            old(heap).live(self.0.addr()),
        ensures
            counted_down(*old(heap), *final(heap), self.0.addr()),
    {
        heap.dec_rc(self.0)
    }
}

impl ObjectSmartWeakRef {
    /// A weak reference to `native`, through a new weak cell.
    pub fn new(heap: &mut VMHeap, native: ObjectRefNN) -> (r: ObjectSmartWeakRef)
        requires
            old(heap).weak_cells() < u64::MAX,
        ensures
            r.0 matches Some(w) && final(heap).weak_live(w) && final(heap).weak_target(w) == native.to_ref_spec()
                && w.0 == old(heap).weak_cells() + 1,
            final(heap).weak_cells() == old(heap).weak_cells() + 1,
            forall|v: ObjectWeakRef| old(heap).weak_live(v) ==> #[trigger] final(heap).weak_target(v)
                == old(heap).weak_target(v) && final(heap).weak_live(v),
            forall|g: u64| #[trigger] final(heap).live(g) == old(heap).live(g),
            forall|g: u64| old(heap).live(g) ==> #[trigger] final(heap).object(g) == old(heap).object(g),
            final(heap).allocated() == old(heap).allocated(),
    {
        ObjectSmartWeakRef(Some(heap.new_weak(native)))
    }

    /// The null weak reference.
    pub fn null() -> (r: ObjectSmartWeakRef)
        ensures
            r.0 is None,
    {
        ObjectSmartWeakRef(None)
    }

    /// A strong reference to the object, while it is alive; null once it
    /// was freed or for the null weak reference.
    pub fn to_smart(&self, heap: &mut VMHeap) -> (r: ObjectSmartRef)
        requires
            self.0 matches Some(w) ==> old(heap).weak_live(w) && (old(heap).weak_target(w).0 != 0 ==> old(
                heap,
            ).live(old(heap).weak_target(w).0)),
        ensures
            self.0 is None ==> r.0 is None && *final(heap) == *old(heap),
            self.0 matches Some(w) ==> {
                &&& r.raw() == old(heap).weak_target(w)
                &&& old(heap).weak_target(w).0 == 0 ==> *final(heap) == *old(heap)
                &&& old(heap).weak_target(w).0 != 0 ==> counted_up(
                    *old(heap),
                    *final(heap),
                    old(heap).weak_target(w).0,
                )
            },
    {
        match &self.0 {
            Some(w) => {
                let object = heap.weak_object(*w);
                ObjectSmartRef::new(heap, object)
            },
            None => ObjectSmartRef::null(),
        }
    }

    /// The handle of the object the weak reference points to; null once it
    /// was freed.
    pub fn as_raw(&self, heap: &VMHeap) -> (r: ObjectRef)
        requires
            self.0 matches Some(w) ==> heap.weak_live(w),
        ensures
            self.0 matches Some(w) ==> r == heap.weak_target(w),
            self.0 is None ==> r.0 == 0,
    {
        match &self.0 {
            Some(w) => heap.weak_object(*w),
            None => ObjectRef::null(),
        }
    }

    /// Another weak reference to the same object while it is alive; the
    /// null weak reference otherwise.
    pub fn clone(&self, heap: &mut VMHeap) -> (r: ObjectSmartWeakRef)
        requires
            self.0 matches Some(w) ==> old(heap).weak_live(w),
            old(heap).weak_cells() < u64::MAX,
        ensures
            self.0 is None ==> r.0 is None,
            self.0 matches Some(w) ==> {
                &&& old(heap).weak_target(w).0 == 0 ==> r.0 is None && *final(heap) == *old(heap)
                &&& old(heap).weak_target(w).0 != 0 ==> (r.0 matches Some(v) && final(heap).weak_live(v)
                    && final(heap).weak_target(v) == old(heap).weak_target(w))
            },
    {
        match &self.0 {
            Some(w) => {
                let object = heap.weak_object(*w);
                match object.try_deref() {
                    Some(nn) => Self::new(heap, nn),
                    None => Self::null(),
                }
            },
            None => Self::null(),
        }
    }

    /// Gives up this weak reference and its weak cell.
    pub fn release(self, heap: &mut VMHeap)
        requires
            self.0 matches Some(w) ==> old(heap).weak_live(w),
        ensures
            self.0 is None ==> *final(heap) == *old(heap),
            self.0 matches Some(w) ==> final(heap).weak_target(w).0 == 0,
            forall|g: u64| #[trigger] final(heap).live(g) == old(heap).live(g),
            forall|g: u64| old(heap).live(g) ==> #[trigger] final(heap).object(g) == old(heap).object(g),
    {
        match &self.0 {
            Some(w) => heap.drop_weak(*w),
            None => {},
        }
    }
}


/// Releasing a strong reference undoes taking it: the object's count is
/// back where it was, and the rest of the heap is as before.
pub proof fn lemma_release_undoes_clone(heap0: VMHeap, heap1: VMHeap, heap2: VMHeap, h: u64)
    requires
        counted_up(heap0, heap1, h),
        counted_down(heap1, heap2, h),
    ensures
        heap2.live(h),
        heap2.rc(h) == heap0.rc(h),
        heap2.object(h).class == heap0.object(h).class,
        heap2.object(h).fields == heap0.object(h).fields,
        heap2.same_except(&heap0, h),
        heap2.allocated() == heap0.allocated(),
{
}

/// Strong references taken (`true`: `new` or `clone`) less those given up
/// (`false`: `release`).
pub open spec fn net_count(steps: Seq<bool>) -> int
    decreases steps.len(),
{
    if steps.len() == 0 {
        0
    } else {
        net_count(steps.drop_last()) + if steps.last() {
            1int
        } else {
            -1int
        }
    }
}

/// Over a history of strong references to `h` taken and given up (`heaps`
/// are the heap states, `steps` says which each call was), where the count
/// never wraps, the count of `h` moves by exactly the references taken less
/// those given up; once every one taken is given up it is back where it
/// started. The object's class and fields stay as they were.
pub proof fn lemma_counts_balance(heaps: Seq<VMHeap>, steps: Seq<bool>, h: u64)
    requires
        heaps.len() == steps.len() + 1,
        forall|i: int, j: int|
            0 <= i && j == i + 1 && j < heaps.len() ==> (if #[trigger] steps[i] {
                counted_up(heaps[i], #[trigger] heaps[j], h) && heaps[i].rc(h) < u64::MAX
            } else {
                counted_down(heaps[i], heaps[j], h) && heaps[i].rc(h) > 0
            }),
    ensures
        heaps.last().rc(h) == heaps[0].rc(h) + net_count(steps),
        steps.len() > 0 ==> heaps.last().live(h) && heaps.last().object(h).class == heaps[0].object(h).class
            && heaps.last().object(h).fields == heaps[0].object(h).fields,
    decreases steps.len(),
{
    if steps.len() > 0 {
        let p = heaps.drop_last();
        let ps = steps.drop_last();
        assert forall|i: int, j: int| 0 <= i && j == i + 1 && j < p.len() implies (if #[trigger] ps[i] {
            counted_up(p[i], #[trigger] p[j], h) && p[i].rc(h) < u64::MAX
        } else {
            counted_down(p[i], p[j], h) && p[i].rc(h) > 0
        }) by {
            assert(steps[i] == ps[i] && heaps[j] == p[j]);
        }
        lemma_counts_balance(p, ps, h);
        let k = steps.len() - 1;
        assert(steps[k] == steps.last());
        assert(heaps[k + 1] == heaps.last());
    }
}

} // verus!
