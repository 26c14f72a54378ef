use ygvm::napi::ptr::{ObjectSmartRef, ObjectSmartRefNN, ObjectSmartWeakRef};
use ygvm::vm::heap::{ClassRef, ObjectRef, ObjectRefNN, VMHeap};
use ygvm::vm::VMError;

fn class() -> ClassRef {
    ClassRef { module_id: 1, index: 0, singleton: false }
}

#[test]
fn allocation_gives_successive_handles() {
    let mut heap = VMHeap::new();
    let a = heap.allocate(class());
    let b = heap.allocate(class());
    assert_eq!(a.get(), 1);
    assert_eq!(b.get(), 2);
    assert_eq!(heap.slot_count(), 2);
    assert!(heap.is_live(1) && heap.is_live(2));
    assert!(!heap.is_live(0) && !heap.is_live(3));
    assert_eq!(heap.get(a).flags.rc, 1);
    assert_eq!(heap.get(a).fields.len(), 0);
}

#[test]
fn references_count() {
    let mut heap = VMHeap::new();
    let a = heap.allocate(class());
    let r = ObjectSmartRef::new(&mut heap, a.to_ref());
    assert_eq!(heap.get(a).flags.rc, 2);
    let r2 = r.clone(&mut heap);
    assert_eq!(heap.get(a).flags.rc, 3);
    assert_eq!(r2.as_raw(), ObjectRef(1));
    r2.release(&mut heap);
    assert_eq!(heap.get(a).flags.rc, 2);
    let nn = r.deref().ok().unwrap();
    let nn2 = nn.clone(&mut heap);
    assert_eq!(heap.get(a).flags.rc, 3);
    nn2.release(&mut heap);
    nn.into().release(&mut heap);
    assert_eq!(heap.get(a).flags.rc, 1);
    let null = ObjectSmartRef::new(&mut heap, ObjectRef(0));
    assert!(null.is_null());
    assert!(matches!(null.deref(), Err(VMError::NullPointer)));
    assert!(ObjectSmartRefNN::try_deref(&mut heap, ObjectRef(0)).is_none());
}

#[test]
fn weak_references_clear_when_freed() {
    let mut heap = VMHeap::new();
    let a = heap.allocate(class());
    let strong = ObjectSmartRefNN::new(&mut heap, a);
    let weak = strong.to_weak(&mut heap);
    assert_eq!(weak.as_raw(&heap), ObjectRef(1));
    let again = weak.to_smart(&mut heap);
    assert_eq!(again.as_raw(), ObjectRef(1));
    again.release(&mut heap);
    heap.free(a);
    assert!(!heap.is_live(1));
    assert_eq!(weak.as_raw(&heap), ObjectRef(0));
    assert!(weak.to_smart(&mut heap).is_null());
    let null = ObjectSmartWeakRef::null();
    assert_eq!(null.as_raw(&heap), ObjectRef(0));
}

#[test]
fn handles() {
    assert!(ObjectRef::null().is_null());
    assert!(ObjectRef(3).try_deref().is_some());
    assert!(ObjectRef(0).try_deref().is_none());
    assert_eq!(ObjectRefNN::new(7).to_ref(), ObjectRef(7));
}
