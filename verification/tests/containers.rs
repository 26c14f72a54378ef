use ygvm::napi::result::NativeResult;
use ygvm::utils::map::{HandleKeys, ObjectMap};
use ygvm::utils::memory::{Array, Boxed};
use ygvm::utils::mutex::Mutex;
use ygvm::utils::socket::decode_message;
use ygvm::vm::heap::ObjectRef;
use ygvm::vm::VMError;

fn o(n: u64) -> ObjectRef {
    ObjectRef(n)
}

#[test]
fn map_insert_get_remove() {
    let ops = HandleKeys;
    let mut m = ObjectMap::new();
    assert!(m.is_empty());
    assert!(matches!(m.insert(&ops, o(1), o(10)), Ok(None)));
    assert!(matches!(m.insert(&ops, o(2), o(20)), Ok(None)));
    assert!(matches!(m.insert(&ops, o(1), o(11)), Ok(Some(ObjectRef(10)))));
    assert_eq!(m.len(), 2);
    assert!(matches!(m.get(&ops, o(1)), Ok(Some(ObjectRef(11)))));
    assert!(matches!(m.contains_key(&ops, o(3)), Ok(false)));
    assert!(matches!(m.remove(&ops, o(1)), Ok(Some(ObjectRef(11)))));
    assert!(matches!(m.remove(&ops, o(1)), Ok(None)));
    assert_eq!(m.len(), 1);
    m.clear();
    assert!(m.is_empty());
    assert!(matches!(m.get(&ops, o(2)), Ok(None)));
    assert!(matches!(m.insert(&ops, o(2), o(5)), Ok(None)));
    assert!(matches!(m.get(&ops, o(2)), Ok(Some(ObjectRef(5)))));
}

#[test]
fn map_grows_and_keeps_entries() {
    let ops = HandleKeys;
    let mut m = ObjectMap::with_capacity(0);
    for i in 1..=100u64 {
        assert!(m.insert(&ops, o(i), o(i * 2)).is_ok());
    }
    assert_eq!(m.len(), 100);
    for i in 1..=100u64 {
        assert!(matches!(m.get(&ops, o(i)), Ok(Some(ObjectRef(v))) if v == i * 2));
    }
    let entries = m.to_vec();
    assert_eq!(entries.len(), 100);
    let mut it = m.iter();
    let mut n = 0;
    while let Some(_) = it.next() {
        n += 1;
    }
    assert_eq!(n, 100);
    let mut into = m.into_iter();
    let mut k = 0;
    while let Some(_) = into.next() {
        k += 1;
    }
    assert_eq!(k, 100);
}

#[test]
fn map_from_pairs() {
    let ops = HandleKeys;
    let m = ObjectMap::from_vec(&ops, vec![(o(1), o(1)), (o(1), o(2)), (o(3), o(4))]).ok().unwrap();
    assert_eq!(m.len(), 2);
    assert!(matches!(m.get(&ops, o(1)), Ok(Some(ObjectRef(2)))));
    let mut m2 = ObjectMap::from_iter(&ops, vec![(o(5), o(6))]).ok().unwrap();
    assert!(m2.extend_from_iter(&ops, vec![(o(7), o(8)), (o(5), o(9))]).is_ok());
    assert_eq!(m2.len(), 2);
    assert!(matches!(m2.get(&ops, o(5)), Ok(Some(ObjectRef(9)))));
}

#[test]
fn map_values_replaced_in_place() {
    let ops = HandleKeys;
    let mut m = ObjectMap::from_vec(&ops, vec![(o(1), o(1)), (o(2), o(2))]).ok().unwrap();
    let mut it = m.iter_mut();
    while let Some((k, _)) = it.next(&m) {
        it.set_value::<HandleKeys>(&mut m, ObjectRef(k.0 + 100));
    }
    assert!(matches!(m.get(&ops, o(1)), Ok(Some(ObjectRef(101)))));
    assert!(matches!(m.get(&ops, o(2)), Ok(Some(ObjectRef(102)))));
}

#[test]
fn memory_cells() {
    let mut b = Boxed::new(5u32);
    *b.as_raw_mut() = 6;
    assert_eq!(*b.as_raw(), 6);
    let a = Array::new(vec![1, 2, 3]);
    assert_eq!(a.len(), 3);
    assert_eq!(*a.get(1), 2);
    assert_eq!(a.as_raw(), &[1, 2, 3]);
    assert_eq!(Array::<u8>::empty().len(), 0);
    assert_eq!(Array::from_slice(&[4, 5]).len(), 2);
}

#[test]
fn mutex_is_reentrant() {
    let mut m = Mutex::new(1u32);
    let g = m.lock(1);
    assert!(m.try_raw_lock(1));
    assert!(!m.try_raw_lock(2));
    assert!(m.try_lock(2).is_none());
    m.unlock(1);
    assert!(!m.try_raw_lock(2));
    *m.guarded_mut(&g) = 5;
    assert_eq!(*m.guarded(&g), 5);
    m.release(g);
    assert!(m.try_raw_lock(2));
    m.unlock(2);
    assert_eq!(*m.get_mut(), 5);
    assert_eq!(*m.data_ptr(), 5);
    assert_eq!(m.into_inner(), 5);
}

#[test]
fn mutex_nested_holds() {
    let mut m = Mutex::new(7u32);
    assert!(m.try_raw_lock(3));
    assert!(m.try_raw_lock(3));
    assert!(m.try_raw_lock(3));
    assert!(!m.try_raw_lock(4));
    m.unlock(3);
    m.unlock(3);
    assert!(!m.try_raw_lock(4));
    m.unlock(3);
    assert!(m.try_raw_lock(4));
    m.unlock(4);
    assert_eq!(m.into_inner(), 7);
}

#[test]
fn mutex_keeps_last_write() {
    let mut m = Mutex::new(1u32);
    *m.get_mut() = 2;
    let g = m.lock(9);
    *m.guarded_mut(&g) = 3;
    m.release(g);
    assert_eq!(*m.data_ptr(), 3);
    assert_eq!(m.into_inner(), 3);
}

#[test]
fn native_results() {
    let ok = NativeResult::ok();
    assert!(ok.is_ok() && !ok.is_err());
    let err = NativeResult::err(VMError::NullPointer);
    assert!(err.is_err() && !err.is_ok());
}

#[test]
fn messages_are_decoded() {
    let mut bytes = b"Hello, World! \n".to_vec();
    bytes.extend_from_slice(&[0u8; 10]);
    assert_eq!(decode_message(bytes), Some("Hello, World!".to_string()));
    assert_eq!(decode_message(b"a\0b\0".to_vec()), Some("a\0b".to_string()));
    assert_eq!(decode_message(vec![0xff, 0xfe]), None);
    assert_eq!(decode_message(vec![]), Some(String::new()));
}
