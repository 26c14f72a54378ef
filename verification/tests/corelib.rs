use ygvm::napi::module::{ClassDef, FunctionBodyDef, FunctionDef, ModuleDef, NativeFunction};
use ygvm::stdlib::corelib::bool::{alloc_bool, bool_eq, bool_eq_with, bool_from_json, bool_text, bool_to_json, bool_to_native};
use ygvm::stdlib::corelib::exception::{alloc_exception, exception_text, set_exception_message};
use ygvm::stdlib::corelib::f64::{alloc_f64_bits, f64_bits_to_native};
use ygvm::stdlib::corelib::i64::{alloc_i64, i64_to_native};
use ygvm::stdlib::corelib::string::{alloc_string, string_to_native};
use ygvm::stdlib::corelib::map::{
    alloc_map, map_eq, map_from_json, map_get, map_mark_targets, map_set, map_text, map_to_json, map_to_native,
    MapFromJson,
};
use ygvm::stdlib::corelib::object::{
    alloc_object, object_eq, object_from_json, object_hash, object_to_json, object_to_string, set_field, ObjectFromJson,
};
use ygvm::stdlib::json::{json_element_to_object, JsonNumber, JsonValue};
use ygvm::utils::map::HandleKeys;
use ygvm::vm::heap::{ClassRef, NativeData, ObjectRef, ObjectRefNN};
use ygvm::vm::{VMError, VM};

fn class(name: &str, extends: &[&str]) -> ClassDef {
    ClassDef { name: name.to_string(), extends: extends.iter().map(|e| e.to_string()).collect(), methods: vec![], allocation: 0 }
}

fn core_vm() -> VM {
    let mut vm = VM::new();
    let def = ModuleDef {
        path: "std/core".to_string(),
        uses: vec![],
        functions: vec![FunctionDef { name: "f".to_string(), params: vec![], body: FunctionBodyDef::Native(NativeFunction::Host(0)) }],
        classes: vec![class("Object", &[]), class("Map", &["std/core/Object"]), class("Exception", &["std/core/Object"]), class("Point", &[]), class("F64", &[]), class("String", &["std/core/Object"]), class("I64", &["std/core/Object"])],
        objects: vec![class("True", &["std/core/Object"]), class("False", &["std/core/Object"])],
    };
    assert!(vm.modules.load_napi_module(&mut vm.heap, def).is_ok());
    vm
}

fn s(text: &str) -> JsonValue {
    JsonValue::String(text.to_string())
}

fn num(n: i64) -> JsonValue {
    JsonValue::Number(JsonNumber::I64(n))
}

#[test]
fn bool_objects_round_trip() {
    let mut vm = core_vm();
    let t = alloc_bool(&mut vm, true).ok().unwrap();
    let f = alloc_bool(&mut vm, false).ok().unwrap();
    assert_eq!(t.0.get(), 1);
    assert_eq!(f.0.get(), 2);
    assert_eq!(bool_to_native(&vm, t.0.to_ref()), Some(true));
    assert_eq!(bool_to_native(&vm, f.0.to_ref()), Some(false));
    assert_eq!(bool_to_native(&vm, ObjectRef(0)), Some(false));
    let point = vm.heap.allocate(ClassRef { module_id: 1, index: 3, singleton: false });
    assert_eq!(bool_to_native(&vm, point.to_ref()), None);
}

#[test]
fn bool_objects_are_singletons() {
    let mut vm = core_vm();
    let t1 = alloc_bool(&mut vm, true).ok().unwrap();
    let o = alloc_object(&mut vm).ok().unwrap();
    let t2 = alloc_bool(&mut vm, true).ok().unwrap();
    assert_eq!(t1.0.get(), t2.0.get());
    assert_ne!(o.0.get(), t2.0.get());
    let f1 = alloc_bool(&mut vm, false).ok().unwrap();
    let f2 = alloc_bool(&mut vm, false).ok().unwrap();
    assert_eq!(f1.0.get(), f2.0.get());
}

#[test]
fn object_hashes() {
    let mut vm = core_vm();
    assert!(matches!(object_hash(&vm, &HandleKeys, ObjectRef(0)), Ok(0)));
    let a = alloc_object(&mut vm).ok().unwrap().0;
    set_field(&mut vm, a, "x".to_string(), ObjectRef(1));
    let b = alloc_object(&mut vm).ok().unwrap().0;
    set_field(&mut vm, b, "x".to_string(), ObjectRef(1));
    let ha = object_hash(&vm, &HandleKeys, a.to_ref()).ok().unwrap();
    let hb = object_hash(&vm, &HandleKeys, b.to_ref()).ok().unwrap();
    assert_eq!(ha, hb);
    set_field(&mut vm, b, "x".to_string(), ObjectRef(2));
    let hb2 = object_hash(&vm, &HandleKeys, b.to_ref()).ok().unwrap();
    assert_ne!(ha, hb2);
}

#[test]
fn alloc_bool_without_core_fails() {
    let mut vm = VM::new();
    match alloc_bool(&mut vm, true) {
        Err(VMError::ModuleNotFound(p)) => assert_eq!(p, "std/core"),
        other => panic!("unexpected {:?}", other),
    }
}

#[test]
fn bool_equality_and_text() {
    let mut vm = core_vm();
    let t = alloc_bool(&mut vm, true).ok().unwrap().0.to_ref();
    let f = alloc_bool(&mut vm, false).ok().unwrap().0.to_ref();
    assert_eq!(bool_eq(&vm, t, t), Some(true));
    assert_eq!(bool_eq(&vm, t, f), Some(false));
    assert_eq!(bool_eq(&vm, ObjectRef(0), ObjectRef(0)), Some(true));
    assert_eq!(bool_eq(&vm, t, ObjectRef(0)), Some(false));
    let point = vm.heap.allocate(ClassRef { module_id: 1, index: 3, singleton: false }).to_ref();
    assert_eq!(bool_eq(&vm, t, point), None);
    assert!(bool_eq_with(point, point, true, false));
    assert!(bool_eq_with(t, point, true, true));
    assert!(!bool_eq_with(t, point, true, false));
    assert!(!bool_eq_with(ObjectRef(0), point, false, false));
    assert_eq!(bool_text(true), "true");
    assert_eq!(bool_text(false), "false");
}

#[test]
fn bool_json() {
    let e = bool_to_json(true);
    let (c, v) = json_element_to_object(&e).ok().unwrap();
    assert_eq!(c, "std/core/Bool");
    assert_eq!(bool_from_json(v), Ok(true));
    assert_eq!(bool_from_json(&num(1)), Err("Bool from json parsing error"));
}

#[test]
fn objects_compare_by_class_and_fields() {
    let mut vm = core_vm();
    let a = alloc_object(&mut vm).ok().unwrap().0;
    let b = alloc_object(&mut vm).ok().unwrap().0;
    let x = vm.heap.allocate(ClassRef { module_id: 1, index: 3, singleton: false });
    let ops = HandleKeys;
    assert!(matches!(object_eq(&vm, &ops, a.to_ref(), b.to_ref()), Ok(true)));
    assert!(matches!(object_eq(&vm, &ops, a.to_ref(), x.to_ref()), Ok(false)));
    assert!(matches!(object_eq(&vm, &ops, a.to_ref(), ObjectRef(0)), Ok(false)));
    assert!(matches!(object_eq(&vm, &ops, ObjectRef(0), ObjectRef(0)), Ok(true)));
    set_field(&mut vm, a, "x".to_string(), ObjectRef(1));
    assert!(matches!(object_eq(&vm, &ops, a.to_ref(), b.to_ref()), Ok(false)));
    set_field(&mut vm, b, "x".to_string(), ObjectRef(1));
    assert!(matches!(object_eq(&vm, &ops, a.to_ref(), b.to_ref()), Ok(true)));
    set_field(&mut vm, b, "x".to_string(), ObjectRef(2));
    assert!(matches!(object_eq(&vm, &ops, a.to_ref(), b.to_ref()), Ok(false)));
    assert_eq!(vm.heap.get(b).fields.len(), 1);
}

#[test]
fn object_text() {
    let mut vm = core_vm();
    let a = alloc_object(&mut vm).ok().unwrap().0;
    assert_eq!(a.get(), 3);
    assert_eq!(object_to_string(&vm, a.to_ref()), "[Object] 3");
    assert_eq!(object_to_string(&vm, ObjectRef(0)), "null");
}

#[test]
fn exception_objects() {
    let mut vm = core_vm();
    let e = alloc_exception(&mut vm, "boom".to_string()).ok().unwrap().0;
    assert_eq!(vm.heap.get(e).class, ClassRef { module_id: 1, index: 2, singleton: false });
    assert_eq!(vm.heap.get(e).fields.len(), 1);
    let m = vm.heap.get(e).fields.get("message").unwrap();
    assert_eq!(m, ObjectRef(e.get() + 1));
    assert_eq!(vm.heap.get(ObjectRefNN::new(m.0)).class, ClassRef { module_id: 1, index: 5, singleton: false });
    assert_eq!(string_to_native(&vm, m), Some(&"boom".to_string()));
    set_exception_message(&mut vm, e, ObjectRef(1));
    assert_eq!(vm.heap.get(e).fields.get("message"), Some(ObjectRef(1)));
    assert_eq!(exception_text("boom"), "Exception: boom");
}

#[test]
fn exception_without_string_class() {
    let mut vm = VM::new();
    let def = ModuleDef {
        path: "std/core".to_string(),
        uses: vec![],
        functions: vec![],
        classes: vec![class("Object", &[]), class("Exception", &["std/core/Object"])],
        objects: vec![],
    };
    assert!(vm.modules.load_napi_module(&mut vm.heap, def).is_ok());
    match alloc_exception(&mut vm, "boom".to_string()) {
        Err(VMError::ClassNotFound(name)) => assert_eq!(name, "std/core/String"),
        _ => panic!("expected a missing class"),
    }
    match alloc_exception(&mut VM::new(), "boom".to_string()) {
        Err(VMError::ModuleNotFound(name)) => assert_eq!(name, "std/core"),
        _ => panic!("expected a missing module"),
    }
}

#[test]
fn integer_objects() {
    let mut vm = core_vm();
    let n = alloc_i64(&mut vm, -42).ok().unwrap().0;
    assert_eq!(vm.heap.get(n).class, ClassRef { module_id: 1, index: 6, singleton: false });
    assert_eq!(i64_to_native(&vm, n.to_ref()), Some(-42));
    assert_eq!(i64_to_native(&vm, ObjectRef(0)), Some(0));
    let o = alloc_object(&mut vm).ok().unwrap().0;
    assert_eq!(i64_to_native(&vm, o.to_ref()), None);
    match alloc_i64(&mut VM::new(), 1) {
        Err(VMError::ModuleNotFound(p)) => assert_eq!(p, "std/core"),
        _ => panic!("expected a missing module"),
    }
}

#[test]
fn string_objects() {
    let mut vm = core_vm();
    let t = alloc_string(&mut vm, "hello".to_string()).ok().unwrap().0;
    assert_eq!(string_to_native(&vm, t.to_ref()), Some(&"hello".to_string()));
    assert_eq!(string_to_native(&vm, ObjectRef(0)), None);
    let o = alloc_object(&mut vm).ok().unwrap().0;
    assert_eq!(string_to_native(&vm, o.to_ref()), None);
}

#[test]
fn object_json_round_trip() {
    let e = object_to_json("app/Point".to_string(), vec![("x".to_string(), num(1)), ("y".to_string(), s("two"))]);
    let (c, v) = json_element_to_object(&e).ok().unwrap();
    assert_eq!(c, "app/Point");
    match object_from_json(v) {
        ObjectFromJson::Object { class, fields, complete } => {
            assert_eq!(class, "app/Point");
            assert!(complete);
            assert_eq!(fields.len(), 2);
            assert_eq!(fields[0].0, "x");
            assert!(matches!(fields[0].1, JsonValue::Number(JsonNumber::I64(1))));
            assert_eq!(fields[1].0, "y");
        }
        _ => panic!("not an object"),
    }
}

#[test]
fn object_json_malformed() {
    assert!(matches!(object_from_json(&num(3)), ObjectFromJson::Malformed));
    assert_eq!(object_from_json(&num(3)).error(), Some("Object from json parsing error"));
    assert_eq!(object_from_json(&JsonValue::Array(vec![num(1), JsonValue::Null])).error(), None);
    assert!(matches!(object_from_json(&JsonValue::Array(vec![s("a")])), ObjectFromJson::Malformed));
    assert!(matches!(object_from_json(&JsonValue::Array(vec![num(1), JsonValue::Array(vec![])])), ObjectFromJson::Malformed));
    assert!(matches!(object_from_json(&JsonValue::Array(vec![num(1), JsonValue::Null])), ObjectFromJson::Null));
    match object_from_json(&JsonValue::Array(vec![s("m/C"), num(5)])) {
        ObjectFromJson::Object { fields, complete, .. } => {
            assert!(fields.is_empty());
            assert!(!complete);
        }
        _ => panic!("expected an object"),
    }
    let items = JsonValue::Array(vec![
        JsonValue::Array(vec![s("a"), num(1)]),
        JsonValue::Array(vec![num(2), num(1)]),
        JsonValue::Array(vec![s("c"), num(3)]),
    ]);
    match object_from_json(&JsonValue::Array(vec![s("m/C"), items])) {
        ObjectFromJson::Object { ref fields, complete, .. } => {
            assert_eq!(fields.len(), 1);
            assert!(!complete);
        }
        _ => panic!("expected an object"),
    }
}

#[test]
fn maps_store_and_compare() {
    let mut vm = core_vm();
    let ops = HandleKeys;
    let m1 = alloc_map(&mut vm, &ops, vec![(ObjectRef(1), ObjectRef(2)), (ObjectRef(2), ObjectRef(1)), (ObjectRef(1), ObjectRef(1))]).ok().unwrap().0;
    let m2 = alloc_map(&mut vm, &ops, vec![(ObjectRef(2), ObjectRef(1)), (ObjectRef(1), ObjectRef(1))]).ok().unwrap().0;
    assert!(matches!(map_get(&vm, &ops, m1, ObjectRef(1)), Ok(Some(ObjectRef(1)))));
    assert!(matches!(map_get(&vm, &ops, m1, ObjectRef(9)), Ok(None)));
    assert!(matches!(map_eq(&vm, &ops, m1.to_ref(), m2.to_ref()), Ok(true)));
    assert!(map_set(&mut vm, &ops, m2, ObjectRef(7), ObjectRef(0)).is_ok());
    assert!(matches!(map_get(&vm, &ops, m2, ObjectRef(7)), Ok(Some(ObjectRef(0)))));
    assert!(matches!(map_eq(&vm, &ops, m1.to_ref(), m2.to_ref()), Ok(false)));
    assert!(matches!(map_eq(&vm, &ops, ObjectRef(0), ObjectRef(0)), Ok(true)));
    let entries = map_to_native(&vm, m1.to_ref()).ok().unwrap().unwrap();
    assert_eq!(entries.len(), 2);
    assert!(entries.contains(&(ObjectRef(1), ObjectRef(1))));
    assert!(entries.contains(&(ObjectRef(2), ObjectRef(1))));
    let targets = map_mark_targets(&vm, m2);
    assert_eq!(targets.len(), 5);
    assert!(targets.contains(&ObjectRef(7)));
    assert!(!targets.contains(&ObjectRef(0)));
    let plain = alloc_object(&mut vm).ok().unwrap().0;
    assert!(matches!(map_to_native(&vm, plain.to_ref()), Ok(None)));
    assert!(matches!(map_to_native(&vm, ObjectRef(0)), Err(VMError::NullPointer)));
    assert!(matches!(vm.heap.get(m1).native, NativeData::Table(_)));
}

#[test]
fn map_text_lists_entries() {
    let pairs = vec![("1".to_string(), "a".to_string()), ("2".to_string(), "b".to_string())];
    assert_eq!(map_text(&pairs), "[(1, a), (2, b)]");
    assert_eq!(map_text(&vec![]), "[]");
}

#[test]
fn map_json_round_trip() {
    let e = map_to_json(vec![(num(1), s("a")), (num(2), s("b"))]);
    let (c, v) = json_element_to_object(&e).ok().unwrap();
    assert_eq!(c, "std/core/Map");
    match map_from_json(v) {
        MapFromJson::Entries { entries, complete } => {
            assert!(complete);
            assert_eq!(entries.len(), 2);
            assert!(matches!(entries[1].0, JsonValue::Number(JsonNumber::I64(2))));
        }
        MapFromJson::Malformed => panic!("malformed"),
    }
    assert!(matches!(map_from_json(&s("x")), MapFromJson::Malformed));
    assert_eq!(map_from_json(&s("x")).error(), Some("Map from json parsing error"));
    assert_eq!(map_from_json(&JsonValue::Array(vec![])).error(), None);
    match map_from_json(&JsonValue::Array(vec![JsonValue::Array(vec![num(1), num(2)]), JsonValue::Array(vec![num(1)])])) {
        MapFromJson::Entries { entries, complete } => {
            assert_eq!(entries.len(), 1);
            assert!(!complete);
        }
        MapFromJson::Malformed => panic!("malformed"),
    }
}

#[test]
fn doubles_keep_their_bits() {
    let mut vm = core_vm();
    let bits = 2.5f64.to_bits();
    let x = alloc_f64_bits(&mut vm, bits).ok().unwrap().0;
    assert_eq!(f64_bits_to_native(&vm, x.to_ref()), Some(bits));
    assert_eq!(f64_bits_to_native(&vm, ObjectRef(0)), Some(0));
    let plain = alloc_object(&mut vm).ok().unwrap().0;
    assert_eq!(f64_bits_to_native(&vm, plain.to_ref()), None);
    let mut empty = VM::new();
    assert!(matches!(alloc_f64_bits(&mut empty, bits), Err(VMError::ModuleNotFound(_))));
}
