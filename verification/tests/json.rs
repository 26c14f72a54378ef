use ygvm::stdlib::corelib::object::{object_from_json, ObjectFromJson};
use ygvm::stdlib::json::{element_json, find_member, json_element_to_object, json_module_def, null_object_json, JsonValue};
use ygvm::stdlib::utils::{random, utils_module_def};
use ygvm::vm::module::ModuleRef;
use ygvm::vm::VM;

#[test]
fn element_parts_of_an_element() {
    let e = element_json("m/C".to_string(), JsonValue::Bool(false));
    let (c, v) = json_element_to_object(&e).ok().unwrap();
    assert_eq!(c, "m/C");
    assert!(matches!(v, JsonValue::Bool(false)));
}

#[test]
fn element_parts_need_class_and_value() {
    assert_eq!(json_element_to_object(&JsonValue::Null).err(), Some("Json parsing error"));
    let no_value = JsonValue::Object(vec![("class".to_string(), JsonValue::String("m/C".to_string()))]);
    assert!(json_element_to_object(&no_value).is_err());
    let bad_class = JsonValue::Object(vec![("class".to_string(), JsonValue::Null), ("value".to_string(), JsonValue::Null)]);
    assert!(json_element_to_object(&bad_class).is_err());
    let swapped = JsonValue::Object(vec![("value".to_string(), JsonValue::Null), ("class".to_string(), JsonValue::String("m/D".to_string()))]);
    assert_eq!(json_element_to_object(&swapped).ok().unwrap().0, "m/D");
}

#[test]
fn first_member_wins() {
    let members = vec![("a".to_string(), JsonValue::Bool(true)), ("a".to_string(), JsonValue::Bool(false))];
    assert!(matches!(find_member(&members, "a"), Some(JsonValue::Bool(true))));
    assert!(find_member(&members, "b").is_none());
}

#[test]
fn null_object_element() {
    let e = null_object_json();
    let (c, v) = json_element_to_object(&e).ok().unwrap();
    assert_eq!(c, "std/core/Object");
    match v {
        JsonValue::Array(a) => {
            assert_eq!(a.len(), 2);
            assert!(matches!(&a[0], JsonValue::String(s) if s == "std/core/Object"));
            assert!(matches!(a[1], JsonValue::Null));
        }
        _ => panic!("not a pair"),
    }
    assert!(matches!(object_from_json(v), ObjectFromJson::Null));
}

#[test]
fn module_definitions() {
    let json = json_module_def();
    assert_eq!(json.path, "std/json");
    assert_eq!(json.functions.len(), 2);
    assert_eq!(json.classes[0].name, "JsonElement");
    assert_eq!(json.classes[0].extends, vec!["std/core/Object".to_string()]);
    let utils = utils_module_def();
    assert_eq!(utils.path, "std/utils");
    assert_eq!(utils.functions[0].params, vec!["from".to_string(), "to".to_string()]);
    let mut vm = VM::new();
    assert!(matches!(ygvm::stdlib::utils::load(&mut vm), Ok(ModuleRef(1))));
    assert!(ygvm::stdlib::json::load(&mut vm).is_err());
}

#[test]
fn random_stays_in_range() {
    let mut seen = std::collections::HashSet::new();
    for _ in 0..200 {
        let r = random(-3, 4);
        assert!(-3 <= r && r < 4);
        seen.insert(r);
    }
    assert!(seen.len() > 1);
    assert_eq!(random(5, 6), 5);
}
