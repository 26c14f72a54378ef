//! JSON values as the core library exchanges them, and the JSON forms of
//! the core types.
//!
//! An object is written as a JSON element: a JSON object with a `class`
//! member naming the class and a `value` member holding the class's own
//! encoding. Decoding an element hands its value to the class's
//! `__from_json__`.

use vstd::prelude::*;
use crate::napi::module::{ClassDef, FunctionBodyDef, FunctionDef, ModuleDef, NativeFunction};
use crate::napi::ptr::ObjectSmartRefNN;
use crate::stdlib::corelib::object::{alloc_instance, allocated_instance};
use crate::text::last_index;
use crate::vm::heap::{string_eq_str, NativeData, ObjectRef, ObjectRefNN};
use crate::vm::module::{
    class_lookup, class_of, is_full_name, load_outcome, module_path_of, napi_names_full, napi_parsed, ModuleRef,
    ParsedModule,
};
use crate::vm::{VMError, VM};

verus! {

/// A JSON number: a signed or unsigned integer, or a double given by its
/// IEEE-754 bits.
#[derive(Clone, Copy)]
pub enum JsonNumber {
    I64(i64),
    U64(u64),
    F64Bits(u64),
}

/// A JSON value. An object keeps its members in order, each key once.
pub enum JsonValue {
    Null,
    Bool(bool),
    Number(JsonNumber),
    String(String),
    Array(Vec<JsonValue>),
    Object(Vec<(String, JsonValue)>),
}


/// The first member of `members` named `key`.
pub open spec fn member(members: Seq<(String, JsonValue)>, key: Seq<char>) -> Option<JsonValue>
    decreases members.len(),
{
    if members.len() == 0 {
        None
    } else if members[0].0@ == key {
        Some(members[0].1)
    } else {
        member(members.drop_first(), key)
    }
}

/// The value of the first member of `members` named `key`.
pub fn find_member<'a>(members: &'a Vec<(String, JsonValue)>, key: &str) -> (r: Option<&'a JsonValue>)
    ensures
        member(members@, key@) matches Some(v) ==> r == Some(&v),
        member(members@, key@) is None ==> r is None,
{
    let n = members.len();
    let mut i: usize = 0;
    proof {
        lemma_skip_zero(members@);
    }
    while i < n
        invariant
            n == members@.len(),
            i <= n,
            member(members@, key@) == member(members@.skip(i as int), key@),
        decreases n - i,
    {
        proof {
            assert(members@.skip(i as int)[0] == members@[i as int]);
            assert(members@.skip(i as int).drop_first() =~= members@.skip(i + 1));
        }
        if string_eq_str(&members[i].0, key) {
            return Some(&members[i].1);
        }
        i = i + 1;
    }
    proof {
        assert(members@.skip(n as int) =~= Seq::<(String, JsonValue)>::empty());
    }
    None
}

proof fn lemma_skip_zero<A>(s: Seq<A>)
    ensures
        s.skip(0) == s,
{
    assert(s.skip(0) =~= s);
}

/// `e` is the JSON element of an object of class `class` whose encoding is
/// `value`: `{"class": class, "value": value}`.
pub open spec fn is_element(e: JsonValue, class: Seq<char>, value: JsonValue) -> bool {
    e matches JsonValue::Object(ms) && ms@.len() == 2 && ms@[0].0@ == "class"@ && (ms@[0].1 matches JsonValue::String(
        c,
    ) && c@ == class) && ms@[1].0@ == "value"@ && ms@[1].1 == value
}

/// The JSON element of an object of class `class` whose encoding is `value`.
pub fn element_json(class: String, value: JsonValue) -> (r: JsonValue)
    ensures
        is_element(r, class@, value),
{
    let mut members: Vec<(String, JsonValue)> = Vec::new();
    members.push((String::from_str("class"), JsonValue::String(class)));
    members.push((String::from_str("value"), value));
    JsonValue::Object(members)
}

/// The class name and encoding an element carries: its `class` member,
/// which must be a string, and its `value` member; `None` when the element
/// lacks either.
pub open spec fn element_parts(e: JsonValue) -> Option<(String, JsonValue)> {
    match e {
        JsonValue::Object(ms) => match (member(ms@, "class"@), member(ms@, "value"@)) {
            (Some(JsonValue::String(c)), Some(v)) => Some((c, v)),
            _ => None,
        },
        _ => None,
    }
}

/// How the VM turns a JSON element back into an object: `Ok((class, value))`
/// when the element carries a class name and an encoding (see
/// `element_parts`); the VM then wraps `value` in a raw JSON element and
/// passes it to the `__from_json__` of class `class`, whose result is the
/// object. An element that lacks either is an error, which the VM throws as
/// an exception with the message `Json parsing error`.
pub fn json_element_to_object(e: &JsonValue) -> (r: Result<(&String, &JsonValue), &'static str>)
    ensures
        element_parts(*e) matches Some((c, v)) ==> (r matches Ok((c2, v2)) && *c2 == c && *v2 == v),
        element_parts(*e) is None ==> (r matches Err(m) && m@ == "Json parsing error"@),
{
    match e {
        JsonValue::Object(members) => {
            let class = find_member(members, "class");
            let value = find_member(members, "value");
            match (class, value) {
                (Some(JsonValue::String(c)), Some(v)) => Ok((c, v)),
                _ => Err("Json parsing error"),
            }
        },
        _ => Err("Json parsing error"),
    }
}

/// The element of a null object: class `std/core/Object`, encoded as a
/// pair of that class name and null.
pub fn null_object_json() -> (r: JsonValue)
    ensures
        r matches JsonValue::Object(_) && element_parts(r) matches Some((c, v)) && c@ == "std/core/Object"@
            && (v matches JsonValue::Array(a) && a@.len() == 2 && (a@[0] matches JsonValue::String(s) && s@ == "std/core/Object"@)
            && a@[1] is Null),
{
    let mut pair: Vec<JsonValue> = Vec::new();
    pair.push(JsonValue::String(String::from_str("std/core/Object")));
    pair.push(JsonValue::Null);
    let r = element_json(String::from_str("std/core/Object"), JsonValue::Array(pair));
    proof {
        reveal_strlit("class");
        reveal_strlit("value");
        lemma_element_parts(r, "std/core/Object"@, JsonValue::Array(pair));
    }
    r
}

/// An element carries the class name and encoding it was made with.
pub proof fn lemma_element_parts(e: JsonValue, class: Seq<char>, value: JsonValue)
    requires
        is_element(e, class, value),
    ensures
        element_parts(e) matches Some((c, v)) && c@ == class && v == value,
{
    reveal_strlit("class");
    reveal_strlit("value");
    let ms = e->Object_0@;
    assert(ms.drop_first()[0] == ms[1]);
    assert("class"@[0] != "value"@[0]);
    assert("class"@ != "value"@);
    assert(member(ms, "class"@) == Some(ms[0].1));
    assert(member(ms.drop_first(), "value"@) == Some(ms[1].1));
    assert(member(ms, "value"@) == Some(ms[1].1));
}


/// Allocates a `std/json/JsonElement` holding `value` as it is; the VM runs
/// its `__init__` next.
pub fn alloc_json_element_raw(vm: &mut VM, value: JsonValue) -> (r: Result<ObjectSmartRefNN, VMError>)
    requires
        old(vm).heap.allocated() < u64::MAX,
    ensures
        final(vm).modules == old(vm).modules,
        class_lookup(old(vm).modules.modules@, "std/json/JsonElement"@) matches Some(Some(c)) ==> (r matches Ok(x)
            && x.0.addr() == old(vm).heap.allocated() + 1 && final(vm).heap.live(x.0.addr())
            && final(vm).heap.object(x.0.addr()).class == c && final(vm).heap.object(x.0.addr()).native == NativeData::Json(value)
            && final(vm).heap.object(x.0.addr()).flags.rc == 1
            && final(vm).heap.object(x.0.addr()).fields.entries().len() == 0
            && final(vm).heap.same_except(&old(vm).heap, x.0.addr())
            && final(vm).heap.allocated() == old(vm).heap.allocated() + 1),
        !(class_lookup(old(vm).modules.modules@, "std/json/JsonElement"@) matches Some(Some(_))) ==> allocated_instance(
            *old(vm),
            *final(vm),
            "std/json/JsonElement"@,
            r,
        ),
{
    proof {
        reveal_strlit("std/json/JsonElement");
        reveal_with_fuel(last_index, 13);
    }
    let object = alloc_instance(vm, "std/json/JsonElement")?;
    let o = vm.heap.get_mut(object.0);
    o.native = NativeData::Json(value);
    Ok(object)
}

/// Allocates a `std/json/JsonElement` holding the element of an object of
/// class `class` encoded as `value`; the VM runs its `__init__` next.
pub fn alloc_json_element(vm: &mut VM, class: String, value: JsonValue) -> (r: Result<ObjectSmartRefNN, VMError>)
    requires
        old(vm).heap.allocated() < u64::MAX,
    ensures
        final(vm).modules == old(vm).modules,
        class_lookup(old(vm).modules.modules@, "std/json/JsonElement"@) matches Some(Some(c)) ==> (r matches Ok(x)
            && x.0.addr() == old(vm).heap.allocated() + 1 && final(vm).heap.live(x.0.addr())
            && final(vm).heap.object(x.0.addr()).class == c && (final(vm).heap.object(x.0.addr()).native matches NativeData::Json(e)
            && is_element(e, class@, value))
            && final(vm).heap.same_except(&old(vm).heap, x.0.addr())
            && final(vm).heap.allocated() == old(vm).heap.allocated() + 1),
        !(class_lookup(old(vm).modules.modules@, "std/json/JsonElement"@) matches Some(Some(_))) ==> allocated_instance(
            *old(vm),
            *final(vm),
            "std/json/JsonElement"@,
            r,
        ),
{
    let e = element_json(class, value);
    alloc_json_element_raw(vm, e)
}

/// The class of the object `h` is `std/json/JsonElement` of the module
/// loaded as `std/json`.
pub open spec fn is_json_element(vm: VM, h: u64) -> bool {
    let c = vm.heap.object(h).class;
    &&& module_path_of(vm.modules.modules@, c.module_id) == Some("std/json"@)
    &&& class_of(vm.modules.modules@, c) matches Some(k) && k.name@ == "JsonElement"@
}

/// The JSON value a `std/json/JsonElement` holds, where no call into the
/// object is needed; `None` for an object of any other class, which the VM
/// asks through its `__to_json__` method. (The null object stands for the
/// element `null_object_json` gives.)
pub fn json_element_to_native(vm: &VM, value: ObjectRefNN) -> (r: Option<&JsonValue>)
    requires
        vm.heap.live(value.addr()),
    ensures
        is_json_element(*vm, value.addr()) && vm.heap.object(value.addr()).native is Json ==> r == Some(
            &vm.heap.object(value.addr()).native->Json_0,
        ),
        !(is_json_element(*vm, value.addr()) && vm.heap.object(value.addr()).native is Json) ==> r is None,
{
    let object = vm.heap.get(value);
    let in_json = match vm.modules.path_of_module(object.class.module_id) {
        Some(path) => string_eq_str(path, "std/json"),
        None => false,
    };
    let is_element_class = match vm.modules.class_of(object.class) {
        Some(k) => string_eq_str(&k.name, "JsonElement"),
        None => false,
    };
    if !(in_json && is_element_class) {
        return None;
    }
    match &object.native {
        NativeData::Json(v) => Some(v),
        _ => None,
    }
}

/// `r` defines the module `std/json`: the native functions `to_string`
/// and `from_string`, and the class `JsonElement`, which extends
/// `std/core/Object`, carries a JSON value as native data and has the native
/// methods `__init__`, `__uninit__` and `__to_json__`.
pub open spec fn is_json_module_def(r: ModuleDef) -> bool {
    &&& r.path@ == "std/json"@
    &&& r.uses@.len() == 0
    &&& r.functions@.len() == 2
    &&& r.functions@[0].name@ == "to_string"@ && r.functions@[0].params@.len() == 1 && r.functions@[0].params@[0]@ == "value"@
        && r.functions@[0].body == FunctionBodyDef::Native(NativeFunction::JsonToString)
    &&& r.functions@[1].name@ == "from_string"@ && r.functions@[1].params@.len() == 1 && r.functions@[1].params@[0]@ == "value"@
        && r.functions@[1].body == FunctionBodyDef::Native(NativeFunction::JsonFromString)
    &&& r.classes@.len() == 1
    &&& r.classes@[0].name@ == "JsonElement"@
    &&& r.classes@[0].extends@.len() == 1 && r.classes@[0].extends@[0]@ == "std/core/Object"@
    &&& r.classes@[0].methods@.len() == 3
    &&& r.classes@[0].methods@[0].name@ == "__init__"@ && r.classes@[0].methods@[0].params@.len() == 0
        && r.classes@[0].methods@[0].body == FunctionBodyDef::Native(NativeFunction::JsonElementInit)
    &&& r.classes@[0].methods@[1].name@ == "__uninit__"@ && r.classes@[0].methods@[1].params@.len() == 0
        && r.classes@[0].methods@[1].body == FunctionBodyDef::Native(NativeFunction::JsonElementUninit)
    &&& r.classes@[0].methods@[2].name@ == "__to_json__"@ && r.classes@[0].methods@[2].params@.len() == 0
        && r.classes@[0].methods@[2].body == FunctionBodyDef::Native(NativeFunction::JsonElementToJson)
    &&& r.classes@[0].allocation as nat == vstd::layout::size_of::<JsonValue>()
    &&& r.objects@.len() == 0
    &&& napi_names_full(r)
}

/// The definition of the module `std/json` (see `is_json_module_def`).
pub fn json_module_def() -> (r: ModuleDef)
    ensures
        is_json_module_def(r),
{
    let mut value_param: Vec<String> = Vec::new();
    value_param.push(String::from_str("value"));
    let mut value_param2: Vec<String> = Vec::new();
    value_param2.push(String::from_str("value"));
    let mut functions: Vec<FunctionDef> = Vec::new();
    functions.push(FunctionDef { name: String::from_str("to_string"), params: value_param, body: FunctionBodyDef::Native(NativeFunction::JsonToString) });
    functions.push(FunctionDef { name: String::from_str("from_string"), params: value_param2, body: FunctionBodyDef::Native(NativeFunction::JsonFromString) });
    let mut methods: Vec<FunctionDef> = Vec::new();
    methods.push(FunctionDef { name: String::from_str("__init__"), params: Vec::new(), body: FunctionBodyDef::Native(NativeFunction::JsonElementInit) });
    methods.push(FunctionDef { name: String::from_str("__uninit__"), params: Vec::new(), body: FunctionBodyDef::Native(NativeFunction::JsonElementUninit) });
    methods.push(FunctionDef { name: String::from_str("__to_json__"), params: Vec::new(), body: FunctionBodyDef::Native(NativeFunction::JsonElementToJson) });
    let mut extends: Vec<String> = Vec::new();
    extends.push(String::from_str("std/core/Object"));
    let mut classes: Vec<ClassDef> = Vec::new();
    classes.push(ClassDef { name: String::from_str("JsonElement"), extends, methods, allocation: core::mem::size_of::<JsonValue>() });
    let r = ModuleDef { path: String::from_str("std/json"), uses: Vec::new(), functions, classes, objects: Vec::new() };
    proof {
        reveal_strlit("std/core/Object");
        reveal_with_fuel(last_index, 8);
        assert(is_full_name(r.classes@[0].extends@[0]@));
    }
    r
}

/// Loads the module `std/json` (see `json_module_def`).
pub fn load(vm: &mut VM) -> (r: Result<ModuleRef, VMError>)
    requires
        old(vm).modules.wf(),
        old(vm).modules.next_id < u64::MAX,
        old(vm).heap.allocated() < u64::MAX,
    ensures
        exists|def: ModuleDef, p: ParsedModule| is_json_module_def(def) && napi_parsed(p, def) && load_outcome(
            old(vm).modules,
            final(vm).modules,
            old(vm).heap,
            final(vm).heap,
            p,
            r,
        ),
{
    let def = json_module_def();
    let ghost d = def;
    let r = vm.modules.load_napi_module(&mut vm.heap, def);
    assert(is_json_module_def(d));
    r
}

/// Unloads the module `std/json`, which holds nothing to release.
pub fn unload(vm: &mut VM) -> (r: Result<(), VMError>)
    ensures
        r is Ok,
        *final(vm) == *old(vm),
{
    Ok(())
}

} // verus!
