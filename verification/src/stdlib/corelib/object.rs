//! `std/core/Object`, the root class, and the parts of its natives that do
//! not call back into the VM.

use vstd::prelude::*;
use std::hash::{DefaultHasher, Hasher};
use vstd::bytes::{spec_u64_to_le_bytes, u64_to_le_bytes};
use vstd::std_specs::hash::DefaultHasherAdditionalSpecFns;
use vstd::utf8::encode_utf8;
use crate::napi::ptr::ObjectSmartRefNN;
use crate::stdlib::json::{element_json, element_parts, is_element, JsonValue};
use crate::text::{int_text, last_index, push_digits};
use crate::utils::map::KeyOps;
use crate::vm::heap::{ClassRef, Fields, Object, ObjectRef, ObjectRefNN, VMHeap};
use crate::vm::module::{class_error, class_lookup, class_of, fresh_object, full_name, is_full_name, module_path_of};
use crate::vm::{VMError, VM};

verus! {

/// `r` is what allocating an object of class `name` gives: a fresh object
/// of the class, held by the one strong reference returned, or the error of
/// looking the class up.
pub open spec fn allocated_instance(vm0: VM, vm1: VM, name: Seq<char>, r: Result<ObjectSmartRefNN, VMError>) -> bool {
    &&& vm1.modules == vm0.modules
    &&& match class_lookup(vm0.modules.modules@, name) {
        Some(Some(c)) => r matches Ok(x) && x.0.addr() == vm0.heap.allocated() + 1 && fresh_object(
            vm1.heap,
            x.0.addr(),
            c,
        ) && vm1.heap.same_except(&vm0.heap, x.0.addr()) && vm1.heap.allocated() == vm0.heap.allocated() + 1,
        _ => (r matches Err(e) && class_error(vm0.modules.modules@, name, e)) && vm1.heap == vm0.heap,
    }
}

/// Allocates an object of the class of full name `class`, without running
/// its `__init__` (which the VM does next where the object needs it).
pub fn alloc_instance(vm: &mut VM, class: &str) -> (r: Result<ObjectSmartRefNN, VMError>)
    requires
        is_full_name(class@),
        old(vm).heap.allocated() < u64::MAX,
    ensures
        allocated_instance(*old(vm), *final(vm), class@, r),
{
    let c = vm.modules.find_class(class)?;
    let h = vm.heap.allocate(c);
    Ok(ObjectSmartRefNN(h))
}

/// Allocates a `std/core/Object`; the VM runs its `__init__` next.
pub fn alloc_object(vm: &mut VM) -> (r: Result<ObjectSmartRefNN, VMError>)
    requires
        old(vm).heap.allocated() < u64::MAX,
    ensures
        allocated_instance(*old(vm), *final(vm), "std/core/Object"@, r),
{
    proof {
        reveal_strlit("std/core/Object");
        reveal_with_fuel(last_index, 8);
    }
    alloc_instance(vm, "std/core/Object")
}

/// `after` is `before` with its field `name` set to `value`: an existing
/// field keeps its place, a new one comes last.
pub open spec fn field_set(before: Object, after: Object, name: Seq<char>, value: ObjectRef) -> bool {
    &&& after.class == before.class
    &&& after.flags == before.flags
    &&& after.native == before.native
    &&& after.fields.wf()
    &&& (exists|i: int| 0 <= i < before.fields.entries().len() && #[trigger] before.fields.entries()[i].0 == name)
        ==> exists|i: int|
        0 <= i < before.fields.entries().len() && #[trigger] before.fields.entries()[i].0 == name
            && after.fields.entries() == before.fields.entries().update(i, (name, value))
    &&& !(exists|i: int| 0 <= i < before.fields.entries().len() && #[trigger] before.fields.entries()[i].0 == name)
        ==> after.fields.entries() == before.fields.entries().push((name, value))
}

/// Sets the field `name` of the live object `object` to `value` (an
/// existing field keeps its place, a new one comes last).
pub fn set_field(vm: &mut VM, object: ObjectRefNN, name: String, value: ObjectRef)
    requires
        old(vm).heap.live(object.addr()),
        old(vm).heap.object(object.addr()).fields.wf(),
    ensures
        final(vm).modules == old(vm).modules,
        final(vm).heap.live(object.addr()),
        final(vm).heap.same_except(&old(vm).heap, object.addr()),
        final(vm).heap.allocated() == old(vm).heap.allocated(),
        field_set(old(vm).heap.object(object.addr()), final(vm).heap.object(object.addr()), name@, value),
{
    let o = vm.heap.get_mut(object);
    o.fields.insert(name, value);
}

/// The field at position `k` of `a` has a namesake in `b` with a value
/// equal under `T`.
pub open spec fn field_matched<T: KeyOps>(a: Fields, b: Fields, k: int) -> bool {
    exists|j: int|
        0 <= j < b.entries().len() && #[trigger] b.entries()[j].0 == a.entries()[k].0 && T::spec_eq(
            a.entries()[k].1,
            b.entries()[j].1,
        )
}

/// Fields `a` and `b` have the same names, and the values under each name
/// are equal under `T`.
pub open spec fn fields_equal<T: KeyOps>(a: Fields, b: Fields) -> bool {
    &&& a.entries().len() == b.entries().len()
    &&& forall|k: int| 0 <= k < a.entries().len() ==> #[trigger] field_matched::<T>(a, b, k)
}

/// Equality of objects as `std/core/Object` defines it: the same object,
/// or two objects of the same class whose fields are equal under `T`; null
/// equals only null.
pub open spec fn objects_equal<T: KeyOps>(heap: VMHeap, this: ObjectRef, other: ObjectRef) -> bool {
    if this == other {
        true
    } else if this.0 == 0 || other.0 == 0 {
        false
    } else {
        let a = heap.object(this.0);
        let b = heap.object(other.0);
        a.class == b.class && fields_equal::<T>(a.fields, b.fields)
    }
}

/// Two non-null objects of one class whose fields have the same names, the
/// values under each name being equal under `T`, are equal: field values
/// are compared through the VM's equality, whatever their handles.
pub proof fn lemma_objects_equal_by_values<T: KeyOps>(heap: VMHeap, this: ObjectRef, other: ObjectRef)
    requires
        this.0 != 0,
        other.0 != 0,
        heap.object(this.0).class == heap.object(other.0).class,
        heap.object(this.0).fields.entries().len() == heap.object(other.0).fields.entries().len(),
        forall|k: int|
            0 <= k < heap.object(this.0).fields.entries().len() ==> exists|j: int|
                0 <= j < heap.object(other.0).fields.entries().len() && (#[trigger] heap.object(
                    other.0,
                ).fields.entries()[j]).0 == (#[trigger] heap.object(this.0).fields.entries()[k]).0 && T::spec_eq(
                    heap.object(this.0).fields.entries()[k].1,
                    heap.object(other.0).fields.entries()[j].1,
                ),
    ensures
        objects_equal::<T>(heap, this, other),
{
    let fa = heap.object(this.0).fields;
    let fb = heap.object(other.0).fields;
    if this != other {
        assert forall|k: int| 0 <= k < fa.entries().len() implies #[trigger] field_matched::<T>(fa, fb, k) by {
            let ak = heap.object(this.0).fields.entries()[k];
            let j = choose|j: int|
                0 <= j < heap.object(other.0).fields.entries().len() && (#[trigger] heap.object(
                    other.0,
                ).fields.entries()[j]).0 == ak.0 && T::spec_eq(ak.1, heap.object(other.0).fields.entries()[j].1);
            assert(fb.entries()[j].0 == fa.entries()[k].0);
        }
    }
}

/// Conversely, in two equal distinct objects every field has a namesake in
/// the other whose value is equal to its own under `T`.
pub proof fn lemma_equal_objects_field_values<T: KeyOps>(heap: VMHeap, this: ObjectRef, other: ObjectRef, k: int)
    requires
        this != other,
        objects_equal::<T>(heap, this, other),
        0 <= k < heap.object(this.0).fields.entries().len(),
    ensures
        heap.object(this.0).class == heap.object(other.0).class,
        exists|j: int|
            0 <= j < heap.object(other.0).fields.entries().len() && (#[trigger] heap.object(
                other.0,
            ).fields.entries()[j]).0 == heap.object(this.0).fields.entries()[k].0 && T::spec_eq(
                heap.object(this.0).fields.entries()[k].1,
                heap.object(other.0).fields.entries()[j].1,
            ),
{
    let fa = heap.object(this.0).fields;
    let fb = heap.object(other.0).fields;
    assert(field_matched::<T>(fa, fb, k));
    let j = choose|j: int|
        0 <= j < fb.entries().len() && #[trigger] fb.entries()[j].0 == fa.entries()[k].0 && T::spec_eq(
            fa.entries()[k].1,
            fb.entries()[j].1,
        );
    assert(fb.entries()[j].0 == fa.entries()[k].0);
}

/// An object that is not null is live and its fields are well formed.
pub open spec fn object_ok(heap: VMHeap, o: ObjectRef) -> bool {
    o.0 != 0 ==> heap.live(o.0) && heap.object(o.0).fields.wf()
}

/// Compares two objects as `std/core/Object`'s `__eq__` does (see
/// `objects_equal`), calling the VM's equality on field values in field
/// order; the first failing call's error stops it.
pub fn object_eq<T: KeyOps>(vm: &VM, ops: &T, this: ObjectRef, other: ObjectRef) -> (r: Result<bool, VMError>)
    requires
        object_ok(vm.heap, this),
        object_ok(vm.heap, other),
    ensures
        r matches Ok(b) ==> b == objects_equal::<T>(vm.heap, this, other),
        this.0 == other.0 ==> r matches Ok(true),
        this.0 != other.0 && (this.0 == 0 || other.0 == 0) ==> r matches Ok(false),
        this.0 != other.0 && this.0 != 0 && other.0 != 0 && (vm.heap.object(this.0).class != vm.heap.object(other.0).class
            || vm.heap.object(this.0).fields.entries().len() != vm.heap.object(other.0).fields.entries().len())
            ==> r matches Ok(false),
        this.0 != 0 && other.0 != 0 && (forall|k: int, j: int|
            0 <= k < vm.heap.object(this.0).fields.entries().len() && 0 <= j < vm.heap.object(
                other.0,
            ).fields.entries().len() && vm.heap.object(other.0).fields.entries()[j].0 == vm.heap.object(
                this.0,
            ).fields.entries()[k].0 ==> #[trigger] T::eq_result(
                vm.heap.object(this.0).fields.entries()[k].1,
                vm.heap.object(other.0).fields.entries()[j].1,
            ) is Ok) ==> r is Ok,
        T::infallible() ==> r is Ok,
{
    if this.0 == other.0 {
        return Ok(true);
    }
    if this.0 == 0 || other.0 == 0 {
        return Ok(false);
    }
    let a = vm.heap.get(ObjectRefNN::new(this.0));
    let b = vm.heap.get(ObjectRefNN::new(other.0));
    if a.class != b.class || a.fields.len() != b.fields.len() {
        return Ok(false);
    }
    let n = a.fields.len();
    let mut i: usize = 0;
    while i < n
        invariant
            n == a.fields.entries().len(),
            n == b.fields.entries().len(),
            b.fields.wf(),
            this.0 != 0 && other.0 != 0 && this != other,
            *a == vm.heap.object(this.0),
            *b == vm.heap.object(other.0),
            a.class == b.class,
            i <= n,
            forall|k: int| 0 <= k < i ==> #[trigger] field_matched::<T>(a.fields, b.fields, k),
        decreases n - i,
    {
        let (name, v) = a.fields.at(i);
        match b.fields.get(name.as_str()) {
            Some(w) => {
                let equal = match ops.call_eq(v, w) {
                    Ok(e) => e,
                    Err(e) => {
                        proof {
                            let j2 = choose|j2: int| 0 <= j2 < b.fields.entries().len() && #[trigger] b.fields.entries()[j2] == (name@, w);
                            assert(b.fields.entries()[j2].0 == a.fields.entries()[i as int].0);
                            assert(T::eq_result(a.fields.entries()[i as int].1, b.fields.entries()[j2].1) is Err);
                        }
                        return Err(e);
                    },
                };
                if !equal {
                    proof {
                        assert forall|j: int| 0 <= j < b.fields.entries().len() && #[trigger] b.fields.entries()[j].0 == a.fields.entries()[i as int].0
                            implies !T::spec_eq(a.fields.entries()[i as int].1, b.fields.entries()[j].1) by {
                            let j2 = choose|j2: int| 0 <= j2 < b.fields.entries().len() && #[trigger] b.fields.entries()[j2] == (name@, w);
                            if j != j2 {
                                assert(b.fields.entries()[j].0 != b.fields.entries()[j2].0) by {
                                    b.fields.lemma_names_distinct(j, j2);
                                }
                            }
                        }
                    }
                    proof {
                        assert(!fields_equal::<T>(a.fields, b.fields)) by {
                            if fields_equal::<T>(a.fields, b.fields) {
                                assert(field_matched::<T>(a.fields, b.fields, i as int));
                            }
                        }
                    }
                    return Ok(false);
                }
                proof {
                    let j2 = choose|j2: int| 0 <= j2 < b.fields.entries().len() && #[trigger] b.fields.entries()[j2] == (name@, w);
                    assert(b.fields.entries()[j2].0 == a.fields.entries()[i as int].0);
                    assert(field_matched::<T>(a.fields, b.fields, i as int));
                }
            },
            None => {
                proof {
                    assert(!fields_equal::<T>(a.fields, b.fields)) by {
                        if fields_equal::<T>(a.fields, b.fields) {
                            let ii = i as int;
                            assert(field_matched::<T>(a.fields, b.fields, ii));
                            let j = choose|j: int|
                                0 <= j < b.fields.entries().len() && #[trigger] b.fields.entries()[j].0 == a.fields.entries()[ii].0
                                    && T::spec_eq(a.fields.entries()[ii].1, b.fields.entries()[j].1);
                            assert(b.fields.entries()[j].0 == name@);
                        }
                    }
                }
                return Ok(false);
            },
        }
        i = i + 1;
    }
    proof {
        assert(fields_equal::<T>(a.fields, b.fields));
        assert(this.0 != other.0);
    }
    Ok(true)
}

/// The text `std/core/Object`'s `__to_string__` gives an object:
/// `[ClassName] handle`, or `null`.
pub open spec fn object_text(class_name: Seq<char>, handle: u64) -> Seq<char> {
    seq!['['] + class_name + seq![']', ' '] + int_text(handle as int)
}

/// The text of an object as `std/core/Object`'s `__to_string__` gives it
/// (see `object_text`); `null` for the null object.
pub fn object_to_string(vm: &VM, this: ObjectRef) -> (r: String)
    requires
        this.0 != 0 ==> vm.heap.live(this.0) && class_of(vm.modules.modules@, vm.heap.object(this.0).class) is Some,
    ensures
        this.0 == 0 ==> r@ == "null"@,
        this.0 != 0 ==> r@ == object_text(class_of(vm.modules.modules@, vm.heap.object(this.0).class)->0.name@, this.0),
{
    if this.0 == 0 {
        return String::from_str("null");
    }
    let object = vm.heap.get(ObjectRefNN::new(this.0));
    let class = match vm.modules.class_of(object.class) {
        Some(k) => k,
        None => vstd::pervasive::unreached(),
    };
    let mut text = String::from_str("[");
    text.append(class.name.as_str());
    text.append("] ");
    push_digits(&mut text, this.0);
    proof {
        reveal_strlit("[");
        reveal_strlit("] ");
        assert(text@ =~= object_text(class.name@, this.0));
    }
    text
}


/// `v` is how `std/core/Object` encodes an object of class `class` with
/// the fields `fields` (name and JSON of each value, in order): the pair
/// `[class, [[name, value], ...]]`.
pub open spec fn object_encoding(v: JsonValue, class: Seq<char>, fields: Seq<(String, JsonValue)>) -> bool {
    v matches JsonValue::Array(a) && a@.len() == 2 && (a@[0] matches JsonValue::String(c) && c@ == class) && (
    a@[1] matches JsonValue::Array(items) && items@.len() == fields.len() && forall|k: int|
        0 <= k < fields.len() ==> (#[trigger] items@[k] matches JsonValue::Array(p) && p@.len() == 2 && (
        p@[0] matches JsonValue::String(n) && n@ == fields[k].0@) && p@[1] == fields[k].1))
}

/// The JSON element of an object of class `class` (a full name) with the
/// fields `fields`, each with the JSON of its value.
pub fn object_to_json(class: String, fields: Vec<(String, JsonValue)>) -> (r: JsonValue)
    ensures
        r matches JsonValue::Object(ms) && ms@.len() == 2 && is_element(r, class@, ms@[1].1) && object_encoding(
            ms@[1].1,
            class@,
            fields@,
        ),
{
    let ghost all = fields@;
    let mut items: Vec<JsonValue> = Vec::new();
    for field in it: fields
        invariant
            it.seq() == all,
            items@.len() == it.index(),
            forall|k: int| 0 <= k < items@.len() ==> (#[trigger] items@[k] matches JsonValue::Array(p) && p@.len() == 2 && (
            p@[0] matches JsonValue::String(n) && n@ == all[k].0@) && p@[1] == all[k].1),
    {
        let (name, value) = field;
        let mut pair: Vec<JsonValue> = Vec::new();
        pair.push(JsonValue::String(name));
        pair.push(value);
        items.push(JsonValue::Array(pair));
    }
    let mut encoding: Vec<JsonValue> = Vec::new();
    encoding.push(JsonValue::String(class.clone()));
    encoding.push(JsonValue::Array(items));
    element_json(class, JsonValue::Array(encoding))
}

/// What decoding an object from its encoding asks of the VM.
pub enum ObjectFromJson<'a> {
    /// The encoding is not a pair of a class name and a field list: the VM
    /// throws a parsing error.
    Malformed,
    /// The field list is null: the object is null.
    Null,
    /// The VM allocates an object of class `class` and sets the listed
    /// fields in order, each to the object decoded from its JSON. When
    /// `complete` is false, a malformed entry follows them (or the field
    /// list is no list), and the VM then throws a parsing error.
    Object { class: &'a String, fields: Vec<(&'a String, &'a JsonValue)>, complete: bool },
}

impl<'a> ObjectFromJson<'a> {
    /// The message of the exception the VM throws after carrying out this
    /// plan: `Object from json parsing error` for a malformed encoding or a
    /// malformed field entry, none for the null object and for an object
    /// whose entries are all well formed.
    pub fn error(&self) -> (r: Option<&'static str>)
        ensures
            (*self is Malformed || (*self matches ObjectFromJson::Object { complete, .. } && !complete)) <==> r is Some,
            r matches Some(m) ==> m@ == "Object from json parsing error"@,
    {
        match self {
            ObjectFromJson::Malformed => Some("Object from json parsing error"),
            ObjectFromJson::Null => None,
            ObjectFromJson::Object { complete, .. } => if *complete {
                None
            } else {
                Some("Object from json parsing error")
            },
        }
    }
}

/// An entry of a field list: a pair of a field name and a value.
pub open spec fn field_entry_ok(item: JsonValue) -> bool {
    item matches JsonValue::Array(p) && p@.len() == 2 && p@[0] is String
}

/// `fields` are the well-formed entries of `items` up to the first one
/// that is not, and `complete` tells whether all are.
pub open spec fn entries_prefix(items: Seq<JsonValue>, fields: Seq<(&String, &JsonValue)>, complete: bool) -> bool {
    &&& fields.len() <= items.len()
    &&& forall|k: int| 0 <= k < fields.len() ==> field_entry_ok(#[trigger] items[k]) && *fields[k].0 == items[k]->Array_0@[0]->String_0
        && *fields[k].1 == items[k]->Array_0@[1]
    &&& complete <==> fields.len() == items.len()
    &&& !complete ==> !field_entry_ok(items[fields.len() as int])
}

/// `r` is what `std/core/Object`'s `__from_json__` makes of the encoding
/// `v`: malformed unless `v` is a pair, null when its second part is null,
/// malformed unless its first part is a class name, and otherwise the class
/// with the well-formed prefix of the field list.
pub open spec fn object_decoded(v: JsonValue, r: ObjectFromJson) -> bool {
    if !(v matches JsonValue::Array(a) && a@.len() == 2) {
        r is Malformed
    } else {
        let a = v->Array_0@;
        if a[1] is Null {
            r is Null
        } else if !(a[0] is String) {
            r is Malformed
        } else {
            r matches ObjectFromJson::Object { class, fields, complete } && *class == a[0]->String_0 && if a[1] is Array {
                entries_prefix(a[1]->Array_0@, fields@, complete)
            } else {
                fields@.len() == 0 && !complete
            }
        }
    }
}

/// Decodes an object from its encoding (see `object_decoded`).
pub fn object_from_json(v: &JsonValue) -> (r: ObjectFromJson<'_>)
    ensures
        object_decoded(*v, r),
{
    let a = match v {
        JsonValue::Array(a) => a,
        _ => return ObjectFromJson::Malformed,
    };
    if a.len() != 2 {
        return ObjectFromJson::Malformed;
    }
    if let JsonValue::Null = &a[1] {
        return ObjectFromJson::Null;
    }
    let class = match &a[0] {
        JsonValue::String(class) => class,
        _ => return ObjectFromJson::Malformed,
    };
    let items = match &a[1] {
        JsonValue::Array(items) => items,
        _ => return ObjectFromJson::Object { class, fields: Vec::new(), complete: false },
    };
    let n = items.len();
    let mut fields: Vec<(&String, &JsonValue)> = Vec::new();
    let mut k: usize = 0;
    while k < n
        invariant
            n == items@.len(),
            k <= n,
            fields@.len() == k,
            v is Array,
            v->Array_0@.len() == 2,
            v->Array_0@[1] == JsonValue::Array(*items),
            v->Array_0@[0] == JsonValue::String(*class),
            forall|j: int| 0 <= j < k ==> field_entry_ok(#[trigger] items@[j]) && *fields@[j].0 == items@[j]->Array_0@[0]->String_0
                && *fields@[j].1 == items@[j]->Array_0@[1],
        decreases n - k,
    {
        let entry = match &items[k] {
            JsonValue::Array(p) => if p.len() == 2 {
                match &p[0] {
                    JsonValue::String(name) => Some((name, &p[1])),
                    _ => None,
                }
            } else {
                None
            },
            _ => None,
        };
        match entry {
            Some(e) => fields.push(e),
            None => return ObjectFromJson::Object { class, fields, complete: false },
        }
        k = k + 1;
    }
    ObjectFromJson::Object { class, fields, complete: true }
}

/// Decoding the encoding of an object gives back its class and all its
/// fields, in order.
pub proof fn lemma_object_json_round_trip(
    v: JsonValue,
    class: Seq<char>,
    fields: Seq<(String, JsonValue)>,
    r: ObjectFromJson,
)
    requires
        object_encoding(v, class, fields),
        object_decoded(v, r),
    ensures
        r matches ObjectFromJson::Object { class: c, fields: fs, complete } && complete && c@ == class && fs@.len()
            == fields.len() && forall|k: int|
            0 <= k < fields.len() ==> (#[trigger] fs@[k]).0@ == fields[k].0@ && *fs@[k].1 == fields[k].1,
{
    let a = v->Array_0@;
    let items = a[1]->Array_0@;
    assert forall|k: int| 0 <= k < items.len() implies field_entry_ok(#[trigger] items[k]) by {
        assert(items[k] matches JsonValue::Array(p) && p@.len() == 2);
    }
    let fs = r->Object_fields@;
    if fs.len() < items.len() {
        assert(field_entry_ok(items[fs.len() as int]));
    }
    assert forall|k: int| 0 <= k < fields.len() implies (#[trigger] fs[k]).0@ == fields[k].0@ && *fs[k].1 == fields[k].1 by {
        assert(items[k] matches JsonValue::Array(p) && p@.len() == 2);
    }
}

/// The element of a null object decodes to the null object.
pub proof fn lemma_null_json_round_trip(e: JsonValue, v: JsonValue, r: ObjectFromJson)
    requires
        element_parts(e) matches Some((c, x)) && x == v,
        v matches JsonValue::Array(a) && a@.len() == 2 && a@[1] is Null,
        object_decoded(v, r),
    ensures
        r is Null,
{
}


/// The full name `path/Name` of the class of the object `this`, as
/// `std/core/Object`'s `__to_json__` writes it.
pub fn object_class_name(vm: &VM, this: ObjectRefNN) -> (r: String)
    requires
        vm.heap.live(this.addr()),
        class_of(vm.modules.modules@, vm.heap.object(this.addr()).class) is Some,
        module_path_of(vm.modules.modules@, vm.heap.object(this.addr()).class.module_id) is Some,
    ensures
        r@ == full_name(
            module_path_of(vm.modules.modules@, vm.heap.object(this.addr()).class.module_id)->0,
            class_of(vm.modules.modules@, vm.heap.object(this.addr()).class)->0.name@,
        ),
{
    let object = vm.heap.get(this);
    let class = match vm.modules.class_of(object.class) {
        Some(k) => k,
        None => vstd::pervasive::unreached(),
    };
    let path = match vm.modules.path_of_module(object.class.module_id) {
        Some(p) => p,
        None => vstd::pervasive::unreached(),
    };
    let mut name = path.clone();
    name.append("/");
    name.append(class.name.as_str());
    proof {
        reveal_strlit("/");
        assert(name@ =~= full_name(path@, class.name@));
    }
    name
}

/// Feeds a module path to the hasher as `str`'s `Hash` does: its UTF-8
/// bytes, then the byte `0xff`.
fn hash_path(path: &String, state: &mut DefaultHasher)
    ensures
        final(state)@ == old(state)@.push(encode_utf8(path@)).push(seq![0xffu8]),
{
    let bytes = path.as_str().as_bytes_vec();
    state.write(bytes.as_slice());
    let mut end: Vec<u8> = Vec::new();
    end.push(0xffu8);
    state.write(end.as_slice());
}

/// Feeds a field hash to the hasher: its eight bytes, least significant
/// first, which is what `Hasher::write_i64` feeds on a little-endian
/// machine.
fn hash_i64(state: &mut DefaultHasher, value: i64)
    ensures
        final(state)@ == old(state)@.push(spec_u64_to_le_bytes(value as u64)),
{
    let bytes = u64_to_le_bytes(#[verifier::truncate] (value as u64));
    state.write(bytes.as_slice());
}

/// What `object_hash` feeds its hasher: the path of the class's module (when
/// it is loaded) as `hash_path` feeds it, then the hash under `T` of each
/// field value, in field order, as `hash_i64` feeds it.
pub open spec fn hash_input<T: KeyOps>(path: Option<Seq<char>>, fields: Seq<(Seq<char>, ObjectRef)>) -> Seq<Seq<u8>> {
    let head = match path {
        Some(p) => seq![encode_utf8(p), seq![0xffu8]],
        None => Seq::empty(),
    };
    head + fields.map_values(|f: (Seq<char>, ObjectRef)| spec_u64_to_le_bytes(T::spec_hash(f.1) as u64))
}

/// The hash `std/core/Object`'s `__hash__` gives an object whose class's
/// module has path `path` and whose fields are `fields`.
pub open spec fn object_hash_value<T: KeyOps>(path: Option<Seq<char>>, fields: Seq<(Seq<char>, ObjectRef)>) -> i64 {
    DefaultHasher::spec_finish(hash_input::<T>(path, fields)) as i64
}

/// The hash of an object depends only on the path of its class's module
/// and on the hashes under `T` of its field values, in order: two objects
/// that agree on those hash alike, whatever the handles of the values.
pub proof fn lemma_object_hash_by_field_hashes<T: KeyOps>(
    path: Option<Seq<char>>,
    a: Seq<(Seq<char>, ObjectRef)>,
    b: Seq<(Seq<char>, ObjectRef)>,
)
    requires
        a.len() == b.len(),
        forall|i: int| 0 <= i < a.len() ==> T::spec_hash(#[trigger] a[i].1) == T::spec_hash(b[i].1),
    ensures
        object_hash_value::<T>(path, a) == object_hash_value::<T>(path, b),
{
    let f = |f: (Seq<char>, ObjectRef)| spec_u64_to_le_bytes(T::spec_hash(f.1) as u64);
    assert(a.map_values(f) =~= b.map_values(f)) by {
        assert forall|i: int| 0 <= i < a.len() implies a.map_values(f)[i] == b.map_values(f)[i] by {
            assert(T::spec_hash(a[i].1) == T::spec_hash(b[i].1));
        }
    }
    assert(hash_input::<T>(path, a) =~= hash_input::<T>(path, b));
}

/// In particular, fields with values pairwise equal under `T` hash alike:
/// equal keys hash alike.
pub proof fn lemma_object_hash_equal_values<T: KeyOps>(
    path: Option<Seq<char>>,
    a: Seq<(Seq<char>, ObjectRef)>,
    b: Seq<(Seq<char>, ObjectRef)>,
)
    requires
        a.len() == b.len(),
        forall|i: int| 0 <= i < a.len() ==> T::spec_eq(#[trigger] a[i].1, b[i].1),
    ensures
        object_hash_value::<T>(path, a) == object_hash_value::<T>(path, b),
{
    assert forall|i: int| 0 <= i < a.len() implies T::spec_hash(#[trigger] a[i].1) == T::spec_hash(b[i].1) by {
        T::lemma_key_laws(a[i].1, b[i].1, b[i].1);
    }
    lemma_object_hash_by_field_hashes::<T>(path, a, b);
}

/// The error of the first field value, in field order, whose hash fails;
/// `None` when every hash succeeds.
pub open spec fn first_hash_error<T: KeyOps>(fields: Seq<(Seq<char>, ObjectRef)>) -> Option<VMError>
    decreases fields.len(),
{
    if fields.len() == 0 {
        None
    } else {
        match T::hash_result(fields[0].1) {
            Err(e) => Some(e),
            Ok(_) => first_hash_error::<T>(fields.drop_first()),
        }
    }
}

/// `std/core/Object`'s `__hash__`: 0 for null; otherwise std's
/// `DefaultHasher` fed the path of the module of the object's class and
/// then the hash of each field value (which the VM computes through its
/// `__hash__`), in field order. The first field hash that fails ends the
/// call with its error. The value itself is what `DefaultHasher` makes of
/// its input, which is std's and not stated here.
pub fn object_hash<T: KeyOps>(vm: &VM, ops: &T, this: ObjectRef) -> (r: Result<i64, VMError>)
    requires
        this.0 != 0 ==> vm.heap.live(this.0),
    ensures
        this.0 == 0 ==> r == Ok::<i64, VMError>(0),
        this.0 != 0 ==> match first_hash_error::<T>(vm.heap.object(this.0).fields.entries()) {
            Some(e) => r == Err::<i64, VMError>(e),
            None => r == Ok::<i64, VMError>(
                object_hash_value::<T>(
                    module_path_of(vm.modules.modules@, vm.heap.object(this.0).class.module_id),
                    vm.heap.object(this.0).fields.entries(),
                ),
            ),
        },
{
    if this.0 == 0 {
        return Ok(0);
    }
    let object = vm.heap.get(ObjectRefNN::new(this.0));
    let ghost path = module_path_of(vm.modules.modules@, object.class.module_id);
    let mut hasher = DefaultHasher::new();
    match vm.modules.path_of_module(object.class.module_id) {
        Some(p) => hash_path(p, &mut hasher),
        None => {},
    }
    let n = object.fields.len();
    let mut i: usize = 0;
    proof {
        assert(object.fields.entries().skip(0) =~= object.fields.entries());
        assert(hasher@ =~= hash_input::<T>(path, object.fields.entries().take(0)));
    }
    while i < n
        invariant
            this.0 != 0,
            *object == vm.heap.object(this.0),
            n == object.fields.entries().len(),
            i <= n,
            first_hash_error::<T>(object.fields.entries()) == first_hash_error::<T>(
                object.fields.entries().skip(i as int),
            ),
            path == module_path_of(vm.modules.modules@, object.class.module_id),
            hasher@ == hash_input::<T>(path, object.fields.entries().take(i as int)),
        decreases n - i,
    {
        let (_, value) = object.fields.at(i);
        proof {
            let rest = object.fields.entries().skip(i as int);
            assert(rest[0] == object.fields.entries()[i as int]);
            assert(rest.drop_first() =~= object.fields.entries().skip(i + 1));
        }
        let h = match ops.call_hash(value) {
            Ok(h) => h,
            Err(e) => return Err(e),
        };
        hash_i64(&mut hasher, h);
        proof {
            let es = object.fields.entries();
            assert(es.take(i + 1) =~= es.take(i as int).push(es[i as int]));
            assert(hash_input::<T>(path, es.take(i + 1)) =~= hash_input::<T>(path, es.take(i as int)).push(
                spec_u64_to_le_bytes(h as u64),
            ));
        }
        i = i + 1;
    }
    proof {
        assert(object.fields.entries().skip(n as int).len() == 0);
        assert(object.fields.entries().take(n as int) =~= object.fields.entries());
    }
    let value = hasher.finish();
    Ok(#[verifier::truncate] (value as i64))
}

} // verus!
