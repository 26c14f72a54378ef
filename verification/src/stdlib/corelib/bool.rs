//! Booleans of the core library: the singleton objects `std/core/True` and
//! `std/core/False`.

use vstd::prelude::*;
use crate::napi::ptr::ObjectSmartRefNN;
use crate::stdlib::json::{element_json, is_element, JsonValue};
use crate::text::last_index;
use crate::vm::heap::{string_eq_str, ObjectRef, ObjectRefNN, VMHeap};
use crate::vm::module::{
    class_of, id_index, Module, lemma_id_index, lemma_object_index_facts, module_index, module_part, module_path_of,
    name_part, object_found, object_index, lemma_module_index_facts,
};
use crate::vm::{VMError, VM};

verus! {

/// Full name of the singleton object standing for `value`.
pub open spec fn bool_object_name(value: bool) -> Seq<char> {
    if value {
        "std/core/True"@
    } else {
        "std/core/False"@
    }
}

/// The truth value an object stands for when that needs no call into it:
/// `false` for null, the value of the `True` and `False` objects of
/// `std/core`; `None` for any other object, which the VM asks through its
/// `__to_bool__` method.
pub open spec fn bool_value(vm: VM, value: ObjectRef) -> Option<bool> {
    if value.0 == 0 {
        Some(false)
    } else {
        let c = vm.heap.object(value.0).class;
        let k = class_of(vm.modules.modules@, c)->0;
        if module_path_of(vm.modules.modules@, c.module_id) == Some("std/core"@) {
            if k.name@ == "True"@ {
                Some(true)
            } else if k.name@ == "False"@ {
                Some(false)
            } else {
                None
            }
        } else {
            None
        }
    }
}

/// The singleton object standing for `value`, as a new strong reference.
pub fn alloc_bool(vm: &mut VM, value: bool) -> (r: Result<ObjectSmartRefNN, VMError>)
    requires
        old(vm).wf(),
    ensures
        final(vm).modules == old(vm).modules,
        object_found(old(vm).modules.modules@, old(vm).heap, final(vm).heap, bool_object_name(value), r),
{
    proof {
        reveal_strlit("std/core/True");
        reveal_strlit("std/core/False");
        reveal_with_fuel(last_index, 7);
    }
    let name = if value {
        "std/core/True"
    } else {
        "std/core/False"
    };
    vm.modules.find_object(&mut vm.heap, name)
}

/// The truth value `value` stands for, where no call into it is needed (see
/// `bool_value`).
pub fn bool_to_native(vm: &VM, value: ObjectRef) -> (r: Option<bool>)
    requires
        value.0 != 0 ==> vm.heap.live(value.0),
        value.0 != 0 ==> class_of(vm.modules.modules@, vm.heap.object(value.0).class) is Some,
    ensures
        r == bool_value(*vm, value),
{
    if value.0 == 0 {
        return Some(false);
    }
    let object = vm.heap.get(ObjectRefNN::new(value.0));
    let class = match vm.modules.class_of(object.class) {
        Some(k) => k,
        None => vstd::pervasive::unreached(),
    };
    let in_core = match vm.modules.path_of_module(object.class.module_id) {
        Some(path) => string_eq_str(path, "std/core"),
        None => false,
    };
    proof {
        if module_path_of(vm.modules.modules@, object.class.module_id) is Some {
            assert(in_core == (module_path_of(vm.modules.modules@, object.class.module_id) == Some("std/core"@)));
        }
    }
    if in_core {
        if string_eq_str(&class.name, "True") {
            Some(true)
        } else if string_eq_str(&class.name, "False") {
            Some(false)
        } else {
            None
        }
    } else {
        None
    }
}

/// A boolean read back from the object `alloc_bool` gave for it is the
/// boolean itself.
pub proof fn lemma_bool_round_trip(vm0: VM, vm1: VM, value: bool, r: Result<ObjectSmartRefNN, VMError>)
    requires
        vm0.wf(),
        vm1.modules == vm0.modules,
        object_found(vm0.modules.modules@, vm0.heap, vm1.heap, bool_object_name(value), r),
        r is Ok,
    ensures
        bool_value(vm1, (r->Ok_0).0.to_ref_spec()) == Some(value),
{
    reveal_strlit("std/core/True");
    reveal_strlit("std/core/False");
    reveal_strlit("std/core");
    reveal_strlit("True");
    reveal_strlit("False");
    reveal_with_fuel(last_index, 7);
    let mods = vm0.modules.modules@;
    let name = bool_object_name(value);
    assert(module_part(name) =~= "std/core"@);
    assert(name_part(name) =~= if value { "True"@ } else { "False"@ });
    let i = module_index(mods, module_part(name))->0;
    lemma_module_index_facts(mods, module_part(name));
    let j = object_index(mods[i].objects@, name_part(name))->0;
    lemma_object_index_facts(mods[i].objects@, name_part(name));
    let h = mods[i].objects@[j].instance.0;
    assert(mods[i].objects@.len() == mods[i].objects.len());
    assert(vm0.heap.live(h));
    vm0.heap.lemma_live_nonnull(h);
    assert(vm0.heap.object(h).class == crate::vm::heap::ClassRef { module_id: mods[i].id, index: j as usize, singleton: true });
    assert forall|k: int| 0 <= k < i implies (#[trigger] mods[k]).id != mods[i].id by {}
    lemma_id_index(mods, mods[i].id, i);
    assert(vm1.heap.object(h).class == vm0.heap.object(h).class);
    let c = vm1.heap.object(h).class;
    assert(id_index(mods, c.module_id) == Some(i));
    assert(c.index as int == j);
    assert(class_of(mods, c) == Some(mods[i].objects@[j].class));
    assert(module_path_of(mods, c.module_id) == Some(mods[i].path@));
    assert(mods[i].path@ == "std/core"@);
    assert(mods[i].objects@[j].class.name@ == name_part(name));
    assert("True"@ != "False"@);
    assert(h != 0);
}


/// The JSON element of a boolean: class `std/core/Bool`, encoded as the
/// JSON boolean.
pub fn bool_to_json(value: bool) -> (r: JsonValue)
    ensures
        is_element(r, "std/core/Bool"@, JsonValue::Bool(value)),
{
    element_json(String::from_str("std/core/Bool"), JsonValue::Bool(value))
}

/// The boolean an encoding holds (`std/core/Bool`'s `__from_json__`); an
/// encoding that is no JSON boolean is an error, which the VM throws as an
/// exception with the message `Bool from json parsing error`.
pub fn bool_from_json(v: &JsonValue) -> (r: Result<bool, &'static str>)
    ensures
        *v matches JsonValue::Bool(b) ==> r == Ok::<bool, &'static str>(b),
        !(v is Bool) ==> (r matches Err(m) && m@ == "Bool from json parsing error"@),
{
    match v {
        JsonValue::Bool(b) => Ok(*b),
        _ => Err("Bool from json parsing error"),
    }
}

/// What `std/core/Bool`'s `__eq__` decides without calling into the
/// objects: the same object (or both null) are equal, null differs from any
/// other object, and two objects whose truth values are known compare by
/// them. `None` when a truth value must be asked through `__to_bool__`.
pub open spec fn bool_eq_value(vm: VM, this: ObjectRef, other: ObjectRef) -> Option<bool> {
    if this == other {
        Some(true)
    } else if this.0 == 0 || other.0 == 0 {
        Some(false)
    } else {
        match (bool_value(vm, this), bool_value(vm, other)) {
            (Some(a), Some(b)) => Some(a == b),
            _ => None,
        }
    }
}

/// Decides `std/core/Bool`'s `__eq__` where no call into the objects is
/// needed (see `bool_eq_value`).
pub fn bool_eq(vm: &VM, this: ObjectRef, other: ObjectRef) -> (r: Option<bool>)
    requires
        this.0 != 0 ==> vm.heap.live(this.0) && class_of(vm.modules.modules@, vm.heap.object(this.0).class) is Some,
        other.0 != 0 ==> vm.heap.live(other.0) && class_of(vm.modules.modules@, vm.heap.object(other.0).class) is Some,
    ensures
        r == bool_eq_value(*vm, this, other),
{
    if this.0 == other.0 {
        return Some(true);
    }
    if this.0 == 0 || other.0 == 0 {
        return Some(false);
    }
    match (bool_to_native(vm, this), bool_to_native(vm, other)) {
        (Some(a), Some(b)) => Some(a == b),
        _ => None,
    }
}

/// `std/core/Bool`'s `__eq__` once the VM holds the truth value of each
/// operand (from `bool_to_native`, or from the operand's `__to_bool__`):
/// the same object (or both null) are equal, null differs from any other
/// object, and otherwise the truth values decide.
pub fn bool_eq_with(this: ObjectRef, other: ObjectRef, this_value: bool, other_value: bool) -> (r: bool)
    ensures
        r == (this == other || (this.0 != 0 && other.0 != 0 && this_value == other_value)),
{
    if this.0 == other.0 {
        true
    } else if this.0 == 0 || other.0 == 0 {
        false
    } else {
        this_value == other_value
    }
}

/// The text `std/core/Bool`'s `__to_string__` gives.
pub fn bool_text(value: bool) -> (r: &'static str)
    ensures
        r@ == if value { "true"@ } else { "false"@ },
{
    if value {
        "true"
    } else {
        "false"
    }
}

/// Asking twice for the object of one truth value, with the same modules
/// loaded, gives the same object both times (or fails both times): the
/// booleans are singletons, whatever the heap did in between.
pub proof fn lemma_alloc_bool_same_object(
    mods: Seq<Module>,
    heap0: VMHeap,
    heap1: VMHeap,
    heap2: VMHeap,
    heap3: VMHeap,
    value: bool,
    r1: Result<ObjectSmartRefNN, VMError>,
    r2: Result<ObjectSmartRefNN, VMError>,
)
    requires
        object_found(mods, heap0, heap1, bool_object_name(value), r1),
        object_found(mods, heap2, heap3, bool_object_name(value), r2),
    ensures
        r1 is Ok <==> r2 is Ok,
        r1 matches Ok(x1) ==> (r2 matches Ok(x2) && x1.0.addr() == x2.0.addr()),
{
}

} // verus!
