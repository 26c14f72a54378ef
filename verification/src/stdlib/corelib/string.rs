//! `std/core/String`: objects that carry a text.

use vstd::prelude::*;
use crate::napi::ptr::ObjectSmartRefNN;
use crate::stdlib::corelib::object::{alloc_instance, allocated_instance};
use crate::text::last_index;
use crate::vm::heap::{string_eq_str, NativeData, ObjectRef, ObjectRefNN};
use crate::vm::module::{class_lookup, class_of, module_path_of};
use crate::vm::{VMError, VM};

verus! {

/// Allocates a `std/core/String` holding `text`; the VM runs its `__init__`
/// next.
pub fn alloc_string(vm: &mut VM, text: String) -> (r: Result<ObjectSmartRefNN, VMError>)
    requires
        old(vm).heap.allocated() < u64::MAX,
    ensures
        final(vm).modules == old(vm).modules,
        class_lookup(old(vm).modules.modules@, "std/core/String"@) matches Some(Some(c)) ==> (r matches Ok(x)
            && x.0.addr() == old(vm).heap.allocated() + 1 && final(vm).heap.live(x.0.addr())
            && final(vm).heap.object(x.0.addr()).class == c && final(vm).heap.object(x.0.addr()).native == NativeData::Text(text)
            && final(vm).heap.object(x.0.addr()).flags.rc == 1
            && final(vm).heap.object(x.0.addr()).fields.entries().len() == 0
            && final(vm).heap.same_except(&old(vm).heap, x.0.addr())
            && final(vm).heap.allocated() == old(vm).heap.allocated() + 1),
        !(class_lookup(old(vm).modules.modules@, "std/core/String"@) matches Some(Some(_))) ==> allocated_instance(
            *old(vm),
            *final(vm),
            "std/core/String"@,
            r,
        ),
{
    proof {
        reveal_strlit("std/core/String");
        reveal_with_fuel(last_index, 8);
    }
    let object = match alloc_instance(vm, "std/core/String") {
        Ok(o) => o,
        Err(e) => return Err(e),
    };
    let o = vm.heap.get_mut(object.0);
    o.native = NativeData::Text(text);
    Ok(object)
}

/// The class of the object `h` is `std/core/String` of the module loaded
/// as `std/core`.
pub open spec fn is_core_string(vm: VM, h: u64) -> bool {
    let c = vm.heap.object(h).class;
    &&& module_path_of(vm.modules.modules@, c.module_id) == Some("std/core"@)
    &&& class_of(vm.modules.modules@, c) matches Some(k) && k.name@ == "String"@
}

/// The text a `std/core/String` holds. `None` for null and for any other
/// object: what those stand for is the VM's to find (for an object, through
/// its `__to_string__` method).
pub fn string_to_native(vm: &VM, value: ObjectRef) -> (r: Option<&String>)
    requires
        value.0 != 0 ==> vm.heap.live(value.0),
    ensures
        value.0 != 0 && is_core_string(*vm, value.0) && vm.heap.object(value.0).native is Text ==> (r matches Some(
            t,
        ) && *t == vm.heap.object(value.0).native->Text_0),
        !(value.0 != 0 && is_core_string(*vm, value.0) && vm.heap.object(value.0).native is Text) ==> r is None,
{
    if value.0 == 0 {
        return None;
    }
    let object = vm.heap.get(ObjectRefNN::new(value.0));
    let in_core = match vm.modules.path_of_module(object.class.module_id) {
        Some(path) => string_eq_str(path, "std/core"),
        None => false,
    };
    let is_string = match vm.modules.class_of(object.class) {
        Some(k) => string_eq_str(&k.name, "String"),
        None => false,
    };
    if !(in_core && is_string) {
        return None;
    }
    match &object.native {
        NativeData::Text(t) => Some(t),
        _ => None,
    }
}

} // verus!
