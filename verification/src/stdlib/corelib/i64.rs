//! `std/core/I64`: objects that carry a 64-bit integer.

use vstd::prelude::*;
use crate::napi::ptr::ObjectSmartRefNN;
use crate::stdlib::corelib::object::{alloc_instance, allocated_instance};
use crate::text::last_index;
use crate::vm::heap::{string_eq_str, NativeData, ObjectRef, ObjectRefNN};
use crate::vm::module::{class_lookup, class_of, fresh_object, module_path_of};
use crate::vm::{VMError, VM};

verus! {

/// Allocates a `std/core/I64` holding `value`; the VM runs its `__init__`
/// next.
pub fn alloc_i64(vm: &mut VM, value: i64) -> (r: Result<ObjectSmartRefNN, VMError>)
    requires
        old(vm).heap.allocated() < u64::MAX,
    ensures
        final(vm).modules == old(vm).modules,
        class_lookup(old(vm).modules.modules@, "std/core/I64"@) matches Some(Some(c)) ==> (r matches Ok(x)
            && x.0.addr() == old(vm).heap.allocated() + 1 && final(vm).heap.live(x.0.addr())
            && final(vm).heap.object(x.0.addr()).class == c && final(vm).heap.object(x.0.addr()).native == NativeData::I64(value)
            && final(vm).heap.object(x.0.addr()).flags.rc == 1
            && final(vm).heap.object(x.0.addr()).fields.entries().len() == 0
            && final(vm).heap.same_except(&old(vm).heap, x.0.addr())
            && final(vm).heap.allocated() == old(vm).heap.allocated() + 1),
        !(class_lookup(old(vm).modules.modules@, "std/core/I64"@) matches Some(Some(_))) ==> allocated_instance(
            *old(vm),
            *final(vm),
            "std/core/I64"@,
            r,
        ),
{
    proof {
        reveal_strlit("std/core/I64");
        reveal_with_fuel(last_index, 5);
    }
    let object = match alloc_instance(vm, "std/core/I64") {
        Ok(o) => o,
        Err(e) => return Err(e),
    };
    let o = vm.heap.get_mut(object.0);
    o.native = NativeData::I64(value);
    Ok(object)
}

/// The class of the object `h` is `std/core/I64` of the module loaded as
/// `std/core`.
pub open spec fn is_core_i64(vm: VM, h: u64) -> bool {
    let c = vm.heap.object(h).class;
    &&& module_path_of(vm.modules.modules@, c.module_id) == Some("std/core"@)
    &&& class_of(vm.modules.modules@, c) matches Some(k) && k.name@ == "I64"@
}

/// The integer an object stands for where no call into it is needed: 0 for
/// null, the value a `std/core/I64` holds; `None` for any other object,
/// which the VM asks through its `__to_i64__` method.
pub fn i64_to_native(vm: &VM, value: ObjectRef) -> (r: Option<i64>)
    requires
        value.0 != 0 ==> vm.heap.live(value.0),
    ensures
        value.0 == 0 ==> r == Some(0i64),
        value.0 != 0 && is_core_i64(*vm, value.0) && vm.heap.object(value.0).native is I64 ==> r == Some(
            vm.heap.object(value.0).native->I64_0,
        ),
        value.0 != 0 && !(is_core_i64(*vm, value.0) && vm.heap.object(value.0).native is I64) ==> r is None,
{
    if value.0 == 0 {
        return Some(0);
    }
    let object = vm.heap.get(ObjectRefNN::new(value.0));
    let in_core = match vm.modules.path_of_module(object.class.module_id) {
        Some(path) => string_eq_str(path, "std/core"),
        None => false,
    };
    let is_i64 = match vm.modules.class_of(object.class) {
        Some(k) => string_eq_str(&k.name, "I64"),
        None => false,
    };
    if !(in_core && is_i64) {
        return None;
    }
    match &object.native {
        NativeData::I64(n) => Some(*n),
        _ => None,
    }
}

} // verus!
