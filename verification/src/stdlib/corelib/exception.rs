//! `std/core/Exception`: objects that carry a `message` field.

use vstd::prelude::*;
use crate::napi::ptr::ObjectSmartRefNN;
use crate::stdlib::corelib::object::{alloc_instance, allocated_instance, field_set, set_field};
use crate::stdlib::corelib::string::alloc_string;
use crate::vm::heap::{ClassRef, NativeData, ObjectRef, ObjectRefNN, ObjectWeakRef};
use crate::vm::module::{class_error, class_lookup};
use crate::text::last_index;
use crate::vm::{VMError, VM};

verus! {

/// `vm1` is `vm0` with an exception `h` of class `c` and a string of class
/// `sc` holding `message` allocated after the others; the exception's only
/// field, `message`, names the string. Nothing else changed.
pub open spec fn exception_made(vm0: VM, vm1: VM, h: u64, c: ClassRef, sc: ClassRef, message: String) -> bool {
    let s = (vm0.heap.allocated() + 2) as u64;
    &&& vm1.modules == vm0.modules
    &&& h == vm0.heap.allocated() + 1
    &&& vm1.heap.allocated() == vm0.heap.allocated() + 2
    &&& vm1.heap.live(h)
    &&& vm1.heap.object(h).class == c
    &&& vm1.heap.object(h).native is Empty
    &&& vm1.heap.object(h).flags.rc == 1
    &&& vm1.heap.object(h).fields.wf()
    &&& vm1.heap.object(h).fields.entries() == seq![("message"@, ObjectRef(s))]
    &&& vm1.heap.live(s)
    &&& vm1.heap.object(s).class == sc
    &&& vm1.heap.object(s).native == NativeData::Text(message)
    &&& vm1.heap.object(s).flags.rc == 1
    &&& vm1.heap.object(s).fields.entries().len() == 0
    &&& forall|g: u64| g != h && g != s ==> (#[trigger] vm1.heap.live(g) <==> vm0.heap.live(g))
    &&& forall|g: u64| g != h && g != s && vm1.heap.live(g) ==> #[trigger] vm1.heap.object(g) == vm0.heap.object(g)
    &&& vm1.heap.weak_cells() == vm0.heap.weak_cells()
    &&& forall|w: ObjectWeakRef| #[trigger] vm1.heap.weak_target(w) == vm0.heap.weak_target(w)
}

/// Allocates an exception carrying `message`: an object of class
/// `std/core/Exception` whose field `message` is a new `std/core/String`
/// holding the text. The VM runs the exception's `__init__` next. Fails as
/// the class lookups fail: first that of `std/core/Exception` (nothing is
/// allocated then), then that of `std/core/String`.
pub fn alloc_exception(vm: &mut VM, message: String) -> (r: Result<ObjectSmartRefNN, VMError>)
    requires
        old(vm).heap.allocated() + 2 <= u64::MAX,
    ensures
        final(vm).modules == old(vm).modules,
        match class_lookup(old(vm).modules.modules@, "std/core/Exception"@) {
            Some(Some(c)) => match class_lookup(old(vm).modules.modules@, "std/core/String"@) {
                Some(Some(sc)) => r matches Ok(x) && exception_made(
                    *old(vm),
                    *final(vm),
                    x.0.addr(),
                    c,
                    sc,
                    message,
                ),
                _ => r matches Err(e) && class_error(old(vm).modules.modules@, "std/core/String"@, e),
            },
            _ => (r matches Err(e) && class_error(old(vm).modules.modules@, "std/core/Exception"@, e))
                && final(vm).heap == old(vm).heap,
        },
{
    proof {
        reveal_strlit("std/core/Exception");
        reveal_with_fuel(last_index, 11);
    }
    let ghost vm0 = *vm;
    let exception = match alloc_instance(vm, "std/core/Exception") {
        Ok(x) => x,
        Err(e) => return Err(e),
    };
    let ghost vm1 = *vm;
    let text = match alloc_string(vm, message) {
        Ok(x) => x,
        Err(e) => return Err(e),
    };
    let ghost vm2 = *vm;
    proof {
        assert(vm2.heap.object(exception.0.addr()) == vm1.heap.object(exception.0.addr()));
    }
    set_exception_message(vm, exception.0, text.0.to_ref());
    proof {
        let h = exception.0.addr();
        let s = text.0.addr();
        assert(vm.heap.object(h).fields.entries() =~= seq![("message"@, ObjectRef(s))]);
        assert(vm.heap.object(s) == vm2.heap.object(s));
    }
    Ok(exception)
}

/// Sets the `message` field of the exception `exception` to the string
/// object `message`, as the VM does once the exception is initialised and
/// its message made into a string.
pub fn set_exception_message(vm: &mut VM, exception: ObjectRefNN, message: ObjectRef)
    requires
        old(vm).heap.live(exception.addr()),
        old(vm).heap.object(exception.addr()).fields.wf(),
    ensures
        final(vm).modules == old(vm).modules,
        final(vm).heap.live(exception.addr()),
        final(vm).heap.same_except(&old(vm).heap, exception.addr()),
        final(vm).heap.allocated() == old(vm).heap.allocated(),
        field_set(old(vm).heap.object(exception.addr()), final(vm).heap.object(exception.addr()), "message"@, message),
{
    set_field(vm, exception, String::from_str("message"), message);
}

/// The text `std/core/Exception`'s `__to_string__` gives for a message.
pub fn exception_text(message: &str) -> (r: String)
    ensures
        r@ == "Exception: "@ + message@,
{
    let mut text = String::from_str("Exception: ");
    text.append(message);
    text
}

} // verus!
