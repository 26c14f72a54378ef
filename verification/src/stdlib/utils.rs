//! The module `std/utils`: a random number in a range.

use vstd::prelude::*;
use crate::napi::module::{FunctionBodyDef, FunctionDef, ModuleDef, NativeFunction};
use crate::vm::module::{load_outcome, napi_names_full, napi_parsed, ModuleRef, ParsedModule};
use crate::vm::{VMError, VM};

verus! {

/// `rand::random_range(from..to)`: a number drawn uniformly from
/// `from..to`. The range must not be empty (the crate panics on an empty
/// one); the result lies in it, and nothing more is claimed of it.
#[verifier::external_body]
fn sample_range(from: i64, to: i64) -> (r: i64)
    requires
        from < to,
    ensures
        from <= r < to,
{
    rand::random_range(from..to)
}

/// A random number in `from..to` (`std/utils`'s `random`). The range must
/// not be empty: `random` does not check it, so a caller that may hold an
/// empty range tests `from < to` first.
pub fn random(from: i64, to: i64) -> (r: i64)
    requires
        from < to,
    ensures
        from <= r < to,
{
    sample_range(from, to)
}

/// `r` defines the module `std/utils`: the native function
/// `random(from, to)`.
pub open spec fn is_utils_module_def(r: ModuleDef) -> bool {
    &&& r.path@ == "std/utils"@
    &&& r.uses@.len() == 0
    &&& r.functions@.len() == 1
    &&& r.functions@[0].name@ == "random"@
    &&& r.functions@[0].params@.len() == 2 && r.functions@[0].params@[0]@ == "from"@ && r.functions@[0].params@[1]@ == "to"@
    &&& r.functions@[0].body == FunctionBodyDef::Native(NativeFunction::UtilsRandom)
    &&& r.classes@.len() == 0
    &&& r.objects@.len() == 0
}

/// The definition of the module `std/utils` (see `is_utils_module_def`).
pub fn utils_module_def() -> (r: ModuleDef)
    ensures
        is_utils_module_def(r),
        napi_names_full(r),
{
    let mut params: Vec<String> = Vec::new();
    params.push(String::from_str("from"));
    params.push(String::from_str("to"));
    let mut functions: Vec<FunctionDef> = Vec::new();
    functions.push(FunctionDef { name: String::from_str("random"), params, body: FunctionBodyDef::Native(NativeFunction::UtilsRandom) });
    ModuleDef { path: String::from_str("std/utils"), uses: Vec::new(), functions, classes: Vec::new(), objects: Vec::new() }
}

/// Loads the module `std/utils` (see `utils_module_def`).
pub fn load(vm: &mut VM) -> (r: Result<ModuleRef, VMError>)
    requires
        old(vm).modules.wf(),
        old(vm).modules.next_id < u64::MAX,
        old(vm).heap.allocated() < u64::MAX,
    ensures
        exists|def: ModuleDef, p: ParsedModule| is_utils_module_def(def) && napi_parsed(p, def) && load_outcome(
            old(vm).modules,
            final(vm).modules,
            old(vm).heap,
            final(vm).heap,
            p,
            r,
        ),
{
    let def = utils_module_def();
    let ghost d = def;
    let r = vm.modules.load_napi_module(&mut vm.heap, def);
    assert(is_utils_module_def(d));
    r
}

/// Unloads the module `std/utils`, which holds nothing to release.
pub fn unload(vm: &mut VM) -> (r: Result<(), VMError>)
    ensures
        r is Ok,
        *final(vm) == *old(vm),
{
    Ok(())
}

} // verus!
