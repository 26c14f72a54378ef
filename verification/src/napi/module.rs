//! Definitions of native modules, as native code hands them to the VM.

use vstd::prelude::*;
use crate::syntax::parser::Block;

verus! {

/// A native function of the runtime, named by the entry it has in the
/// host's table of native functions. The entries of the core library are
/// listed by name; a host adds its own under `Host`.
#[derive(Clone, Copy, PartialEq, Eq, Structural, Debug)]
pub enum NativeFunction {
    JsonToString,
    JsonFromString,
    JsonElementInit,
    JsonElementUninit,
    JsonElementToJson,
    UtilsRandom,
    Host(u64),
}

/// A module defined by native code.
pub struct ModuleDef {
    pub path: String,
    pub uses: Vec<String>,
    pub functions: Vec<FunctionDef>,
    pub classes: Vec<ClassDef>,
    pub objects: Vec<ClassDef>,
}

/// A class (or the class of a singleton object) defined by native code.
/// `allocation` is the number of bytes of native data each instance carries.
pub struct ClassDef {
    pub name: String,
    pub extends: Vec<String>,
    pub methods: Vec<FunctionDef>,
    pub allocation: usize,
}

/// A function defined by native code.
pub struct FunctionDef {
    pub name: String,
    pub params: Vec<String>,
    pub body: FunctionBodyDef,
}

/// The body of a natively defined function: interpreted code, or a native
/// function.
pub enum FunctionBodyDef {
    AST(Block),
    Native(NativeFunction),
}

} // verus!
