pub mod heap;
pub mod module;

use vstd::prelude::*;
use crate::napi::ptr::ObjectSmartRef;
use crate::vm::heap::VMHeap;
use crate::vm::module::VMModuleManager;

verus! {

/// Errors raised by the virtual machine and by the native interface.
#[derive(Debug)]
pub enum VMError {
    /// A null object was dereferenced.
    NullPointer,
    /// No module is loaded under the given path.
    ModuleNotFound(String),
    /// No class of the given name is loaded.
    ClassNotFound(String),
    /// No singleton object of the given name is loaded.
    ObjectNotFound(String),
    /// No method or function of the given name was found.
    MethodNotFound(String),
    /// An exception object is being thrown.
    Throwing(ObjectSmartRef),
}

/// The state of a virtual machine: its loaded modules and its object heap.
pub struct VM {
    pub modules: VMModuleManager,
    pub heap: VMHeap,
}

impl VM {
    /// The module registry is well formed and every singleton object has a
    /// live instance of its own class.
    pub open spec fn wf(&self) -> bool {
        &&& self.modules.wf()
        &&& self.modules.instances_live(&self.heap)
        &&& self.modules.instances_typed(&self.heap)
    }

    /// A machine with no module loaded and an empty heap.
    pub fn new() -> (r: VM)
        ensures
            r.wf(),
            r.modules.modules@.len() == 0,
            r.heap.allocated() == 0,
    {
        VM { modules: VMModuleManager::new(), heap: VMHeap::new() }
    }
}

} // verus!
