# ygvm

The runtime library of the YG language, verified with Verus: the object
heap and its counted references, the registry of loaded modules (loading,
hot swapping, class and method lookup), the VM's hash table, a reentrant
lock, the pretty printer of the syntax tree, and the parts of the core
library (`std/core`, `std/json`, `std/utils`) that decide without running
interpreted code.

- `src/` — the verified library. Every public function carries a contract;
  the laws that relate several functions are public proof functions
  (`lemma_*`).
- `tests/` — tests on concrete values.
- `app/` — the command-line driver: sockets, JSON text through serde_json,
  and the floating-point side of `std/core/F64`.

Native functions that call back into interpreted code are split: the
library decides what can be decided from the VM state and returns what the
VM has to do next (for example `object_from_json` returns the class and
the fields to set, `bool_to_native` returns `None` when the object must be
asked through `__to_bool__`).
