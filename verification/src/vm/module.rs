//! Loaded modules, their classes, functions and singleton objects.
//!
//! Modules are registered in load order and named by a load id that is
//! never reused. A class is named by a `ClassRef`: the load id of its
//! module, its index among the module's classes (or among its singleton
//! objects) and which of the two lists it sits in.

use vstd::prelude::*;
use crate::napi::module::{ClassDef, FunctionBodyDef, FunctionDef, ModuleDef, NativeFunction};
use crate::syntax::parser;
use crate::syntax::parser::Block;
use crate::napi::ptr::{counted_up, ObjectSmartRefNN};
use crate::text::{last_index, rsplit_once_char};
use crate::vm::heap::{string_eq_str, ClassRef, Object, ObjectRef, ObjectRefNN, ObjectWeakRef, VMHeap};
use crate::vm::VMError;

verus! {

/// The load id of a module; 0 names no module.
#[derive(Clone, Copy, PartialEq, Eq, Structural, Debug)]
pub struct ModuleRef(pub u64);

/// A function of a module or a method of a class: interpreted, or native
/// with the host's userdata token.
pub enum Function {
    VM { name: String, params: Vec<String>, body: Block },
    Native { name: String, params: Vec<String>, function: NativeFunction, userdata: u64 },
}

/// A loaded class. `allocation` is the number of bytes of native data each
/// instance carries.
pub struct Class {
    pub owner: ModuleRef,
    pub name: String,
    pub extends: Vec<ClassRef>,
    pub methods: Vec<Function>,
    pub allocation: usize,
}

/// A singleton object: its own class and its instance.
pub struct Singleton {
    pub class: Class,
    pub instance: ObjectRef,
}

/// A loaded module.
pub struct Module {
    pub id: u64,
    pub path: String,
    pub functions: Vec<Function>,
    pub classes: Vec<Class>,
    pub objects: Vec<Singleton>,
}

/// A module as parsed from its definition, before it is registered: the
/// classes and objects come with the names of the classes they extend,
/// which loading resolves.
pub struct ParsedModule {
    pub path: String,
    pub uses: Vec<String>,
    pub functions: Vec<Function>,
    pub classes: Vec<Class>,
    pub class_extends: Vec<Vec<String>>,
    pub objects: Vec<Singleton>,
    pub object_extends: Vec<Vec<String>>,
}

impl Function {
    /// The function's name.
    pub open spec fn spec_name(&self) -> Seq<char> {
        match self {
            Function::VM { name, .. } => name@,
            Function::Native { name, .. } => name@,
        }
    }

    /// The function's parameter names.
    pub open spec fn spec_params(&self) -> Seq<String> {
        match self {
            Function::VM { params, .. } => params@,
            Function::Native { params, .. } => params@,
        }
    }

    /// The function's name.
    pub fn name(&self) -> (r: &String)
        ensures
            r@ == self.spec_name(),
    {
        match self {
            Function::VM { name, .. } => name,
            Function::Native { name, .. } => name,
        }
    }

    /// The function's parameter names.
    pub fn params(&self) -> (r: &Vec<String>)
        ensures
            r@ == self.spec_params(),
    {
        match self {
            Function::VM { params, .. } => params,
            Function::Native { params, .. } => params,
        }
    }

    /// Whether the function is native.
    pub fn is_native(&self) -> (r: bool)
        ensures
            r == self is Native,
    {
        match self {
            Function::VM { .. } => false,
            Function::Native { .. } => true,
        }
    }
}

/// The function a native definition describes; a native one starts without
/// userdata.
pub open spec fn function_from_def(def: FunctionDef) -> Function {
    match def.body {
        FunctionBodyDef::AST(body) => Function::VM { name: def.name, params: def.params, body },
        FunctionBodyDef::Native(function) => Function::Native {
            name: def.name,
            params: def.params,
            function,
            userdata: 0,
        },
    }
}

/// The interpreted function a parsed function describes.
pub open spec fn function_from_ast(f: parser::Function) -> Function {
    Function::VM { name: f.name, params: f.params, body: f.body }
}

/// The interpreted function a parsed method describes.
pub open spec fn function_from_method(m: parser::Method) -> Function {
    Function::VM { name: m.name, params: m.params, body: m.body }
}

/// `c` is the class a native definition describes, not yet owned by a
/// module and extending nothing yet.
pub open spec fn class_from_def(c: Class, def: ClassDef) -> bool {
    &&& c.owner == ModuleRef(0)
    &&& c.name == def.name
    &&& c.extends@ == Seq::<ClassRef>::empty()
    &&& c.methods@ == def.methods@.map_values(|d: FunctionDef| function_from_def(d))
    &&& c.allocation == def.allocation
}

/// `c` is the class a parsed class describes, not yet owned by a module and
/// extending nothing yet; it carries no native data.
pub open spec fn class_from_ast(c: Class, def: parser::Class) -> bool {
    &&& c.owner == ModuleRef(0)
    &&& c.name == def.name
    &&& c.extends@ == Seq::<ClassRef>::empty()
    &&& c.methods@ == def.methods@.map_values(|m: parser::Method| function_from_method(m))
    &&& c.allocation == 0
}

/// The classes, extends lists and objects of a parsed module line up.
pub open spec fn parsed_wf(p: ParsedModule) -> bool {
    &&& p.classes@.len() == p.class_extends@.len()
    &&& p.objects@.len() == p.object_extends@.len()
}

/// Parses a native function definition.
pub fn module_parse_napi_function(function: FunctionDef) -> (r: Function)
    ensures
        r == function_from_def(function),
{
    match function.body {
        FunctionBodyDef::AST(body) => Function::VM { name: function.name, params: function.params, body },
        FunctionBodyDef::Native(native) => Function::Native {
            name: function.name,
            params: function.params,
            function: native,
            userdata: 0,
        },
    }
}

/// Parses a list of native function definitions, in order.
fn parse_napi_functions(defs: Vec<FunctionDef>) -> (r: Vec<Function>)
    ensures
        r@ == defs@.map_values(|d: FunctionDef| function_from_def(d)),
{
    let ghost all = defs@;
    let mut out: Vec<Function> = Vec::new();
    for d in it: defs
        invariant
            it.seq() == all,
            out@ == all.take(it.index() as int).map_values(|d: FunctionDef| function_from_def(d)),
    {
        let f = module_parse_napi_function(d);
        proof {
            assert(all.take(it.index() as int + 1) == all.take(it.index() as int).push(d));
        }
        out.push(f);
        proof {
            assert(out@ =~= all.take(it.index() as int + 1).map_values(|d: FunctionDef| function_from_def(d)));
        }
    }
    proof {
        assert(all.take(all.len() as int) =~= all);
    }
    out
}


/// Parses a native class definition into the class and the names of the
/// classes it extends.
pub fn module_parse_napi_class(class: ClassDef) -> (r: (Class, Vec<String>))
    ensures
        class_from_def(r.0, class),
        r.1@ == class.extends@,
{
    let ClassDef { name, extends, methods, allocation } = class;
    let methods = parse_napi_functions(methods);
    (Class { owner: ModuleRef(0), name, extends: Vec::new(), methods, allocation }, extends)
}

/// Parses native class definitions, in order.
fn parse_napi_classes(defs: Vec<ClassDef>) -> (r: (Vec<Class>, Vec<Vec<String>>))
    ensures
        r.0@.len() == defs@.len(),
        r.1@.len() == defs@.len(),
        forall|i: int| 0 <= i < defs@.len() ==> class_from_def(#[trigger] r.0@[i], defs@[i]) && r.1@[i]@ == defs@[i].extends@,
{
    let ghost all = defs@;
    let mut classes: Vec<Class> = Vec::new();
    let mut extends: Vec<Vec<String>> = Vec::new();
    for d in it: defs
        invariant
            it.seq() == all,
            classes@.len() == it.index(),
            extends@.len() == it.index(),
            forall|i: int| 0 <= i < classes@.len() ==> class_from_def(#[trigger] classes@[i], all[i]),
            forall|i: int| 0 <= i < extends@.len() ==> #[trigger] extends@[i]@ == all[i].extends@,
    {
        let (c, e) = module_parse_napi_class(d);
        classes.push(c);
        extends.push(e);
    }
    (classes, extends)
}

/// `o` is a singleton object whose class a native definition describes,
/// with no instance yet.
pub open spec fn object_from_def(o: Singleton, def: ClassDef) -> bool {
    class_from_def(o.class, def) && o.instance == ObjectRef(0)
}

/// Parses a native module definition. The classes extend nothing and the
/// objects have no instance until the module is loaded.
pub fn module_parse_napi(module: ModuleDef) -> (r: ParsedModule)
    ensures
        parsed_wf(r),
        r.path == module.path,
        r.uses == module.uses,
        r.functions@ == module.functions@.map_values(|d: FunctionDef| function_from_def(d)),
        r.classes@.len() == module.classes@.len(),
        forall|i: int| 0 <= i < module.classes@.len() ==> class_from_def(#[trigger] r.classes@[i], module.classes@[i])
            && r.class_extends@[i]@ == module.classes@[i].extends@,
        r.objects@.len() == module.objects@.len(),
        forall|i: int| 0 <= i < module.objects@.len() ==> object_from_def(#[trigger] r.objects@[i], module.objects@[i])
            && r.object_extends@[i]@ == module.objects@[i].extends@,
{
    let ModuleDef { path, uses, functions, classes, objects } = module;
    let functions = parse_napi_functions(functions);
    let (classes, class_extends) = parse_napi_classes(classes);
    let (object_classes, object_extends) = parse_napi_classes(objects);
    let ghost oc = object_classes@;
    let mut objects: Vec<Singleton> = Vec::new();
    for class in it: object_classes
        invariant
            it.seq() == oc,
            objects@.len() == it.index(),
            forall|i: int| 0 <= i < it.index() ==> (#[trigger] objects@[i]).class == oc[i] && objects@[i].instance == ObjectRef(0),
    {
        objects.push(Singleton { class, instance: ObjectRef::null() });
    }
    ParsedModule { path, uses, functions, classes, class_extends, objects, object_extends }
}

/// Parses a parsed class into the class and the names of the classes it
/// extends.
pub fn module_parse_ast_class(class: parser::Class) -> (r: (Class, Vec<String>))
    ensures
        class_from_ast(r.0, class),
        r.1@ == class.extends@,
{
    let parser::Class { name, extends, methods } = class;
    let ghost all = methods@;
    let mut functions: Vec<Function> = Vec::new();
    for m in it: methods
        invariant
            it.seq() == all,
            functions@ == all.take(it.index() as int).map_values(|m: parser::Method| function_from_method(m)),
    {
        proof {
            assert(all.take(it.index() as int + 1) == all.take(it.index() as int).push(m));
        }
        functions.push(Function::VM { name: m.name, params: m.params, body: m.body });
        proof {
            assert(functions@ =~= all.take(it.index() as int + 1).map_values(|m: parser::Method| function_from_method(m)));
        }
    }
    proof {
        assert(all.take(all.len() as int) =~= all);
    }
    (Class { owner: ModuleRef(0), name, extends: Vec::new(), methods: functions, allocation: 0 }, extends)
}

/// The functions of a parsed module's items, in order.
pub open spec fn ast_functions(items: Seq<parser::Item>) -> Seq<Function>
    decreases items.len(),
{
    if items.len() == 0 {
        Seq::empty()
    } else {
        let rest = ast_functions(items.drop_last());
        match items.last() {
            parser::Item::Function(f) => rest.push(function_from_ast(f)),
            _ => rest,
        }
    }
}

/// The classes of a parsed module's items, in order.
pub open spec fn ast_classes(items: Seq<parser::Item>) -> Seq<parser::Class>
    decreases items.len(),
{
    if items.len() == 0 {
        Seq::empty()
    } else {
        let rest = ast_classes(items.drop_last());
        match items.last() {
            parser::Item::Class(c) => rest.push(c),
            _ => rest,
        }
    }
}

/// The singleton objects of a parsed module's items, in order.
pub open spec fn ast_objects(items: Seq<parser::Item>) -> Seq<parser::Class>
    decreases items.len(),
{
    if items.len() == 0 {
        Seq::empty()
    } else {
        let rest = ast_objects(items.drop_last());
        match items.last() {
            parser::Item::Object(c) => rest.push(c),
            _ => rest,
        }
    }
}

/// Parses a source module: its functions, classes and objects in the order
/// of its items. The classes extend nothing and the objects have no
/// instance until the module is loaded.
pub fn module_parse_ast(module: parser::Module) -> (r: ParsedModule)
    ensures
        parsed_wf(r),
        r.path == module.path,
        r.uses == module.uses,
        r.functions@ == ast_functions(module.items@),
        r.classes@.len() == ast_classes(module.items@).len(),
        forall|i: int| 0 <= i < r.classes@.len() ==> class_from_ast(#[trigger] r.classes@[i], ast_classes(module.items@)[i])
            && r.class_extends@[i]@ == ast_classes(module.items@)[i].extends@,
        r.objects@.len() == ast_objects(module.items@).len(),
        forall|i: int| 0 <= i < r.objects@.len() ==> class_from_ast((#[trigger] r.objects@[i]).class, ast_objects(module.items@)[i])
            && r.objects@[i].instance == ObjectRef(0)
            && r.object_extends@[i]@ == ast_objects(module.items@)[i].extends@,
{
    let parser::Module { path, uses, items } = module;
    let ghost all = items@;
    let mut functions: Vec<Function> = Vec::new();
    let mut classes: Vec<Class> = Vec::new();
    let mut class_extends: Vec<Vec<String>> = Vec::new();
    let mut objects: Vec<Singleton> = Vec::new();
    let mut object_extends: Vec<Vec<String>> = Vec::new();
    for item in it: items
        invariant
            it.seq() == all,
            functions@ == ast_functions(all.take(it.index() as int)),
            classes@.len() == ast_classes(all.take(it.index() as int)).len(),
            class_extends@.len() == classes@.len(),
            forall|i: int| 0 <= i < classes@.len() ==> class_from_ast(#[trigger] classes@[i], ast_classes(all.take(it.index() as int))[i]),
            forall|i: int| 0 <= i < class_extends@.len() ==> #[trigger] class_extends@[i]@ == ast_classes(all.take(it.index() as int))[i].extends@,
            objects@.len() == ast_objects(all.take(it.index() as int)).len(),
            object_extends@.len() == objects@.len(),
            forall|i: int| 0 <= i < objects@.len() ==> class_from_ast((#[trigger] objects@[i]).class, ast_objects(all.take(it.index() as int))[i])
                && objects@[i].instance == ObjectRef(0),
            forall|i: int| 0 <= i < object_extends@.len() ==> #[trigger] object_extends@[i]@ == ast_objects(all.take(it.index() as int))[i].extends@,
    {
        let ghost k = it.index() as int;
        proof {
            assert(all.take(k + 1).drop_last() =~= all.take(k));
            assert(all.take(k + 1).last() == item);
        }
        match item {
            parser::Item::Function(f) => {
                functions.push(Function::VM { name: f.name, params: f.params, body: f.body });
            },
            parser::Item::Class(c) => {
                let (class, extends) = module_parse_ast_class(c);
                classes.push(class);
                class_extends.push(extends);
            },
            parser::Item::Object(c) => {
                let (class, extends) = module_parse_ast_class(c);
                objects.push(Singleton { class, instance: ObjectRef::null() });
                object_extends.push(extends);
            },
        }
    }
    proof {
        assert(all.take(all.len() as int) =~= all);
    }
    ParsedModule { path, uses, functions, classes, class_extends, objects, object_extends }
}


/// The position of the module loaded under `path`.
pub open spec fn module_index(mods: Seq<Module>, path: Seq<char>) -> Option<int>
    decreases mods.len(),
{
    if mods.len() == 0 {
        None
    } else if mods[0].path@ == path {
        Some(0)
    } else {
        match module_index(mods.drop_first(), path) {
            Some(i) => Some(i + 1),
            None => None,
        }
    }
}

/// `module_index` is the position before which no module has the path.
pub proof fn lemma_module_index(mods: Seq<Module>, path: Seq<char>, k: int)
    requires
        0 <= k <= mods.len(),
        k < mods.len() ==> mods[k].path@ == path,
        forall|j: int| 0 <= j < k ==> (#[trigger] mods[j]).path@ != path,
    ensures
        module_index(mods, path) == if k < mods.len() { Some(k) } else { None::<int> },
    decreases mods.len(),
{
    if mods.len() > 0 && k > 0 {
        assert(mods[0].path@ != path);
        assert forall|j: int| 0 <= j < k - 1 implies (#[trigger] mods.drop_first()[j]).path@ != path by {
            assert(mods.drop_first()[j] == mods[j + 1]);
        }
        lemma_module_index(mods.drop_first(), path, k - 1);
    }
}

/// What `module_index` gives: a module with the path and none before it.
pub proof fn lemma_module_index_facts(mods: Seq<Module>, path: Seq<char>)
    ensures
        module_index(mods, path) matches Some(k) ==> 0 <= k < mods.len() && mods[k].path@ == path && forall|j: int|
            0 <= j < k ==> (#[trigger] mods[j]).path@ != path,
        module_index(mods, path) is None ==> forall|j: int| 0 <= j < mods.len() ==> (#[trigger] mods[j]).path@ != path,
    decreases mods.len(),
{
    if mods.len() > 0 && mods[0].path@ != path {
        let t = mods.drop_first();
        lemma_module_index_facts(t, path);
        assert forall|j: int| 0 < j < mods.len() implies mods[j] == #[trigger] t[j - 1] by {}
        match module_index(t, path) {
            Some(k) => {
                assert forall|j: int| 0 <= j < k + 1 implies (#[trigger] mods[j]).path@ != path by {
                    if j > 0 {
                        assert(mods[j] == t[j - 1]);
                    }
                }
            },
            None => {
                assert forall|j: int| 0 <= j < mods.len() implies (#[trigger] mods[j]).path@ != path by {
                    if j > 0 {
                        assert(mods[j] == t[j - 1]);
                    }
                }
            },
        }
    }
}

/// Registering a module after the others leaves the positions of the
/// others' paths as they were.
pub proof fn lemma_module_index_push(mods: Seq<Module>, m: Module, path: Seq<char>)
    ensures
        module_index(mods.push(m), path) == match module_index(mods, path) {
            Some(i) => Some(i),
            None => if m.path@ == path { Some(mods.len() as int) } else { None::<int> },
        },
{
    lemma_module_index_facts(mods, path);
    let pushed = mods.push(m);
    assert forall|j: int| 0 <= j < mods.len() implies #[trigger] pushed[j] == mods[j] by {}
    match module_index(mods, path) {
        Some(i) => {
            lemma_module_index(pushed, path, i);
        },
        None => {
            if m.path@ == path {
                lemma_module_index(pushed, path, mods.len() as int);
            } else {
                lemma_module_index(pushed, path, pushed.len() as int);
            }
        },
    }
}

/// The position of the first class named `name`.
pub open spec fn class_index(classes: Seq<Class>, name: Seq<char>) -> Option<int>
    decreases classes.len(),
{
    if classes.len() == 0 {
        None
    } else if classes[0].name@ == name {
        Some(0)
    } else {
        match class_index(classes.drop_first(), name) {
            Some(i) => Some(i + 1),
            None => None,
        }
    }
}

/// The position of the first singleton object whose class is named `name`.
pub open spec fn object_index(objects: Seq<Singleton>, name: Seq<char>) -> Option<int>
    decreases objects.len(),
{
    if objects.len() == 0 {
        None
    } else if objects[0].class.name@ == name {
        Some(0)
    } else {
        match object_index(objects.drop_first(), name) {
            Some(i) => Some(i + 1),
            None => None,
        }
    }
}

/// `class_index` is the position before which no class has the name.
pub proof fn lemma_class_index(classes: Seq<Class>, name: Seq<char>, k: int)
    requires
        0 <= k <= classes.len(),
        k < classes.len() ==> classes[k].name@ == name,
        forall|j: int| 0 <= j < k ==> (#[trigger] classes[j]).name@ != name,
    ensures
        class_index(classes, name) == if k < classes.len() { Some(k) } else { None::<int> },
    decreases classes.len(),
{
    if classes.len() > 0 && k > 0 {
        assert(classes[0].name@ != name);
        assert forall|j: int| 0 <= j < k - 1 implies (#[trigger] classes.drop_first()[j]).name@ != name by {
            assert(classes.drop_first()[j] == classes[j + 1]);
        }
        lemma_class_index(classes.drop_first(), name, k - 1);
    }
}

/// `object_index` is the position before which no object has the name.
pub proof fn lemma_object_index(objects: Seq<Singleton>, name: Seq<char>, k: int)
    requires
        0 <= k <= objects.len(),
        k < objects.len() ==> objects[k].class.name@ == name,
        forall|j: int| 0 <= j < k ==> (#[trigger] objects[j]).class.name@ != name,
    ensures
        object_index(objects, name) == if k < objects.len() { Some(k) } else { None::<int> },
    decreases objects.len(),
{
    if objects.len() > 0 && k > 0 {
        assert(objects[0].class.name@ != name);
        assert forall|j: int| 0 <= j < k - 1 implies (#[trigger] objects.drop_first()[j]).class.name@ != name by {
            assert(objects.drop_first()[j] == objects[j + 1]);
        }
        lemma_object_index(objects.drop_first(), name, k - 1);
    }
}

/// What `object_index` gives: an object of that class name and none before.
pub proof fn lemma_object_index_facts(objects: Seq<Singleton>, name: Seq<char>)
    ensures
        object_index(objects, name) matches Some(k) ==> 0 <= k < objects.len() && objects[k].class.name@ == name,
    decreases objects.len(),
{
    if objects.len() > 0 && objects[0].class.name@ != name {
        lemma_object_index_facts(objects.drop_first(), name);
    }
}

/// What `class_index` gives: a class of that name.
pub proof fn lemma_class_index_facts(classes: Seq<Class>, name: Seq<char>)
    ensures
        class_index(classes, name) matches Some(k) ==> 0 <= k < classes.len() && classes[k].name@ == name,
    decreases classes.len(),
{
    if classes.len() > 0 && classes[0].name@ != name {
        lemma_class_index_facts(classes.drop_first(), name);
    }
}

/// The module path of a full name `path/Name`.
pub open spec fn module_part(name: Seq<char>) -> Seq<char> {
    name.subrange(0, last_index(name, '/'))
}

/// The last segment of a full name `path/Name`.
pub open spec fn name_part(name: Seq<char>) -> Seq<char> {
    name.subrange(last_index(name, '/') + 1, name.len() as int)
}

/// A full name `path/Name` has a `/`.
pub open spec fn is_full_name(name: Seq<char>) -> bool {
    last_index(name, '/') >= 0
}

/// Looking up the class of full name `name`: `None` when its module is not
/// loaded, `Some(None)` when the module has no such class.
pub open spec fn class_lookup(mods: Seq<Module>, name: Seq<char>) -> Option<Option<ClassRef>> {
    match module_index(mods, module_part(name)) {
        None => None,
        Some(i) => Some(
            match class_index(mods[i].classes@, name_part(name)) {
                Some(j) => Some(ClassRef { module_id: mods[i].id, index: j as usize, singleton: false }),
                None => None,
            },
        ),
    }
}

/// `e` is the error `find_class` raises for `name`.
pub open spec fn class_error(mods: Seq<Module>, name: Seq<char>, e: VMError) -> bool {
    match class_lookup(mods, name) {
        None => e matches VMError::ModuleNotFound(s) && s@ == module_part(name),
        Some(_) => e matches VMError::ClassNotFound(s) && s@ == name,
    }
}

/// `r` is what looking up the singleton object of full name `name` gives:
/// a new strong reference to its instance, `ObjectNotFound` or
/// `ModuleNotFound`.
pub open spec fn object_found(
    mods: Seq<Module>,
    heap0: VMHeap,
    heap1: VMHeap,
    name: Seq<char>,
    r: Result<ObjectSmartRefNN, VMError>,
) -> bool {
    match module_index(mods, module_part(name)) {
        None => (r matches Err(VMError::ModuleNotFound(s)) && s@ == module_part(name)) && heap1 == heap0,
        Some(i) => match object_index(mods[i].objects@, name_part(name)) {
            Some(j) => r matches Ok(x) && x.0.addr() == mods[i].objects@[j].instance.0 && counted_up(heap0, heap1, x.0.addr()),
            None => (r matches Err(VMError::ObjectNotFound(s)) && s@ == name) && heap1 == heap0,
        },
    }
}

/// The path of the module of load id `id`.
pub open spec fn module_path_of(mods: Seq<Module>, id: u64) -> Option<Seq<char>> {
    match id_index(mods, id) {
        Some(i) => Some(mods[i].path@),
        None => None,
    }
}

/// The registry of loaded modules.
pub struct VMModuleManager {
    pub modules: Vec<Module>,
    pub next_id: u64,
}

impl VMModuleManager {
    /// Paths are distinct, and load ids are distinct, nonzero and below the
    /// next one.
    pub open spec fn wf(&self) -> bool {
        &&& self.next_id > 0
        &&& forall|i: int, j: int|
            0 <= i < self.modules@.len() && 0 <= j < self.modules@.len() && i != j
                ==> #[trigger] self.modules@[i].path@ != #[trigger] self.modules@[j].path@
        &&& forall|i: int, j: int|
            0 <= i < self.modules@.len() && 0 <= j < self.modules@.len() && i != j
                ==> #[trigger] self.modules@[i].id != #[trigger] self.modules@[j].id
        &&& forall|i: int| 0 <= i < self.modules@.len() ==> 0 < #[trigger] self.modules@[i].id < self.next_id
    }

    /// Every singleton object of every module has a live instance.
    pub open spec fn instances_live(&self, heap: &VMHeap) -> bool {
        forall|i: int, j: int|
            0 <= i < self.modules@.len() && 0 <= j < self.modules@[i].objects@.len() ==> heap.live(
                #[trigger] self.modules@[i].objects@[j].instance.0,
            )
    }

    /// The instance of every singleton object is of the object's own class.
    pub open spec fn instances_typed(&self, heap: &VMHeap) -> bool {
        forall|i: int, j: int|
            0 <= i < self.modules@.len() && 0 <= j < self.modules@[i].objects@.len() ==> heap.object(
                #[trigger] self.modules@[i].objects@[j].instance.0,
            ).class == ClassRef { module_id: self.modules@[i].id, index: j as usize, singleton: true }
    }

    /// No module loaded.
    pub fn new() -> (r: VMModuleManager)
        ensures
            r.wf(),
            r.modules@ == Seq::<Module>::empty(),
            r.next_id == 1,
    {
        VMModuleManager { modules: Vec::new(), next_id: 1 }
    }

    /// The position of the module loaded under `path`.
    fn module_position(&self, path: &str) -> (r: Option<usize>)
        ensures
            r matches Some(i) ==> module_index(self.modules@, path@) == Some(i as int) && i < self.modules@.len(),
            r is None ==> module_index(self.modules@, path@) is None,
    {
        let n = self.modules.len();
        let mut i: usize = 0;
        while i < n
            invariant
                n == self.modules@.len(),
                i <= n,
                forall|j: int| 0 <= j < i ==> (#[trigger] self.modules@[j]).path@ != path@,
            decreases n - i,
        {
            if string_eq_str(&self.modules[i].path, path) {
                proof {
                    lemma_module_index(self.modules@, path@, i as int);
                }
                return Some(i);
            }
            i = i + 1;
        }
        proof {
            lemma_module_index(self.modules@, path@, n as int);
        }
        None
    }

    /// The module loaded under `path`, or `ModuleNotFound`.
    pub fn find_module(&self, path: &str) -> (r: Result<ModuleRef, VMError>)
        ensures
            module_index(self.modules@, path@) matches Some(i) ==> r == Ok::<ModuleRef, VMError>(ModuleRef(self.modules@[i].id)),
            module_index(self.modules@, path@) is None ==> (r matches Err(VMError::ModuleNotFound(s)) && s@ == path@),
    {
        match self.module_position(path) {
            Some(i) => Ok(ModuleRef(self.modules[i].id)),
            None => Err(VMError::ModuleNotFound(String::from_str(path))),
        }
    }

    /// The class of full name `path/Name`: `None` when the module has no such
    /// class, `ModuleNotFound` when no module is loaded under `path`.
    pub fn try_find_class(&self, class: &str) -> (r: Result<Option<ClassRef>, VMError>)
        requires
            is_full_name(class@),
        ensures
            class_lookup(self.modules@, class@) matches Some(c) ==> r == Ok::<Option<ClassRef>, VMError>(c),
            class_lookup(self.modules@, class@) is None ==> (r matches Err(VMError::ModuleNotFound(s)) && s@
                == module_part(class@)),
    {
        let (module, name) = match rsplit_once_char(class, '/') {
            Some(parts) => parts,
            None => vstd::pervasive::unreached(),
        };
        let i = match self.module_position(module) {
            Some(i) => i,
            None => return Err(VMError::ModuleNotFound(String::from_str(module))),
        };
        let classes = &self.modules[i].classes;
        let n = classes.len();
        let mut j: usize = 0;
        while j < n
            invariant
                i < self.modules@.len(),
                classes@ == self.modules@[i as int].classes@,
                n == classes@.len(),
                j <= n,
                name@ == name_part(class@),
                module_index(self.modules@, module_part(class@)) == Some(i as int),
                forall|k: int| 0 <= k < j ==> (#[trigger] classes@[k]).name@ != name_part(class@),
            decreases n - j,
        {
            if string_eq_str(&classes[j].name, name) {
                proof {
                    lemma_class_index(classes@, name_part(class@), j as int);
                }
                return Ok(Some(ClassRef { module_id: self.modules[i].id, index: j, singleton: false }));
            }
            j = j + 1;
        }
        proof {
            lemma_class_index(classes@, name_part(class@), n as int);
        }
        Ok(None)
    }

    /// The class of full name `path/Name`, or `ClassNotFound` /
    /// `ModuleNotFound`.
    pub fn find_class(&self, class: &str) -> (r: Result<ClassRef, VMError>)
        requires
            is_full_name(class@),
        ensures
            class_lookup(self.modules@, class@) matches Some(Some(c)) ==> r == Ok::<ClassRef, VMError>(c),
            !(class_lookup(self.modules@, class@) matches Some(Some(_))) ==> (r matches Err(e) && class_error(self.modules@, class@, e)),
    {
        match self.try_find_class(class) {
            Ok(Some(c)) => Ok(c),
            Ok(None) => Err(VMError::ClassNotFound(String::from_str(class))),
            Err(e) => Err(e),
        }
    }

    /// The singleton object of full name `path/Name`, as a new strong
    /// reference to its instance: `None` when the module has no such object,
    /// `ModuleNotFound` when no module is loaded under `path`.
    pub fn try_find_object(&self, heap: &mut VMHeap, object: &str) -> (r: Result<Option<ObjectSmartRefNN>, VMError>)
        requires
            is_full_name(object@),
            self.instances_live(&*old(heap)),
        ensures
            module_index(self.modules@, module_part(object@)) is None ==> (r matches Err(VMError::ModuleNotFound(s))
                && s@ == module_part(object@) && *final(heap) == *old(heap)),
            module_index(self.modules@, module_part(object@)) matches Some(i) ==> match object_index(
                self.modules@[i].objects@,
                name_part(object@),
            ) {
                Some(j) => r matches Ok(Some(x)) && x.0.addr() == self.modules@[i].objects@[j].instance.0 && counted_up(
                    *old(heap),
                    *final(heap),
                    x.0.addr(),
                ),
                None => r matches Ok(None) && *final(heap) == *old(heap),
            },
    {
        let (module, name) = match rsplit_once_char(object, '/') {
            Some(parts) => parts,
            None => vstd::pervasive::unreached(),
        };
        let i = match self.module_position(module) {
            Some(i) => i,
            None => return Err(VMError::ModuleNotFound(String::from_str(module))),
        };
        let objects = &self.modules[i].objects;
        let n = objects.len();
        let mut j: usize = 0;
        while j < n
            invariant
                i < self.modules@.len(),
                objects@ == self.modules@[i as int].objects@,
                self.instances_live(&*old(heap)),
                *heap == *old(heap),
                n == objects@.len(),
                j <= n,
                name@ == name_part(object@),
                module_index(self.modules@, module_part(object@)) == Some(i as int),
                forall|k: int| 0 <= k < j ==> (#[trigger] objects@[k]).class.name@ != name_part(object@),
            decreases n - j,
        {
            if string_eq_str(&objects[j].class.name, name) {
                proof {
                    lemma_object_index(objects@, name_part(object@), j as int);
                    assert(objects@[j as int] == self.modules@[i as int].objects@[j as int]);
                    assert(old(heap).live(self.modules@[i as int].objects@[j as int].instance.0));
                    old(heap).lemma_live_nonnull(self.modules@[i as int].objects@[j as int].instance.0);
                }
                let instance = objects[j].instance;
                let instance = ObjectRefNN::new(instance.0);
                return Ok(Some(ObjectSmartRefNN::new(heap, instance)));
            }
            j = j + 1;
        }
        proof {
            lemma_object_index(objects@, name_part(object@), n as int);
        }
        Ok(None)
    }

    /// The singleton object of full name `path/Name`, as a new strong
    /// reference to its instance, or `ObjectNotFound` / `ModuleNotFound`.
    pub fn find_object(&self, heap: &mut VMHeap, object: &str) -> (r: Result<ObjectSmartRefNN, VMError>)
        requires
            is_full_name(object@),
            self.instances_live(&*old(heap)),
        ensures
            object_found(self.modules@, *old(heap), *final(heap), object@, r),
    {
        match self.try_find_object(heap, object) {
            Ok(Some(o)) => Ok(o),
            Ok(None) => Err(VMError::ObjectNotFound(String::from_str(object))),
            Err(e) => Err(e),
        }
    }
}


/// The class of full name `name` is loaded.
pub open spec fn resolves(mods: Seq<Module>, name: Seq<char>) -> bool {
    class_lookup(mods, name) matches Some(Some(_))
}

/// The class of full name `name`, where it is loaded.
pub open spec fn resolved(mods: Seq<Module>, name: Seq<char>) -> ClassRef {
    class_lookup(mods, name)->0->0
}

/// Every name of `names` is the full name of a loaded class.
pub open spec fn all_resolve(mods: Seq<Module>, names: Seq<String>) -> bool {
    forall|k: int| 0 <= k < names.len() ==> resolves(mods, #[trigger] names[k]@)
}

/// `refs` are the classes `names` name, in order.
pub open spec fn resolved_all(mods: Seq<Module>, names: Seq<String>, refs: Seq<ClassRef>) -> bool {
    &&& refs.len() == names.len()
    &&& forall|k: int| 0 <= k < names.len() ==> #[trigger] refs[k] == resolved(mods, names[k]@)
}

/// `e` is the error of resolving `names` in order: the first name that names
/// no loaded class fails.
pub open spec fn resolve_error(mods: Seq<Module>, names: Seq<String>, e: VMError) -> bool {
    exists|k: int|
        0 <= k < names.len() && !resolves(mods, #[trigger] names[k]@) && class_error(mods, names[k]@, e)
            && forall|j: int| 0 <= j < k ==> resolves(mods, #[trigger] names[j]@)
}

/// Every name of `names` is a full name.
pub open spec fn all_full_names(names: Seq<String>) -> bool {
    forall|k: int| 0 <= k < names.len() ==> is_full_name(#[trigger] names[k]@)
}

/// The position of the first class named `name`.
fn class_position(classes: &Vec<Class>, name: &str) -> (r: Option<usize>)
    ensures
        r matches Some(j) ==> class_index(classes@, name@) == Some(j as int) && j < classes@.len(),
        r is None ==> class_index(classes@, name@) is None,
{
    let n = classes.len();
    let mut j: usize = 0;
    while j < n
        invariant
            n == classes@.len(),
            j <= n,
            forall|k: int| 0 <= k < j ==> (#[trigger] classes@[k]).name@ != name@,
        decreases n - j,
    {
        if string_eq_str(&classes[j].name, name) {
            proof {
                lemma_class_index(classes@, name@, j as int);
            }
            return Some(j);
        }
        j = j + 1;
    }
    proof {
        lemma_class_index(classes@, name@, n as int);
    }
    None
}

impl VMModuleManager {
    /// Looks up the class of full name `name` as `find_class` would once
    /// `pending` is registered after the loaded modules.
    fn resolve_class(&self, pending: &Module, name: &str) -> (r: Result<ClassRef, VMError>)
        requires
            module_index(self.modules@, pending.path@) is None,
            is_full_name(name@),
        ensures
            resolves(self.modules@.push(*pending), name@) ==> r == Ok::<ClassRef, VMError>(
                resolved(self.modules@.push(*pending), name@),
            ),
            !resolves(self.modules@.push(*pending), name@) ==> (r matches Err(e) && class_error(
                self.modules@.push(*pending),
                name@,
                e,
            )),
    {
        let ghost mods = self.modules@.push(*pending);
        let (module, class) = match rsplit_once_char(name, '/') {
            Some(parts) => parts,
            None => vstd::pervasive::unreached(),
        };
        proof {
            lemma_module_index_push(self.modules@, *pending, module@);
            lemma_module_index_facts(self.modules@, pending.path@);
        }
        let (id, classes) = match self.module_position(module) {
            Some(i) => (self.modules[i].id, &self.modules[i].classes),
            None => {
                if string_eq_str(&pending.path, module) {
                    (pending.id, &pending.classes)
                } else {
                    return Err(VMError::ModuleNotFound(String::from_str(module)));
                }
            },
        };
        match class_position(classes, class) {
            Some(j) => Ok(ClassRef { module_id: id, index: j, singleton: false }),
            None => Err(VMError::ClassNotFound(String::from_str(name))),
        }
    }

    /// Resolves the names of `names` in order, as `find_class` would once
    /// `pending` is registered, up to the first that fails.
    fn resolve_extends(&self, pending: &Module, names: &Vec<String>) -> (r: (Vec<ClassRef>, Option<VMError>))
        requires
            module_index(self.modules@, pending.path@) is None,
            all_full_names(names@),
        ensures
            r.0@.len() <= names@.len(),
            forall|k: int| 0 <= k < r.0@.len() ==> resolves(self.modules@.push(*pending), #[trigger] names@[k]@)
                && r.0@[k] == resolved(self.modules@.push(*pending), names@[k]@),
            r.1 is None <==> r.0@.len() == names@.len(),
            r.1 matches Some(e) ==> !resolves(self.modules@.push(*pending), names@[r.0@.len() as int]@) && class_error(
                self.modules@.push(*pending),
                names@[r.0@.len() as int]@,
                e,
            ),
    {
        let mut refs: Vec<ClassRef> = Vec::new();
        let n = names.len();
        let mut k: usize = 0;
        while k < n
            invariant
                n == names@.len(),
                k <= n,
                module_index(self.modules@, pending.path@) is None,
                all_full_names(names@),
                refs@.len() == k,
                forall|j: int| 0 <= j < k ==> resolves(self.modules@.push(*pending), #[trigger] names@[j]@)
                    && refs@[j] == resolved(self.modules@.push(*pending), names@[j]@),
            decreases n - k,
        {
            match self.resolve_class(pending, names[k].as_str()) {
                Ok(c) => refs.push(c),
                Err(e) => return (refs, Some(e)),
            }
            k = k + 1;
        }
        (refs, None)
    }
}


/// A copy of a list of class references.
fn copy_refs(v: &Vec<ClassRef>) -> (r: Vec<ClassRef>)
    ensures
        r@ == v@,
{
    let mut out: Vec<ClassRef> = Vec::new();
    let n = v.len();
    let mut k: usize = 0;
    while k < n
        invariant
            n == v@.len(),
            k <= n,
            out@ == v@.take(k as int),
        decreases n - k,
    {
        out.push(v[k]);
        k = k + 1;
        proof {
            assert(out@ =~= v@.take(k as int));
        }
    }
    proof {
        assert(v@.take(n as int) =~= v@);
    }
    out
}

/// `c` is `parsed` owned by module `owner` and extending `extends`.
pub open spec fn class_initialized(c: Class, parsed: Class, owner: ModuleRef, extends: Seq<ClassRef>) -> bool {
    &&& c.owner == owner
    &&& c.name == parsed.name
    &&& c.extends@ == extends
    &&& c.methods == parsed.methods
    &&& c.allocation == parsed.allocation
}

/// Sets the owner and the extended classes of the first `extends.len()`
/// classes; the others stay as they are.
fn init_classes(classes: Vec<Class>, extends: &Vec<Vec<ClassRef>>, owner: ModuleRef) -> (r: Vec<Class>)
    requires
        extends@.len() <= classes@.len(),
    ensures
        r@.len() == classes@.len(),
        forall|i: int| 0 <= i < extends@.len() ==> class_initialized(#[trigger] r@[i], classes@[i], owner, extends@[i]@),
        forall|i: int| extends@.len() <= i < classes@.len() ==> #[trigger] r@[i] == classes@[i],
{
    let ghost all = classes@;
    let mut out: Vec<Class> = Vec::new();
    for c in it: classes
        invariant
            it.seq() == all,
            extends@.len() <= all.len(),
            out@.len() == it.index(),
            forall|i: int| 0 <= i < out@.len() && i < extends@.len() ==> class_initialized(#[trigger] out@[i], all[i], owner, extends@[i]@),
            forall|i: int| 0 <= i < out@.len() && extends@.len() <= i ==> #[trigger] out@[i] == all[i],
    {
        let k = out.len();
        if k < extends.len() {
            let refs = copy_refs(&extends[k]);
            out.push(Class { owner, name: c.name, extends: refs, methods: c.methods, allocation: c.allocation });
        } else {
            out.push(c);
        }
    }
    out
}

/// Sets the owner and the extended classes of the classes of the first
/// `extends.len()` objects; the others stay as they are.
fn init_objects(objects: Vec<Singleton>, extends: &Vec<Vec<ClassRef>>, owner: ModuleRef) -> (r: Vec<Singleton>)
    requires
        extends@.len() <= objects@.len(),
    ensures
        r@.len() == objects@.len(),
        forall|i: int| 0 <= i < extends@.len() ==> class_initialized((#[trigger] r@[i]).class, objects@[i].class, owner, extends@[i]@)
            && r@[i].instance == objects@[i].instance,
        forall|i: int| extends@.len() <= i < objects@.len() ==> #[trigger] r@[i] == objects@[i],
{
    let ghost all = objects@;
    let mut out: Vec<Singleton> = Vec::new();
    for o in it: objects
        invariant
            it.seq() == all,
            extends@.len() <= all.len(),
            out@.len() == it.index(),
            forall|i: int| 0 <= i < out@.len() && i < extends@.len() ==> class_initialized((#[trigger] out@[i]).class, all[i].class, owner, extends@[i]@)
                && out@[i].instance == all[i].instance,
            forall|i: int| 0 <= i < out@.len() && extends@.len() <= i ==> #[trigger] out@[i] == all[i],
    {
        let k = out.len();
        if k < extends.len() {
            let refs = copy_refs(&extends[k]);
            let Singleton { class, instance } = o;
            let class = Class { owner, name: class.name, extends: refs, methods: class.methods, allocation: class.allocation };
            out.push(Singleton { class, instance });
        } else {
            out.push(o);
        }
    }
    out
}

/// `h` names a fresh object of `class`: no fields, no native part, one
/// strong reference.
pub open spec fn fresh_object(heap: VMHeap, h: u64, class: ClassRef) -> bool {
    &&& heap.live(h)
    &&& heap.object(h).class == class
    &&& heap.object(h).fields.wf()
    &&& heap.object(h).fields.entries().len() == 0
    &&& heap.object(h).flags.rc == 1
    &&& !heap.object(h).flags.uninit
    &&& !heap.object(h).flags.marker
    &&& heap.object(h).native is Empty
}

/// `heap2` is `heap1` with `n` more objects allocated after the others;
/// the objects and weak cells of `heap1` are untouched.
pub open spec fn grown_by(heap1: VMHeap, heap2: VMHeap, n: nat) -> bool {
    &&& heap2.allocated() == heap1.allocated() + n
    &&& forall|g: u64| g <= heap1.allocated() ==> (#[trigger] heap2.live(g) <==> heap1.live(g))
    &&& forall|g: u64| g <= heap1.allocated() && heap1.live(g) ==> #[trigger] heap2.object(g) == heap1.object(g)
    &&& heap2.weak_cells() == heap1.weak_cells()
    &&& forall|w: ObjectWeakRef| #[trigger] heap2.weak_target(w) == heap1.weak_target(w)
}

/// Allocates an instance for each object, of the object's own class in
/// module `id`, in order.
fn allocate_instances(heap: &mut VMHeap, objects: Vec<Singleton>, id: u64) -> (r: Vec<Singleton>)
    requires
        old(heap).allocated() + objects@.len() < u64::MAX,
    ensures
        r@.len() == objects@.len(),
        grown_by(*old(heap), *final(heap), objects@.len()),
        forall|i: int| 0 <= i < objects@.len() ==> (#[trigger] r@[i]).class == objects@[i].class
            && r@[i].instance.0 == old(heap).allocated() + i + 1
            && fresh_object(*final(heap), r@[i].instance.0, ClassRef { module_id: id, index: i as usize, singleton: true }),
{
    let ghost all = objects@;
    let ghost start = *heap;
    let mut out: Vec<Singleton> = Vec::new();
    for o in it: objects
        invariant
            it.seq() == all,
            out@.len() == it.index(),
            start == *old(heap),
            start.allocated() + all.len() < u64::MAX,
            grown_by(start, *heap, out@.len() as nat),
            forall|i: int| 0 <= i < out@.len() ==> (#[trigger] out@[i]).class == all[i].class
                && out@[i].instance.0 == start.allocated() + i + 1
                && fresh_object(*heap, out@[i].instance.0, ClassRef { module_id: id, index: i as usize, singleton: true }),
    {
        let k = out.len();
        let ghost before = *heap;
        let h = heap.allocate(ClassRef { module_id: id, index: k, singleton: true });
        proof {
            assert forall|i: int| 0 <= i < out@.len() implies fresh_object(*heap, (#[trigger] out@[i]).instance.0, ClassRef { module_id: id, index: i as usize, singleton: true }) by {
                assert(out@[i].instance.0 != h.addr());
                assert(before.live(out@[i].instance.0));
            }
        }
        out.push(Singleton { class: o.class, instance: h.to_ref() });
    }
    out
}


/// The module `module_load` registers for `p` before it resolves anything:
/// the parsed lists as they are, under the next load id.
pub open spec fn pending_module(id: u64, p: ParsedModule) -> Module {
    Module { id, path: p.path, functions: p.functions, classes: p.classes, objects: p.objects }
}

/// Every class and every object of `p` extends only loaded classes.
pub open spec fn load_ok(mods: Seq<Module>, p: ParsedModule) -> bool {
    &&& forall|i: int| 0 <= i < p.class_extends@.len() ==> all_resolve(mods, #[trigger] p.class_extends@[i]@)
    &&& forall|i: int| 0 <= i < p.object_extends@.len() ==> all_resolve(mods, #[trigger] p.object_extends@[i]@)
}

/// `e` is the error of resolving the extended classes of `p`: classes first,
/// then objects, each in order, up to the first name that fails.
pub open spec fn load_error(mods: Seq<Module>, p: ParsedModule, e: VMError) -> bool {
    ||| exists|i: int|
        0 <= i < p.class_extends@.len() && resolve_error(mods, #[trigger] p.class_extends@[i]@, e) && forall|j: int|
            0 <= j < i ==> all_resolve(mods, #[trigger] p.class_extends@[j]@)
    ||| (forall|j: int| 0 <= j < p.class_extends@.len() ==> all_resolve(mods, #[trigger] p.class_extends@[j]@))
        && exists|i: int|
        0 <= i < p.object_extends@.len() && resolve_error(mods, #[trigger] p.object_extends@[i]@, e) && forall|j: int|
            0 <= j < i ==> all_resolve(mods, #[trigger] p.object_extends@[j]@)
}

/// The extends lists of `p` hold full names only.
pub open spec fn parsed_names_full(p: ParsedModule) -> bool {
    &&& forall|i: int| 0 <= i < p.class_extends@.len() ==> all_full_names(#[trigger] p.class_extends@[i]@)
    &&& forall|i: int| 0 <= i < p.object_extends@.len() ==> all_full_names(#[trigger] p.object_extends@[i]@)
}

/// `after` holds the modules of `base` followed by the module made of `p`
/// under load id `id`, and `r` is the outcome of loading it: on success the
/// module's classes and objects extend the classes their names resolve to
/// (among `base` and the new module) and each object has a fresh instance
/// in `heap`, allocated in order after the first `allocated` objects; on
/// failure the error of the first name that does not resolve.
pub open spec fn module_registered(
    id: u64,
    base: Seq<Module>,
    after: VMModuleManager,
    allocated: nat,
    heap: VMHeap,
    p: ParsedModule,
    r: Result<ModuleRef, VMError>,
) -> bool {
    let m = after.modules@.last();
    let mods = base.push(pending_module(id, p));
    &&& after.next_id == id + 1
    &&& after.modules@.len() == base.len() + 1
    &&& after.modules@.drop_last() == base
    &&& m.id == id
    &&& m.path == p.path
    &&& m.functions == p.functions
    &&& m.classes@.len() == p.classes@.len()
    &&& m.objects@.len() == p.objects@.len()
    &&& (r is Ok <==> load_ok(mods, p))
    &&& (r is Ok ==> {
        &&& r == Ok::<ModuleRef, VMError>(ModuleRef(id))
        &&& forall|i: int| 0 <= i < m.classes@.len() ==> class_initialized(
            #[trigger] m.classes@[i],
            p.classes@[i],
            ModuleRef(id),
            m.classes@[i].extends@,
        ) && resolved_all(mods, p.class_extends@[i]@, m.classes@[i].extends@)
        &&& forall|i: int| 0 <= i < m.objects@.len() ==> class_initialized(
            (#[trigger] m.objects@[i]).class,
            p.objects@[i].class,
            ModuleRef(id),
            m.objects@[i].class.extends@,
        ) && resolved_all(mods, p.object_extends@[i]@, m.objects@[i].class.extends@)
            && m.objects@[i].instance.0 == allocated + i + 1 && fresh_object(
            heap,
            m.objects@[i].instance.0,
            ClassRef { module_id: id, index: i as usize, singleton: true },
        )
    })
    &&& (r matches Err(e) ==> load_error(mods, p, e))
    &&& (r is Err ==> forall|i: int|
        #![trigger m.classes@[i]]
        0 <= i < m.classes@.len() ==> if lists_resolve_upto(mods, p.class_extends@, i) {
            class_initialized(m.classes@[i], p.classes@[i], ModuleRef(id), m.classes@[i].extends@) && resolved_all(
                mods,
                p.class_extends@[i]@,
                m.classes@[i].extends@,
            )
        } else {
            m.classes@[i] == p.classes@[i]
        })
    &&& (r is Err ==> forall|i: int|
        #![trigger m.objects@[i]]
        0 <= i < m.objects@.len() ==> if lists_resolve_upto(mods, p.class_extends@, p.class_extends@.len() - 1)
            && lists_resolve_upto(mods, p.object_extends@, i) {
            class_initialized(m.objects@[i].class, p.objects@[i].class, ModuleRef(id), m.objects@[i].class.extends@)
                && resolved_all(mods, p.object_extends@[i]@, m.objects@[i].class.extends@) && m.objects@[i].instance
                == p.objects@[i].instance
        } else {
            m.objects@[i] == p.objects@[i]
        })
}

/// The lists of `lists` up to position `i` name loaded classes only.
pub open spec fn lists_resolve_upto(mods: Seq<Module>, lists: Seq<Vec<String>>, i: int) -> bool {
    forall|j: int| 0 <= j <= i ==> all_resolve(mods, #[trigger] lists[j]@)
}

impl VMModuleManager {
    /// Resolves the lists of `lists` in order, up to the first that fails.
    fn resolve_lists(&self, pending: &Module, lists: &Vec<Vec<String>>) -> (r: (Vec<Vec<ClassRef>>, Option<VMError>))
        requires
            module_index(self.modules@, pending.path@) is None,
            forall|i: int| 0 <= i < lists@.len() ==> all_full_names(#[trigger] lists@[i]@),
        ensures
            r.0@.len() <= lists@.len(),
            forall|k: int| 0 <= k < r.0@.len() ==> all_resolve(self.modules@.push(*pending), #[trigger] lists@[k]@)
                && resolved_all(self.modules@.push(*pending), lists@[k]@, r.0@[k]@),
            r.1 is None <==> r.0@.len() == lists@.len(),
            r.1 matches Some(e) ==> resolve_error(self.modules@.push(*pending), lists@[r.0@.len() as int]@, e),
    {
        let ghost mods = self.modules@.push(*pending);
        let mut out: Vec<Vec<ClassRef>> = Vec::new();
        let n = lists.len();
        let mut k: usize = 0;
        while k < n
            invariant
                n == lists@.len(),
                k <= n,
                mods == self.modules@.push(*pending),
                module_index(self.modules@, pending.path@) is None,
                forall|i: int| 0 <= i < lists@.len() ==> all_full_names(#[trigger] lists@[i]@),
                out@.len() == k,
                forall|j: int| 0 <= j < k ==> all_resolve(mods, #[trigger] lists@[j]@) && resolved_all(mods, lists@[j]@, out@[j]@),
            decreases n - k,
        {
            let (refs, error) = self.resolve_extends(pending, &lists[k]);
            match error {
                Some(e) => {
                    proof {
                        let names = lists@[k as int]@;
                        let bad = refs@.len() as int;
                        assert(!resolves(mods, names[bad]@) && class_error(mods, names[bad]@, e));
                        assert(forall|j: int| 0 <= j < bad ==> resolves(mods, #[trigger] names[j]@));
                        assert(resolve_error(mods, names, e));
                    }
                    return (out, Some(e));
                },
                None => {
                    out.push(refs);
                },
            }
            k = k + 1;
        }
        (out, None)
    }

    /// Registering a module under a fresh path and the next load id keeps
    /// the registry well formed.
    proof fn lemma_push_wf(before: VMModuleManager, after: VMModuleManager)
        requires
            before.wf(),
            after.next_id == before.next_id + 1,
            after.modules@.len() == before.modules@.len() + 1,
            after.modules@.drop_last() == before.modules@,
            after.modules@.last().id == before.next_id,
            before.next_id > 0,
            forall|j: int| 0 <= j < before.modules@.len() ==> (#[trigger] before.modules@[j]).path@ != after.modules@.last().path@,
        ensures
            after.wf(),
    {
        let n = before.modules@.len() as int;
        assert forall|i: int| 0 <= i < n implies #[trigger] after.modules@[i] == before.modules@[i] by {
            assert(after.modules@.drop_last()[i] == after.modules@[i]);
        }
        assert forall|i: int, j: int|
            0 <= i < after.modules@.len() && 0 <= j < after.modules@.len() && i != j
                implies #[trigger] after.modules@[i].path@ != #[trigger] after.modules@[j].path@ by {
            if i < n && j < n {
            } else if i == n {
                assert(before.modules@[j].path@ != after.modules@.last().path@);
            } else {
                assert(before.modules@[i].path@ != after.modules@.last().path@);
            }
        }
        assert forall|i: int, j: int|
            0 <= i < after.modules@.len() && 0 <= j < after.modules@.len() && i != j
                implies #[trigger] after.modules@[i].id != #[trigger] after.modules@[j].id by {
            if i < n && j < n {
            } else if i == n {
                assert(before.modules@[j].id < before.next_id);
            } else {
                assert(before.modules@[i].id < before.next_id);
            }
        }
        assert forall|i: int| 0 <= i < after.modules@.len() implies 0 < #[trigger] after.modules@[i].id < after.next_id by {
            if i < n {
                assert(before.modules@[i].id < before.next_id);
            }
        }
    }

    /// Registers a parsed module under the next load id, resolves the
    /// classes its classes and objects extend, and allocates an instance for
    /// each object (which the VM then initialises with `__init__`). A class
    /// that cannot be resolved stops the load with its error; the module
    /// stays registered, the classes resolved so far initialised.
    fn module_load(&mut self, heap: &mut VMHeap, parsed: ParsedModule) -> (r: Result<ModuleRef, VMError>)
        requires
            old(self).wf(),
            parsed_wf(parsed),
            parsed_names_full(parsed),
            module_index(old(self).modules@, parsed.path@) is None,
            old(self).next_id < u64::MAX,
            old(heap).allocated() + parsed.objects@.len() < u64::MAX,
        ensures
            final(self).wf(),
            module_registered(old(self).next_id, old(self).modules@, *final(self), old(heap).allocated(), *final(heap), parsed, r),
            r is Ok ==> grown_by(*old(heap), *final(heap), parsed.objects@.len()),
            r is Err ==> *final(heap) == *old(heap),
    {
        let id = self.next_id;
        self.next_id = self.next_id + 1;
        let ghost parsed0 = parsed;
        let ParsedModule { path, uses: _, functions, classes, class_extends, objects, object_extends } = parsed;
        let pending = Module { id, path, functions, classes, objects };
        let ghost mods = self.modules@.push(pending);
        assert(pending == pending_module(id, parsed0));
        let (class_refs, error) = self.resolve_lists(&pending, &class_extends);
        let (object_refs, error) = match error {
            None => self.resolve_lists(&pending, &object_extends),
            Some(e) => (Vec::new(), Some(e)),
        };
        let Module { id, path, functions, classes, objects } = pending;
        let classes = init_classes(classes, &class_refs, ModuleRef(id));
        let objects = init_objects(objects, &object_refs, ModuleRef(id));
        proof {
            lemma_module_index_facts(old(self).modules@, parsed0.path@);
        }
        match error {
            Some(e) => {
                self.modules.push(Module { id, path, functions, classes, objects });
                proof {
                    assert(self.modules@.drop_last() =~= old(self).modules@);
                    Self::lemma_push_wf(*old(self), *self);
                }
                Err(e)
            },
            None => {
                let objects = allocate_instances(heap, objects, id);
                self.modules.push(Module { id, path, functions, classes, objects });
                proof {
                    assert(self.modules@.drop_last() =~= old(self).modules@);
                    Self::lemma_push_wf(*old(self), *self);
                }
                Ok(ModuleRef(id))
            },
        }
    }
}


/// What replacing module `old_m` by `new_m` makes of class `c`: a class of
/// the old module becomes the new module's first class of the same name,
/// `None` when there is none; any other class stays.
pub open spec fn swapped_class(c: ClassRef, old_m: Module, new_m: Module) -> Option<ClassRef> {
    if c.module_id == old_m.id && !c.singleton && c.index < old_m.classes@.len() {
        match class_index(new_m.classes@, old_m.classes@[c.index as int].name@) {
            Some(j) => Some(ClassRef { module_id: new_m.id, index: j as usize, singleton: false }),
            None => None,
        }
    } else {
        Some(c)
    }
}

/// `o2` is `o1` with its class possibly changed.
pub open spec fn same_but_class(o1: Object, o2: Object) -> bool {
    &&& o2.fields == o1.fields
    &&& o2.flags == o1.flags
    &&& o2.native == o1.native
}

/// `heap2` has the objects and weak cells of `heap1`, each object with its
/// class possibly changed.
pub open spec fn same_objects(heap1: VMHeap, heap2: VMHeap) -> bool {
    &&& heap2.allocated() == heap1.allocated()
    &&& forall|g: u64| #[trigger] heap2.live(g) == heap1.live(g)
    &&& forall|g: u64| heap1.live(g) ==> same_but_class(heap1.object(g), #[trigger] heap2.object(g))
    &&& heap2.weak_cells() == heap1.weak_cells()
    &&& forall|w: ObjectWeakRef| #[trigger] heap2.weak_target(w) == heap1.weak_target(w)
}

/// The class positions `map` gives for the classes of `old_m`: each one's
/// first namesake in `new_m`.
pub open spec fn class_map_of(map: Seq<Option<usize>>, old_m: Module, new_m: Module) -> bool {
    &&& map.len() == old_m.classes@.len()
    &&& forall|c: int| 0 <= c < map.len() ==> #[trigger] map[c] == match class_index(new_m.classes@, old_m.classes@[c].name@) {
        Some(j) => Some(j as usize),
        None => None::<usize>,
    }
}

/// Moves the object `h`, if live, to its swapped class; fails with
/// `ClassNotFound` and the old class's name, changing nothing, when the class
/// has no counterpart.
fn remap_one(heap: &mut VMHeap, h: u64, old_m: &Module, new_m: &Module, map: &Vec<Option<usize>>) -> (r: Result<(), VMError>)
    requires
        class_map_of(map@, *old_m, *new_m),
    ensures
        old(heap).live(h) && swapped_class(old(heap).object(h).class, *old_m, *new_m) is None ==> (r matches Err(VMError::ClassNotFound(s))
            && s@ == old_m.classes@[old(heap).object(h).class.index as int].name@ && *final(heap) == *old(heap)),
        !(old(heap).live(h) && swapped_class(old(heap).object(h).class, *old_m, *new_m) is None) ==> r is Ok,
        r is Ok ==> same_objects(*old(heap), *final(heap)),
        r is Ok && old(heap).live(h) ==> final(heap).object(h).class == swapped_class(old(heap).object(h).class, *old_m, *new_m)->0,
        r is Ok ==> forall|g: u64| g != h && old(heap).live(g) ==> #[trigger] final(heap).object(g) == old(heap).object(g),
{
    if !heap.is_live(h) {
        return Ok(());
    }
    proof {
        heap.lemma_live_nonnull(h);
    }
    let hh = ObjectRefNN::new(h);
    let c = heap.get(hh).class;
    if c.module_id == old_m.id && !c.singleton && c.index < map.len() {
        match map[c.index] {
            Some(j) => {
                let ghost before = *heap;
                let object = heap.get_mut(hh);
                object.class = ClassRef { module_id: new_m.id, index: j, singleton: false };
                proof {
                    assert forall|g: u64| #[trigger] heap.live(g) == before.live(g) by {
                        if g != h {
                            assert(heap.live(g) == before.live(g));
                        }
                    }
                    assert forall|g: u64| before.live(g) implies same_but_class(before.object(g), #[trigger] heap.object(g)) by {
                        if g != h {
                            assert(heap.object(g) == before.object(g));
                        }
                    }
                }
                Ok(())
            },
            None => Err(VMError::ClassNotFound(old_m.classes[c.index].name.clone())),
        }
    } else {
        Ok(())
    }
}

/// The objects of `h0` up to handle `k` are moved to their swapped classes
/// in `h1`, the others are as in `h0`.
#[verifier::opaque]
pub open spec fn remapped_upto(h0: VMHeap, h1: VMHeap, k: nat, old_m: Module, new_m: Module) -> bool {
    &&& same_objects(h0, h1)
    &&& forall|g: u64| 1 <= g <= k && h0.live(g) ==> (#[trigger] swapped_class(h0.object(g).class, old_m, new_m)) is Some
        && h1.object(g).class == swapped_class(h0.object(g).class, old_m, new_m)->0
    &&& forall|g: u64| g > k && h0.live(g) ==> #[trigger] h1.object(g) == h0.object(g)
}

proof fn lemma_remap_start(h0: VMHeap, old_m: Module, new_m: Module)
    ensures
        remapped_upto(h0, h0, 0, old_m, new_m),
{
    reveal(remapped_upto);
}

proof fn lemma_remap_step(h0: VMHeap, before: VMHeap, after: VMHeap, k: nat, old_m: Module, new_m: Module)
    requires
        remapped_upto(h0, before, k, old_m, new_m),
        k + 1 <= u64::MAX,
        same_objects(before, after),
        before.live((k + 1) as u64) ==> after.object((k + 1) as u64).class == swapped_class(
            before.object((k + 1) as u64).class,
            old_m,
            new_m,
        )->0,
        before.live((k + 1) as u64) ==> swapped_class(before.object((k + 1) as u64).class, old_m, new_m) is Some,
        forall|g: u64| g != k + 1 && before.live(g) ==> #[trigger] after.object(g) == before.object(g),
    ensures
        remapped_upto(h0, after, k + 1, old_m, new_m),
{
    reveal(remapped_upto);
    let h = (k + 1) as u64;
    assert forall|g: u64| #[trigger] after.live(g) == h0.live(g) by {
        assert(after.live(g) == before.live(g));
    }
    assert forall|g: u64| h0.live(g) implies same_but_class(h0.object(g), #[trigger] after.object(g)) by {
        assert(same_but_class(h0.object(g), before.object(g)));
        assert(same_but_class(before.object(g), after.object(g)));
    }
    assert forall|g: u64| 1 <= g <= k + 1 && h0.live(g) implies (#[trigger] swapped_class(h0.object(g).class, old_m, new_m)) is Some
        && after.object(g).class == swapped_class(h0.object(g).class, old_m, new_m)->0 by {
        if g != h {
            assert(after.object(g) == before.object(g));
        } else {
            assert(before.object(h) == h0.object(h));
        }
    }
    assert forall|g: u64| g > k + 1 && h0.live(g) implies #[trigger] after.object(g) == h0.object(g) by {
        assert(after.object(g) == before.object(g));
    }
}

proof fn lemma_remap_done(h0: VMHeap, h1: VMHeap, old_m: Module, new_m: Module)
    requires
        remapped_upto(h0, h1, h0.allocated(), old_m, new_m),
    ensures
        same_objects(h0, h1),
        forall|g: u64| h0.live(g) ==> (#[trigger] swapped_class(h0.object(g).class, old_m, new_m)) is Some,
        forall|g: u64| h0.live(g) ==> (#[trigger] h1.object(g)).class == swapped_class(h0.object(g).class, old_m, new_m)->0,
{
    reveal(remapped_upto);
    assert forall|g: u64| h0.live(g) implies (#[trigger] swapped_class(h0.object(g).class, old_m, new_m)) is Some by {
        h0.lemma_live_allocated(g);
    }
    assert forall|g: u64| h0.live(g) implies (#[trigger] h1.object(g)).class == swapped_class(h0.object(g).class, old_m, new_m)->0 by {
        h0.lemma_live_allocated(g);
    }
}

proof fn lemma_remap_stop(h0: VMHeap, h1: VMHeap, h: u64, old_m: Module, new_m: Module)
    requires
        remapped_upto(h0, h1, (h - 1) as nat, old_m, new_m),
        h >= 1,
        h0.live(h),
    ensures
        same_objects(h0, h1),
        h1.object(h) == h0.object(h),
        forall|g: u64| g < h && h0.live(g) ==> (#[trigger] swapped_class(h0.object(g).class, old_m, new_m)) is Some
            && h1.object(g).class == swapped_class(h0.object(g).class, old_m, new_m)->0,
        forall|g: u64| g >= h && h0.live(g) ==> #[trigger] h1.object(g) == h0.object(g),
{
    reveal(remapped_upto);
    h0.lemma_live_nonnull(h);
    assert forall|g: u64| g < h && h0.live(g) implies (#[trigger] swapped_class(h0.object(g).class, old_m, new_m)) is Some
        && h1.object(g).class == swapped_class(h0.object(g).class, old_m, new_m)->0 by {
        h0.lemma_live_nonnull(g);
    }
}

/// Moves every live object whose class belonged to `old_m` to the class of
/// the same name in `new_m`, in handle order. An object whose class has no
/// counterpart stops the walk with `ClassNotFound` and the class's name;
/// the objects before it are moved, the others not.
fn remap_classes(heap: &mut VMHeap, old_m: &Module, new_m: &Module) -> (r: Result<(), VMError>)
    ensures
        same_objects(*old(heap), *final(heap)),
        r is Ok <==> forall|g: u64| old(heap).live(g) ==> (#[trigger] swapped_class(old(heap).object(g).class, *old_m, *new_m)) is Some,
        r is Ok ==> forall|g: u64| old(heap).live(g) ==> (#[trigger] final(heap).object(g)).class == swapped_class(
            old(heap).object(g).class,
            *old_m,
            *new_m,
        )->0,
        r matches Err(e) ==> exists|h: u64| #![trigger old(heap).object(h)]
            old(heap).live(h) && swapped_class(old(heap).object(h).class, *old_m, *new_m) is None
                && (e matches VMError::ClassNotFound(s) && s@ == old_m.classes@[old(heap).object(h).class.index as int].name@)
                && (forall|g: u64| g < h && old(heap).live(g) ==> (#[trigger] swapped_class(old(heap).object(g).class, *old_m, *new_m)) is Some
                    && final(heap).object(g).class == swapped_class(old(heap).object(g).class, *old_m, *new_m)->0)
                && (forall|g: u64| g >= h && old(heap).live(g) ==> #[trigger] final(heap).object(g) == old(heap).object(g)),
{
    let nc = old_m.classes.len();
    let mut map: Vec<Option<usize>> = Vec::new();
    let mut i: usize = 0;
    while i < nc
        invariant
            nc == old_m.classes@.len(),
            i <= nc,
            map@.len() == i,
            old_m.classes@.len() == nc,
            forall|k: int| 0 <= k < i ==> #[trigger] map@[k] == match class_index(new_m.classes@, old_m.classes@[k].name@) {
                Some(j) => Some(j as usize),
                None => None::<usize>,
            },
        decreases nc - i,
    {
        map.push(class_position(&new_m.classes, old_m.classes[i].name.as_str()));
        i = i + 1;
    }
    let n = heap.slot_count();
    let mut k: usize = 0;
    proof {
        lemma_remap_start(*heap, *old_m, *new_m);
    }
    while k < n
        invariant
            n == heap.allocated(),
            n == old(heap).allocated(),
            k <= n,
            class_map_of(map@, *old_m, *new_m),
            remapped_upto(*old(heap), *heap, k as nat, *old_m, *new_m),
        decreases n - k,
    {
        let h: u64 = (k + 1) as u64;
        let ghost before = *heap;
        let step = remap_one(heap, h, old_m, new_m, &map);
        match step {
            Ok(()) => {
                proof {
                    reveal(remapped_upto);
                    assert(before.live(h) ==> before.object(h) == old(heap).object(h));
                    lemma_remap_step(*old(heap), before, *heap, k as nat, *old_m, *new_m);
                }
            },
            Err(e) => {
                proof {
                    reveal(remapped_upto);
                    assert(before.object(h) == old(heap).object(h));
                    assert(before.live(h));
                    lemma_remap_stop(*old(heap), *heap, h, *old_m, *new_m);
                }
                return Err(e);
            },
        }
        k = k + 1;
    }
    proof {
        lemma_remap_done(*old(heap), *heap, *old_m, *new_m);
    }
    Ok(())
}


impl VMModuleManager {
    /// Taking a module out keeps the registry well formed, and its path is
    /// then loaded no more.
    proof fn lemma_remove_wf(before: VMModuleManager, after: VMModuleManager, pos: int)
        requires
            before.wf(),
            0 <= pos < before.modules@.len(),
            after.modules@ == before.modules@.remove(pos),
            after.next_id == before.next_id,
        ensures
            after.wf(),
            module_index(after.modules@, before.modules@[pos].path@) is None,
    {
        let n = after.modules@.len() as int;
        assert forall|i: int| 0 <= i < n implies #[trigger] after.modules@[i] == before.modules@[if i < pos { i } else { i + 1 }] by {}
        assert forall|i: int, j: int|
            0 <= i < n && 0 <= j < n && i != j implies #[trigger] after.modules@[i].path@ != #[trigger] after.modules@[j].path@ by {
            let i2 = if i < pos { i } else { i + 1 };
            let j2 = if j < pos { j } else { j + 1 };
            assert(before.modules@[i2].path@ != before.modules@[j2].path@);
        }
        assert forall|i: int, j: int|
            0 <= i < n && 0 <= j < n && i != j implies #[trigger] after.modules@[i].id != #[trigger] after.modules@[j].id by {
            let i2 = if i < pos { i } else { i + 1 };
            let j2 = if j < pos { j } else { j + 1 };
            assert(before.modules@[i2].id != before.modules@[j2].id);
        }
        assert forall|i: int| 0 <= i < n implies 0 < #[trigger] after.modules@[i].id < after.next_id by {
            let i2 = if i < pos { i } else { i + 1 };
            assert(0 < before.modules@[i2].id < before.next_id);
        }
        assert forall|j: int| 0 <= j < n implies (#[trigger] after.modules@[j]).path@ != before.modules@[pos].path@ by {
            let j2 = if j < pos { j } else { j + 1 };
            assert(before.modules@[j2].path@ != before.modules@[pos].path@);
        }
        lemma_module_index_facts(after.modules@, before.modules@[pos].path@);
        if module_index(after.modules@, before.modules@[pos].path@) is Some {
            let k = module_index(after.modules@, before.modules@[pos].path@)->0;
            assert(after.modules@[k].path@ != before.modules@[pos].path@);
        }
    }

    /// Replaces the module loaded under the parsed module's path: the old
    /// module is taken out, the parsed one loaded in its stead, and every
    /// object of a class of the old module moves to the new module's class
    /// of the same name. An object whose class has no namesake in the new
    /// module stops the walk with `ClassNotFound`.
    fn module_hotswap(&mut self, heap: &mut VMHeap, parsed: ParsedModule) -> (r: Result<ModuleRef, VMError>)
        requires
            old(self).wf(),
            parsed_wf(parsed),
            parsed_names_full(parsed),
            module_index(old(self).modules@, parsed.path@) is Some,
            old(self).next_id < u64::MAX,
            old(heap).allocated() + parsed.objects@.len() < u64::MAX,
        ensures
            final(self).wf(),
            ({
                let pos = module_index(old(self).modules@, parsed.path@)->0;
                let old_m = old(self).modules@[pos];
                let base = old(self).modules@.remove(pos);
                let id = old(self).next_id;
                let mods = base.push(pending_module(id, parsed));
                let m = final(self).modules@.last();
                module_registered(
                    id,
                    base,
                    *final(self),
                    old(heap).allocated(),
                    *final(heap),
                    parsed,
                    if load_ok(mods, parsed) { Ok::<ModuleRef, VMError>(ModuleRef(id)) } else { r },
                )
            }),
            ({
                let pos = module_index(old(self).modules@, parsed.path@)->0;
                let old_m = old(self).modules@[pos];
                let base = old(self).modules@.remove(pos);
                let id = old(self).next_id;
                let mods = base.push(pending_module(id, parsed));
                let m = final(self).modules@.last();
                !load_ok(mods, parsed) ==> r is Err && *final(heap) == *old(heap)
            }),
            ({
                let pos = module_index(old(self).modules@, parsed.path@)->0;
                let old_m = old(self).modules@[pos];
                let base = old(self).modules@.remove(pos);
                let id = old(self).next_id;
                let mods = base.push(pending_module(id, parsed));
                let m = final(self).modules@.last();
                load_ok(mods, parsed) ==> final(heap).allocated() == old(heap).allocated() + parsed.objects@.len()
                    && forall|g: u64| old(heap).live(g) ==> #[trigger] final(heap).live(g) && same_but_class(old(heap).object(g), final(heap).object(g))
            }),
            ({
                let pos = module_index(old(self).modules@, parsed.path@)->0;
                let old_m = old(self).modules@[pos];
                let base = old(self).modules@.remove(pos);
                let id = old(self).next_id;
                let mods = base.push(pending_module(id, parsed));
                let m = final(self).modules@.last();
                load_ok(mods, parsed) ==> (r is Ok <==> forall|g: u64| old(heap).live(g) ==> (#[trigger] swapped_class(old(heap).object(g).class, old_m, m)) is Some)
            }),
            ({
                let pos = module_index(old(self).modules@, parsed.path@)->0;
                let old_m = old(self).modules@[pos];
                let base = old(self).modules@.remove(pos);
                let id = old(self).next_id;
                let mods = base.push(pending_module(id, parsed));
                let m = final(self).modules@.last();
                load_ok(mods, parsed) && r is Ok ==> r == Ok::<ModuleRef, VMError>(ModuleRef(id)) && forall|g: u64| old(heap).live(g)
                    ==> (#[trigger] final(heap).object(g)).class == swapped_class(old(heap).object(g).class, old_m, m)->0
            }),
            ({
                let pos = module_index(old(self).modules@, parsed.path@)->0;
                let old_m = old(self).modules@[pos];
                let base = old(self).modules@.remove(pos);
                let id = old(self).next_id;
                let mods = base.push(pending_module(id, parsed));
                let m = final(self).modules@.last();
                load_ok(mods, parsed) ==> (r matches Err(e) ==> exists|h: u64| #![trigger old(heap).object(h)]
                    old(heap).live(h) && swapped_class(old(heap).object(h).class, old_m, m) is None
                        && (e matches VMError::ClassNotFound(s) && s@ == old_m.classes@[old(heap).object(h).class.index as int].name@)
                        && forall|g: u64| g < h && old(heap).live(g) ==> (#[trigger] swapped_class(old(heap).object(g).class, old_m, m)) is Some)
            }),
    {
        let ghost old_self = *self;
        let pos = match self.module_position(parsed.path.as_str()) {
            Some(pos) => pos,
            None => vstd::pervasive::unreached(),
        };
        let old_module = self.modules.remove(pos);
        proof {
            Self::lemma_remove_wf(old_self, *self, pos as int);
            lemma_module_index_facts(old_self.modules@, parsed.path@);
        }
        let ghost heap0 = *heap;
        let ghost mid = *self;
        let id = self.module_load(heap, parsed)?;
        let ghost heap1 = *heap;
        let last = self.modules.len() - 1;
        let ghost new_m = self.modules@.last();
        proof {
            assert(old_module.id < old_self.next_id);
            assert forall|g: u64| heap1.live(g) && g > heap0.allocated() implies (#[trigger] swapped_class(heap1.object(g).class, old_module, new_m)) is Some by {
                heap1.lemma_live_allocated(g);
                let i = (g - heap0.allocated() - 1) as int;
                assert(0 <= i < new_m.objects@.len());
                assert(new_m.objects@[i].instance.0 == g);
            }
        }
        let result = remap_classes(heap, &old_module, &self.modules[last]);
        proof {
            assert forall|g: u64| #[trigger] heap0.live(g) implies heap1.live(g) && heap1.object(g) == heap0.object(g) by {
                heap0.lemma_live_allocated(g);
            }
            assert forall|i: int| 0 <= i < new_m.objects@.len() implies fresh_object(*heap, (#[trigger] new_m.objects@[i]).instance.0, ClassRef { module_id: new_m.id, index: i as usize, singleton: true }) by {
                let g = new_m.objects@[i].instance.0;
                assert(heap1.live(g));
                assert(swapped_class(heap1.object(g).class, old_module, new_m) == Some(heap1.object(g).class));
            }
        }
        match result {
            Ok(()) => {
                proof {
                    assert forall|g: u64| heap0.live(g) implies (#[trigger] swapped_class(heap0.object(g).class, old_module, new_m)) is Some by {
                        assert(heap1.object(g) == heap0.object(g));
                    }
                }
                Ok(id)
            },
            Err(e) => {
                proof {
                    let h = choose|h: u64| #![trigger heap1.object(h)]
                        heap1.live(h) && swapped_class(heap1.object(h).class, old_module, new_m) is None
                            && (e matches VMError::ClassNotFound(s) && s@ == old_module.classes@[heap1.object(h).class.index as int].name@)
                            && (forall|g: u64| g < h && heap1.live(g) ==> (#[trigger] swapped_class(heap1.object(g).class, old_module, new_m)) is Some
                                && heap.object(g).class == swapped_class(heap1.object(g).class, old_module, new_m)->0)
                            && (forall|g: u64| g >= h && heap1.live(g) ==> #[trigger] heap.object(g) == heap1.object(g));
                    heap1.lemma_live_allocated(h);
                    assert(h <= heap0.allocated());
                    assert(heap0.live(h) && heap0.object(h) == heap1.object(h));
                    assert forall|g: u64| g < h && heap0.live(g) implies (#[trigger] swapped_class(heap0.object(g).class, old_module, new_m)) is Some by {
                        assert(heap1.object(g) == heap0.object(g));
                    }
                    assert forall|g: u64| heap0.live(g) implies (#[trigger] swapped_class(heap0.object(g).class, old_module, new_m)) is Some == false || true by {}
                }
                Err(e)
            },
        }
    }
}


/// The outcome of replacing the module loaded under `p.path` (see
/// `module_hotswap`).
pub open spec fn hotswapped(
    before: VMModuleManager,
    after: VMModuleManager,
    heap0: VMHeap,
    heap1: VMHeap,
    p: ParsedModule,
    r: Result<ModuleRef, VMError>,
) -> bool {
    let pos = module_index(before.modules@, p.path@)->0;
    let old_m = before.modules@[pos];
    let base = before.modules@.remove(pos);
    let id = before.next_id;
    let mods = base.push(pending_module(id, p));
    let m = after.modules@.last();
    &&& module_registered(
        id,
        base,
        after,
        heap0.allocated(),
        heap1,
        p,
        if load_ok(mods, p) { Ok::<ModuleRef, VMError>(ModuleRef(id)) } else { r },
    )
    &&& (!load_ok(mods, p) ==> r is Err && heap1 == heap0)
    &&& (load_ok(mods, p) ==> heap1.allocated() == heap0.allocated() + p.objects@.len() && forall|g: u64|
        heap0.live(g) ==> #[trigger] heap1.live(g) && same_but_class(heap0.object(g), heap1.object(g)))
    &&& (load_ok(mods, p) ==> (r is Ok <==> forall|g: u64|
        heap0.live(g) ==> (#[trigger] swapped_class(heap0.object(g).class, old_m, m)) is Some))
    &&& (load_ok(mods, p) && r is Ok ==> r == Ok::<ModuleRef, VMError>(ModuleRef(id)) && forall|g: u64|
        heap0.live(g) ==> (#[trigger] heap1.object(g)).class == swapped_class(heap0.object(g).class, old_m, m)->0)
    &&& (load_ok(mods, p) ==> (r matches Err(e) ==> exists|h: u64| #![trigger heap0.object(h)]
        heap0.live(h) && swapped_class(heap0.object(h).class, old_m, m) is None && (e matches VMError::ClassNotFound(
            s,
        ) && s@ == old_m.classes@[heap0.object(h).class.index as int].name@) && forall|g: u64|
            g < h && heap0.live(g) ==> (#[trigger] swapped_class(heap0.object(g).class, old_m, m)) is Some))
}

/// The outcome of loading `p`: registered anew when no module is loaded
/// under its path, hotswapped otherwise.
pub open spec fn load_outcome(
    before: VMModuleManager,
    after: VMModuleManager,
    heap0: VMHeap,
    heap1: VMHeap,
    p: ParsedModule,
    r: Result<ModuleRef, VMError>,
) -> bool {
    &&& after.wf()
    &&& if module_index(before.modules@, p.path@) is None {
        &&& module_registered(before.next_id, before.modules@, after, heap0.allocated(), heap1, p, r)
        &&& (r is Ok ==> grown_by(heap0, heap1, p.objects@.len()))
        &&& (r is Err ==> heap1 == heap0)
    } else {
        hotswapped(before, after, heap0, heap1, p, r)
    }
}

/// `p` is what `module_parse_napi` makes of `module`.
pub open spec fn napi_parsed(p: ParsedModule, module: ModuleDef) -> bool {
    &&& parsed_wf(p)
    &&& p.path == module.path
    &&& p.uses == module.uses
    &&& p.functions@ == module.functions@.map_values(|d: FunctionDef| function_from_def(d))
    &&& p.classes@.len() == module.classes@.len()
    &&& forall|i: int| 0 <= i < module.classes@.len() ==> class_from_def(#[trigger] p.classes@[i], module.classes@[i])
        && p.class_extends@[i]@ == module.classes@[i].extends@
    &&& p.objects@.len() == module.objects@.len()
    &&& forall|i: int| 0 <= i < module.objects@.len() ==> object_from_def(#[trigger] p.objects@[i], module.objects@[i])
        && p.object_extends@[i]@ == module.objects@[i].extends@
}

/// `p` is what `module_parse_ast` makes of `module`.
pub open spec fn ast_parsed(p: ParsedModule, module: parser::Module) -> bool {
    &&& parsed_wf(p)
    &&& p.path == module.path
    &&& p.uses == module.uses
    &&& p.functions@ == ast_functions(module.items@)
    &&& p.classes@.len() == ast_classes(module.items@).len()
    &&& forall|i: int| 0 <= i < p.classes@.len() ==> class_from_ast(#[trigger] p.classes@[i], ast_classes(module.items@)[i])
        && p.class_extends@[i]@ == ast_classes(module.items@)[i].extends@
    &&& p.objects@.len() == ast_objects(module.items@).len()
    &&& forall|i: int| 0 <= i < p.objects@.len() ==> class_from_ast((#[trigger] p.objects@[i]).class, ast_objects(module.items@)[i])
        && p.objects@[i].instance == ObjectRef(0) && p.object_extends@[i]@ == ast_objects(module.items@)[i].extends@
}

/// The classes and objects of `module` extend classes by full names.
pub open spec fn napi_names_full(module: ModuleDef) -> bool {
    &&& forall|i: int| 0 <= i < module.classes@.len() ==> all_full_names(#[trigger] module.classes@[i].extends@)
    &&& forall|i: int| 0 <= i < module.objects@.len() ==> all_full_names(#[trigger] module.objects@[i].extends@)
}

/// The classes and objects of `module` extend classes by full names.
pub open spec fn ast_names_full(module: parser::Module) -> bool {
    &&& forall|i: int| 0 <= i < ast_classes(module.items@).len() ==> all_full_names(#[trigger] ast_classes(module.items@)[i].extends@)
    &&& forall|i: int| 0 <= i < ast_objects(module.items@).len() ==> all_full_names(#[trigger] ast_objects(module.items@)[i].extends@)
}

impl VMModuleManager {
    /// Loads a parsed module: it replaces the module loaded under the same
    /// path (see `module_hotswap`), or is registered anew (see
    /// `module_load`). The VM then initialises the new objects' instances
    /// and runs the module's `__entry__` function, if it has one.
    pub fn load_module(&mut self, heap: &mut VMHeap, parsed: ParsedModule) -> (r: Result<ModuleRef, VMError>)
        requires
            old(self).wf(),
            parsed_wf(parsed),
            parsed_names_full(parsed),
            old(self).next_id < u64::MAX,
            old(heap).allocated() + parsed.objects@.len() < u64::MAX,
        ensures
            load_outcome(*old(self), *final(self), *old(heap), *final(heap), parsed, r),
    {
        match self.module_position(parsed.path.as_str()) {
            Some(_) => self.module_hotswap(heap, parsed),
            None => self.module_load(heap, parsed),
        }
    }

    /// Parses and loads a module defined by native code.
    pub fn load_napi_module(&mut self, heap: &mut VMHeap, module: ModuleDef) -> (r: Result<ModuleRef, VMError>)
        requires
            old(self).wf(),
            napi_names_full(module),
            old(self).next_id < u64::MAX,
            old(heap).allocated() + module.objects@.len() < u64::MAX,
        ensures
            exists|p: ParsedModule| napi_parsed(p, module) && load_outcome(*old(self), *final(self), *old(heap), *final(heap), p, r),
    {
        let parsed = module_parse_napi(module);
        proof {
            assert forall|i: int| 0 <= i < parsed.class_extends@.len() implies all_full_names(#[trigger] parsed.class_extends@[i]@) by {
                let c = parsed.classes@[i];
                assert(all_full_names(module.classes@[i].extends@));
            }
            assert forall|i: int| 0 <= i < parsed.object_extends@.len() implies all_full_names(#[trigger] parsed.object_extends@[i]@) by {
                let o = parsed.objects@[i];
                assert(all_full_names(module.objects@[i].extends@));
            }
        }
        let ghost p = parsed;
        let r = self.load_module(heap, parsed);
        assert(napi_parsed(p, module));
        r
    }

    /// Parses and loads a source module.
    pub fn load_ast_module(&mut self, heap: &mut VMHeap, module: parser::Module) -> (r: Result<ModuleRef, VMError>)
        requires
            old(self).wf(),
            ast_names_full(module),
            old(self).next_id < u64::MAX,
            old(heap).allocated() + ast_objects(module.items@).len() < u64::MAX,
        ensures
            exists|p: ParsedModule| ast_parsed(p, module) && load_outcome(*old(self), *final(self), *old(heap), *final(heap), p, r),
    {
        let parsed = module_parse_ast(module);
        proof {
            assert forall|i: int| 0 <= i < parsed.class_extends@.len() implies all_full_names(#[trigger] parsed.class_extends@[i]@) by {
                let c = parsed.classes@[i];
                assert(all_full_names(ast_classes(module.items@)[i].extends@));
            }
            assert forall|i: int| 0 <= i < parsed.object_extends@.len() implies all_full_names(#[trigger] parsed.object_extends@[i]@) by {
                let o = parsed.objects@[i];
                assert(all_full_names(ast_objects(module.items@)[i].extends@));
            }
        }
        let ghost p = parsed;
        let r = self.load_module(heap, parsed);
        assert(ast_parsed(p, module));
        r
    }
}


/// The position of the first function named `name`.
pub open spec fn function_index(fs: Seq<Function>, name: Seq<char>) -> Option<int>
    decreases fs.len(),
{
    if fs.len() == 0 {
        None
    } else if fs[0].spec_name() == name {
        Some(0)
    } else {
        match function_index(fs.drop_first(), name) {
            Some(i) => Some(i + 1),
            None => None,
        }
    }
}

/// `function_index` is the position before which no function has the name.
pub proof fn lemma_function_index(fs: Seq<Function>, name: Seq<char>, k: int)
    requires
        0 <= k <= fs.len(),
        k < fs.len() ==> fs[k].spec_name() == name,
        forall|j: int| 0 <= j < k ==> (#[trigger] fs[j]).spec_name() != name,
    ensures
        function_index(fs, name) == if k < fs.len() { Some(k) } else { None::<int> },
    decreases fs.len(),
{
    if fs.len() > 0 && k > 0 {
        assert(fs[0].spec_name() != name);
        assert forall|j: int| 0 <= j < k - 1 implies (#[trigger] fs.drop_first()[j]).spec_name() != name by {
            assert(fs.drop_first()[j] == fs[j + 1]);
        }
        lemma_function_index(fs.drop_first(), name, k - 1);
    }
}

/// The position of the first function named `name`.
fn function_position(fs: &Vec<Function>, name: &str) -> (r: Option<usize>)
    ensures
        r matches Some(j) ==> function_index(fs@, name@) == Some(j as int) && j < fs@.len(),
        r is None ==> function_index(fs@, name@) is None,
{
    let n = fs.len();
    let mut j: usize = 0;
    while j < n
        invariant
            n == fs@.len(),
            j <= n,
            forall|k: int| 0 <= k < j ==> (#[trigger] fs@[k]).spec_name() != name@,
        decreases n - j,
    {
        if string_eq_str(fs[j].name(), name) {
            proof {
                lemma_function_index(fs@, name@, j as int);
            }
            return Some(j);
        }
        j = j + 1;
    }
    proof {
        lemma_function_index(fs@, name@, n as int);
    }
    None
}

impl Module {
    /// The first function of the module named `name`.
    pub fn try_find_method(&self, name: &str) -> (r: Option<&Function>)
        ensures
            function_index(self.functions@, name@) matches Some(i) ==> r == Some(&self.functions@[i]),
            function_index(self.functions@, name@) is None ==> r is None,
    {
        match function_position(&self.functions, name) {
            Some(i) => Some(&self.functions[i]),
            None => None,
        }
    }

    /// The first function of the module named `name`, or `MethodNotFound`.
    pub fn find_method(&self, name: &str) -> (r: Result<&Function, VMError>)
        ensures
            function_index(self.functions@, name@) matches Some(i) ==> r == Ok::<&Function, VMError>(&self.functions@[i]),
            function_index(self.functions@, name@) is None ==> (r matches Err(VMError::MethodNotFound(s)) && s@ == name@),
    {
        match self.try_find_method(name) {
            Some(f) => Ok(f),
            None => Err(VMError::MethodNotFound(String::from_str(name))),
        }
    }
}

impl Singleton {
    /// The instance of the object, which loading set.
    pub fn instance(&self) -> (r: ObjectRefNN)
        requires
            self.instance.0 != 0,
        ensures
            r.addr() == self.instance.0,
    {
        ObjectRefNN::new(self.instance.0)
    }
}

/// The position of the module of load id `id`.
pub open spec fn id_index(mods: Seq<Module>, id: u64) -> Option<int>
    decreases mods.len(),
{
    if mods.len() == 0 {
        None
    } else if mods[0].id == id {
        Some(0)
    } else {
        match id_index(mods.drop_first(), id) {
            Some(i) => Some(i + 1),
            None => None,
        }
    }
}

pub proof fn lemma_id_index(mods: Seq<Module>, id: u64, k: int)
    requires
        0 <= k <= mods.len(),
        k < mods.len() ==> mods[k].id == id,
        forall|j: int| 0 <= j < k ==> (#[trigger] mods[j]).id != id,
    ensures
        id_index(mods, id) == if k < mods.len() { Some(k) } else { None::<int> },
    decreases mods.len(),
{
    if mods.len() > 0 && k > 0 {
        assert(mods[0].id != id);
        assert forall|j: int| 0 <= j < k - 1 implies (#[trigger] mods.drop_first()[j]).id != id by {
            assert(mods.drop_first()[j] == mods[j + 1]);
        }
        lemma_id_index(mods.drop_first(), id, k - 1);
    }
}

/// The class `c` names among the loaded modules, if any.
pub open spec fn class_of(mods: Seq<Module>, c: ClassRef) -> Option<Class> {
    match id_index(mods, c.module_id) {
        Some(i) => if c.singleton {
            if c.index < mods[i].objects@.len() {
                Some(mods[i].objects@[c.index as int].class)
            } else {
                None
            }
        } else {
            if c.index < mods[i].classes@.len() {
                Some(mods[i].classes@[c.index as int])
            } else {
                None
            }
        },
        None => None,
    }
}

/// The method named `name` that a class answers with: its own first method
/// of that name, else the first found through the classes it extends, in
/// order, looking at most `depth` classes deep.
pub open spec fn lookup_method(mods: Seq<Module>, c: Class, name: Seq<char>, depth: nat) -> Option<Function>
    decreases depth, 0nat, 0nat,
{
    if depth == 0 {
        None
    } else {
        match function_index(c.methods@, name) {
            Some(i) => Some(c.methods@[i]),
            None => lookup_in_extends(mods, c.extends@, name, (depth - 1) as nat),
        }
    }
}

/// The method named `name` found through the classes `exts`, in order.
pub open spec fn lookup_in_extends(mods: Seq<Module>, exts: Seq<ClassRef>, name: Seq<char>, depth: nat) -> Option<Function>
    decreases depth, 1nat, exts.len(),
{
    if exts.len() == 0 {
        None
    } else {
        let found = match class_of(mods, exts[0]) {
            Some(k) => lookup_method(mods, k, name, depth),
            None => None,
        };
        match found {
            Some(f) => Some(f),
            None => lookup_in_extends(mods, exts.drop_first(), name, depth),
        }
    }
}

/// The function `function_index` names has the name asked for.
pub proof fn lemma_function_index_name(fs: Seq<Function>, name: Seq<char>)
    ensures
        function_index(fs, name) matches Some(i) ==> 0 <= i < fs.len() && fs[i].spec_name() == name,
    decreases fs.len(),
{
    if fs.len() > 0 && fs[0].spec_name() != name {
        lemma_function_index_name(fs.drop_first(), name);
    }
}

/// A class answers with its own first method named `name` whenever it has
/// one, whatever the classes it extends define: own methods override
/// inherited ones.
pub proof fn lemma_own_method_overrides(mods: Seq<Module>, c: Class, name: Seq<char>, depth: nat, i: int)
    requires
        depth > 0,
        0 <= i < c.methods@.len(),
        c.methods@[i].spec_name() == name,
        forall|j: int| 0 <= j < i ==> (#[trigger] c.methods@[j]).spec_name() != name,
    ensures
        lookup_method(mods, c, name, depth) == Some(c.methods@[i]),
{
    lemma_function_index(c.methods@, name, i);
}

/// The method a class answers with for `name` is named `name`.
pub proof fn lemma_lookup_has_name(mods: Seq<Module>, c: Class, name: Seq<char>, depth: nat)
    ensures
        lookup_method(mods, c, name, depth) matches Some(f) ==> f.spec_name() == name,
    decreases depth, 0nat, 0nat,
{
    if depth > 0 {
        lemma_function_index_name(c.methods@, name);
        if function_index(c.methods@, name) is None {
            lemma_lookup_in_extends_has_name(mods, c.extends@, name, (depth - 1) as nat);
        }
    }
}

/// The method found through extended classes for `name` is named `name`.
pub proof fn lemma_lookup_in_extends_has_name(mods: Seq<Module>, exts: Seq<ClassRef>, name: Seq<char>, depth: nat)
    ensures
        lookup_in_extends(mods, exts, name, depth) matches Some(f) ==> f.spec_name() == name,
    decreases depth, 1nat, exts.len(),
{
    if exts.len() > 0 {
        if let Some(k) = class_of(mods, exts[0]) {
            lemma_lookup_has_name(mods, k, name, depth);
        }
        lemma_lookup_in_extends_has_name(mods, exts.drop_first(), name, depth);
    }
}

/// Every chain of extended classes from `c` is shorter than `depth` and
/// names loaded classes only.
pub open spec fn chains_within(mods: Seq<Module>, c: Class, depth: nat) -> bool
    decreases depth,
{
    depth > 0 && forall|i: int|
        0 <= i < c.extends@.len() ==> (#[trigger] class_of(mods, c.extends@[i])) is Some && chains_within(
            mods,
            class_of(mods, c.extends@[i])->0,
            (depth - 1) as nat,
        )
}

/// The extension graph from `c` is finite: no class extends itself, even
/// through others.
pub open spec fn extends_acyclic(mods: Seq<Module>, c: Class) -> bool {
    exists|depth: nat| chains_within(mods, c, depth)
}

/// A depth bound for the chains from `c`.
pub open spec fn chain_bound(mods: Seq<Module>, c: Class) -> nat {
    choose|depth: nat| chains_within(mods, c, depth)
}

impl VMModuleManager {
    /// The class `c` names, if it is loaded.
    pub fn class_of(&self, c: ClassRef) -> (r: Option<&Class>)
        ensures
            class_of(self.modules@, c) matches Some(k) ==> r == Some(&k),
            class_of(self.modules@, c) is None ==> r is None,
    {
        let n = self.modules.len();
        let mut i: usize = 0;
        while i < n
            invariant
                n == self.modules@.len(),
                i <= n,
                forall|j: int| 0 <= j < i ==> (#[trigger] self.modules@[j]).id != c.module_id,
            decreases n - i,
        {
            if self.modules[i].id == c.module_id {
                proof {
                    lemma_id_index(self.modules@, c.module_id, i as int);
                }
                let m = &self.modules[i];
                if c.singleton {
                    if c.index < m.objects.len() {
                        return Some(&m.objects[c.index].class);
                    } else {
                        return None;
                    }
                } else {
                    if c.index < m.classes.len() {
                        return Some(&m.classes[c.index]);
                    } else {
                        return None;
                    }
                }
            }
            i = i + 1;
        }
        proof {
            lemma_id_index(self.modules@, c.module_id, n as int);
        }
        None
    }
}

impl Class {
    fn find_in<'a>(&'a self, mgr: &'a VMModuleManager, name: &str, Ghost(depth): Ghost<nat>) -> (r: Option<&'a Function>)
        requires
            chains_within(mgr.modules@, *self, depth),
        ensures
            r matches Some(f) ==> lookup_method(mgr.modules@, *self, name@, depth) == Some(*f),
            r is None ==> lookup_method(mgr.modules@, *self, name@, depth) is None,
        decreases depth,
    {
        if let Some(i) = function_position(&self.methods, name) {
            return Some(&self.methods[i]);
        }
        let n = self.extends.len();
        let mut k: usize = 0;
        proof {
            assert(self.extends@.skip(0) =~= self.extends@);
        }
        while k < n
            invariant
                n == self.extends@.len(),
                k <= n,
                depth > 0,
                chains_within(mgr.modules@, *self, depth),
                function_index(self.methods@, name@) is None,
                lookup_in_extends(mgr.modules@, self.extends@, name@, (depth - 1) as nat) == lookup_in_extends(
                    mgr.modules@,
                    self.extends@.skip(k as int),
                    name@,
                    (depth - 1) as nat,
                ),
            decreases n - k,
        {
            let ghost rest = self.extends@.skip(k as int);
            proof {
                assert(rest[0] == self.extends@[k as int]);
                assert(rest.drop_first() =~= self.extends@.skip(k + 1));
                assert(class_of(mgr.modules@, self.extends@[k as int]) is Some);
            }
            let e = self.extends[k];
            match mgr.class_of(e) {
                Some(parent) => {
                    if let Some(f) = parent.find_in(mgr, name, Ghost((depth - 1) as nat)) {
                        return Some(f);
                    }
                },
                None => {},
            }
            k = k + 1;
        }
        proof {
            assert(self.extends@.skip(n as int) =~= Seq::<ClassRef>::empty());
        }
        None
    }

    /// The method named `name` the class answers with: its own first method
    /// of that name, else the first found through the classes it extends,
    /// depth first, in order.
    pub fn try_find_method<'a>(&'a self, mgr: &'a VMModuleManager, name: &str) -> (r: Option<&'a Function>)
        requires
            extends_acyclic(mgr.modules@, *self),
        ensures
            r matches Some(f) ==> lookup_method(mgr.modules@, *self, name@, chain_bound(mgr.modules@, *self)) == Some(*f),
            r is None ==> lookup_method(mgr.modules@, *self, name@, chain_bound(mgr.modules@, *self)) is None,
            r matches Some(f) ==> f.spec_name() == name@,
            forall|i: int|
                0 <= i < self.methods@.len() && (#[trigger] self.methods@[i]).spec_name() == name@ && (forall|j: int|
                    0 <= j < i ==> self.methods@[j].spec_name() != name@) ==> r == Some(&self.methods@[i]),
    {
        let ghost depth = chain_bound(mgr.modules@, *self);
        let r = self.find_in(mgr, name, Ghost(depth));
        proof {
            assert(chains_within(mgr.modules@, *self, depth));
            lemma_lookup_has_name(mgr.modules@, *self, name@, depth);
            assert forall|i: int|
                0 <= i < self.methods@.len() && (#[trigger] self.methods@[i]).spec_name() == name@ && (forall|j: int|
                    0 <= j < i ==> self.methods@[j].spec_name() != name@) implies r == Some(&self.methods@[i]) by {
                lemma_own_method_overrides(mgr.modules@, *self, name@, depth, i);
            }
        }
        r
    }

    /// The method named `name` the class answers with (see
    /// `try_find_method`), or `MethodNotFound`.
    pub fn find_method<'a>(&'a self, mgr: &'a VMModuleManager, name: &str) -> (r: Result<&'a Function, VMError>)
        requires
            extends_acyclic(mgr.modules@, *self),
        ensures
            r matches Ok(f) ==> lookup_method(mgr.modules@, *self, name@, chain_bound(mgr.modules@, *self)) == Some(*f),
            r is Err ==> lookup_method(mgr.modules@, *self, name@, chain_bound(mgr.modules@, *self)) is None
                && (r matches Err(VMError::MethodNotFound(s)) && s@ == name@),
            r matches Ok(f) ==> f.spec_name() == name@,
            forall|i: int|
                0 <= i < self.methods@.len() && (#[trigger] self.methods@[i]).spec_name() == name@ && (forall|j: int|
                    0 <= j < i ==> self.methods@[j].spec_name() != name@) ==> r == Ok::<&Function, VMError>(
                    &self.methods@[i],
                ),
    {
        match self.try_find_method(mgr, name) {
            Some(f) => Ok(f),
            None => Err(VMError::MethodNotFound(String::from_str(name))),
        }
    }
}


/// After a load, successful or not, the module is registered under its path
/// with the load id it was given, which a successful load returns.
pub proof fn lemma_loaded_module_is_found(
    before: VMModuleManager,
    after: VMModuleManager,
    heap0: VMHeap,
    heap1: VMHeap,
    p: ParsedModule,
    r: Result<ModuleRef, VMError>,
)
    requires
        before.wf(),
        load_outcome(before, after, heap0, heap1, p, r),
    ensures
        module_index(after.modules@, p.path@) == Some(after.modules@.len() - 1),
        after.modules@.last().id == before.next_id,
        r is Ok ==> r == Ok::<ModuleRef, VMError>(ModuleRef(before.next_id)),
{
    let n = after.modules@.len() as int;
    let base = after.modules@.drop_last();
    assert forall|j: int| 0 <= j < n - 1 implies (#[trigger] after.modules@[j]).path@ != p.path@ by {
        assert(after.modules@[j] == base[j]);
        assert(after.modules@[j].path@ != after.modules@[n - 1].path@);
    }
    lemma_module_index(after.modules@, p.path@, n - 1);
}

/// A load changes no module loaded under another path.
pub proof fn lemma_load_keeps_other_modules(
    before: VMModuleManager,
    after: VMModuleManager,
    heap0: VMHeap,
    heap1: VMHeap,
    p: ParsedModule,
    r: Result<ModuleRef, VMError>,
    q: Seq<char>,
)
    requires
        before.wf(),
        load_outcome(before, after, heap0, heap1, p, r),
        q != p.path@,
    ensures
        module_index(before.modules@, q) is Some <==> module_index(after.modules@, q) is Some,
        module_index(before.modules@, q) matches Some(i) ==> after.modules@[module_index(after.modules@, q)->0]
            == before.modules@[i],
{
    lemma_module_index_facts(before.modules@, q);
    lemma_module_index_facts(after.modules@, q);
    let base = after.modules@.drop_last();
    let n = after.modules@.len() as int;
    assert forall|j: int| 0 <= j < n - 1 implies #[trigger] after.modules@[j] == base[j] by {}
    if module_index(before.modules@, p.path@) is None {
        assert(base == before.modules@);
        lemma_module_index_push(base, after.modules@.last(), q);
        assert(after.modules@ =~= base.push(after.modules@.last()));
    } else {
        let pos = module_index(before.modules@, p.path@)->0;
        lemma_module_index_facts(before.modules@, p.path@);
        assert(base == before.modules@.remove(pos));
        lemma_module_index_push(base, after.modules@.last(), q);
        assert(after.modules@ =~= base.push(after.modules@.last()));
        lemma_module_index_facts(base, q);
        match module_index(before.modules@, q) {
            Some(i) => {
                assert(i != pos);
                let i2 = if i < pos { i } else { i - 1 };
                assert(base[i2] == before.modules@[i]);
                assert forall|j: int| 0 <= j < i2 implies (#[trigger] base[j]).path@ != q by {
                    let j2 = if j < pos { j } else { j + 1 };
                    assert(base[j] == before.modules@[j2]);
                }
                lemma_module_index(base, q, i2);
            },
            None => {
                assert forall|j: int| 0 <= j < base.len() implies (#[trigger] base[j]).path@ != q by {
                    let j2 = if j < pos { j } else { j + 1 };
                    assert(base[j] == before.modules@[j2]);
                }
                lemma_module_index(base, q, base.len() as int);
            },
        }
    }
}


/// A successful load keeps every singleton object backed by a live
/// instance.
pub proof fn lemma_load_keeps_instances_live(
    before: VMModuleManager,
    after: VMModuleManager,
    heap0: VMHeap,
    heap1: VMHeap,
    p: ParsedModule,
    r: Result<ModuleRef, VMError>,
)
    requires
        before.wf(),
        before.instances_live(&heap0),
        load_outcome(before, after, heap0, heap1, p, r),
        r is Ok,
    ensures
        after.instances_live(&heap1),
{
    let base = after.modules@.drop_last();
    let n = after.modules@.len() as int;
    let m = after.modules@.last();
    let fresh = module_index(before.modules@, p.path@) is None;
    let pos = module_index(before.modules@, p.path@)->0;
    if !fresh {
        lemma_module_index_facts(before.modules@, p.path@);
    }
    assert forall|i: int, j: int| 0 <= i < n && 0 <= j < after.modules@[i].objects@.len() implies heap1.live(
        #[trigger] after.modules@[i].objects@[j].instance.0,
    ) by {
        if i == n - 1 {
            assert(after.modules@[i] == m);
            assert(fresh_object(heap1, m.objects@[j].instance.0, ClassRef { module_id: m.id, index: j as usize, singleton: true }));
        } else {
            assert(after.modules@[i] == base[i]);
            let i2 = if fresh || i < pos { i } else { i + 1 };
            assert(base[i] == before.modules@[i2]);
            let g = before.modules@[i2].objects@[j].instance.0;
            assert(heap0.live(g));
            heap0.lemma_live_allocated(g);
        }
    }
}


/// A successful load keeps every singleton object's instance of the
/// object's own class.
pub proof fn lemma_load_keeps_instances_typed(
    before: VMModuleManager,
    after: VMModuleManager,
    heap0: VMHeap,
    heap1: VMHeap,
    p: ParsedModule,
    r: Result<ModuleRef, VMError>,
)
    requires
        before.wf(),
        before.instances_live(&heap0),
        before.instances_typed(&heap0),
        load_outcome(before, after, heap0, heap1, p, r),
        r is Ok,
    ensures
        after.instances_typed(&heap1),
{
    let base = after.modules@.drop_last();
    let n = after.modules@.len() as int;
    let m = after.modules@.last();
    let fresh = module_index(before.modules@, p.path@) is None;
    let pos = module_index(before.modules@, p.path@)->0;
    if !fresh {
        lemma_module_index_facts(before.modules@, p.path@);
    }
    assert forall|i: int, j: int| 0 <= i < n && 0 <= j < after.modules@[i].objects@.len() implies heap1.object(
        #[trigger] after.modules@[i].objects@[j].instance.0,
    ).class == ClassRef { module_id: after.modules@[i].id, index: j as usize, singleton: true } by {
        if i == n - 1 {
            assert(after.modules@[i] == m);
            assert(fresh_object(heap1, m.objects@[j].instance.0, ClassRef { module_id: m.id, index: j as usize, singleton: true }));
        } else {
            assert(after.modules@[i] == base[i]);
            let i2 = if fresh || i < pos { i } else { i + 1 };
            assert(base[i] == before.modules@[i2]);
            let g = before.modules@[i2].objects@[j].instance.0;
            assert(heap0.live(g));
            heap0.lemma_live_allocated(g);
            if !fresh {
                let old_m = before.modules@[pos];
                assert(swapped_class(heap0.object(g).class, old_m, m) == Some(heap0.object(g).class));
            }
        }
    }
}


impl VMModuleManager {
    /// The path of the module of load id `id`.
    pub fn path_of_module(&self, id: u64) -> (r: Option<&String>)
        ensures
            module_path_of(self.modules@, id) matches Some(p) ==> (r matches Some(s) && s@ == p),
            module_path_of(self.modules@, id) is None ==> r is None,
    {
        let n = self.modules.len();
        let mut i: usize = 0;
        while i < n
            invariant
                n == self.modules@.len(),
                i <= n,
                forall|j: int| 0 <= j < i ==> (#[trigger] self.modules@[j]).id != id,
            decreases n - i,
        {
            if self.modules[i].id == id {
                proof {
                    lemma_id_index(self.modules@, id, i as int);
                }
                return Some(&self.modules[i].path);
            }
            i = i + 1;
        }
        proof {
            lemma_id_index(self.modules@, id, n as int);
        }
        None
    }
}


/// The full name `path/name` of `name` in module `path`.
pub open spec fn full_name(path: Seq<char>, name: Seq<char>) -> Seq<char> {
    path + seq!['/'] + name
}

/// A full name splits back into its module path and its last segment.
pub proof fn lemma_full_name_parts(path: Seq<char>, name: Seq<char>)
    requires
        !name.contains('/'),
    ensures
        is_full_name(full_name(path, name)),
        module_part(full_name(path, name)) == path,
        name_part(full_name(path, name)) == name,
{
    let s = full_name(path, name);
    let k = path.len() as int;
    assert forall|j: int| k < j < s.len() implies s[j] != '/' by {
        assert(s[j] == name[j - k - 1]);
    }
    crate::text::lemma_last_index(s, '/', k);
    assert(s.subrange(0, k) =~= path);
    assert(s.subrange(k + 1, s.len() as int) =~= name);
}

/// `class_index` looks at the names only.
proof fn lemma_class_index_by_names(a: Seq<Class>, b: Seq<Class>, name: Seq<char>)
    requires
        a.len() == b.len(),
        forall|i: int| 0 <= i < a.len() ==> (#[trigger] a[i]).name == b[i].name,
    ensures
        class_index(a, name) == class_index(b, name),
    decreases a.len(),
{
    if a.len() > 0 {
        assert(a[0].name == b[0].name);
        assert forall|i: int| 0 <= i < a.drop_first().len() implies (#[trigger] a.drop_first()[i]).name == b.drop_first()[i].name by {
            assert(a.drop_first()[i] == a[i + 1]);
            assert(b.drop_first()[i] == b[i + 1]);
        }
        lemma_class_index_by_names(a.drop_first(), b.drop_first(), name);
    }
}

/// `object_index` looks at the names of the objects' classes only.
proof fn lemma_object_index_by_names(a: Seq<Singleton>, b: Seq<Singleton>, name: Seq<char>)
    requires
        a.len() == b.len(),
        forall|i: int| 0 <= i < a.len() ==> (#[trigger] a[i]).class.name == b[i].class.name,
    ensures
        object_index(a, name) == object_index(b, name),
    decreases a.len(),
{
    if a.len() > 0 {
        assert(a[0].class.name == b[0].class.name);
        assert forall|i: int| 0 <= i < a.drop_first().len() implies (#[trigger] a.drop_first()[i]).class.name == b.drop_first()[i].class.name by {
            assert(a.drop_first()[i] == a[i + 1]);
            assert(b.drop_first()[i] == b[i + 1]);
        }
        lemma_object_index_by_names(a.drop_first(), b.drop_first(), name);
    }
}

/// After a successful load, the full name `path/Name` of a class of the
/// module names the module's first class called `Name`, and that of a
/// singleton object names its first object of that name, whose instance
/// the lookup hands out.
pub proof fn lemma_loaded_names_are_found(
    before: VMModuleManager,
    after: VMModuleManager,
    heap0: VMHeap,
    heap1: VMHeap,
    p: ParsedModule,
    r: Result<ModuleRef, VMError>,
    name: Seq<char>,
)
    requires
        before.wf(),
        load_outcome(before, after, heap0, heap1, p, r),
        r is Ok,
        !name.contains('/'),
    ensures
        is_full_name(full_name(p.path@, name)),
        class_lookup(after.modules@, full_name(p.path@, name)) == Some(
            match class_index(p.classes@, name) {
                Some(j) => Some(ClassRef { module_id: before.next_id, index: j as usize, singleton: false }),
                None => None::<ClassRef>,
            },
        ),
        module_index(after.modules@, module_part(full_name(p.path@, name))) == Some(after.modules@.len() - 1),
        object_index(after.modules@.last().objects@, name_part(full_name(p.path@, name))) == object_index(p.objects@, name),
        object_index(p.objects@, name) matches Some(j) ==> after.modules@.last().objects@[j].instance.0 == heap0.allocated() + j + 1,
{
    lemma_full_name_parts(p.path@, name);
    lemma_loaded_module_is_found(before, after, heap0, heap1, p, r);
    let m = after.modules@.last();
    assert forall|i: int| 0 <= i < m.classes@.len() implies (#[trigger] m.classes@[i]).name == p.classes@[i].name by {}
    lemma_class_index_by_names(m.classes@, p.classes@, name);
    assert forall|i: int| 0 <= i < m.objects@.len() implies (#[trigger] m.objects@[i]).class.name == p.objects@[i].class.name by {}
    lemma_object_index_by_names(m.objects@, p.objects@, name);
    lemma_class_index_facts(p.classes@, name);
    lemma_object_index_facts(p.objects@, name);
    if class_index(p.classes@, name) is Some {
        assert(p.classes@.len() == p.classes.len());
    }
}

} // verus!
