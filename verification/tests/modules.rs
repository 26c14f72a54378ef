use ygvm::napi::module::{ClassDef, FunctionBodyDef, FunctionDef, ModuleDef, NativeFunction};
use ygvm::syntax::parser;
use ygvm::vm::heap::{ClassRef, ObjectRef, ObjectRefNN};
use ygvm::vm::module::{Function, ModuleRef};
use ygvm::vm::{VMError, VM};

fn native(name: &str, id: u64) -> FunctionDef {
    FunctionDef { name: name.to_string(), params: vec![], body: FunctionBodyDef::Native(NativeFunction::Host(id)) }
}

fn class(name: &str, extends: &[&str], methods: Vec<FunctionDef>) -> ClassDef {
    ClassDef {
        name: name.to_string(),
        extends: extends.iter().map(|e| e.to_string()).collect(),
        methods,
        allocation: 0,
    }
}

fn core_def() -> ModuleDef {
    ModuleDef {
        path: "std/core".to_string(),
        uses: vec![],
        functions: vec![native("__entry__", 1)],
        classes: vec![
            class("Object", &[], vec![native("__init__", 2), native("__eq__", 3)]),
            class("Map", &["std/core/Object"], vec![native("__init__", 4)]),
            class("Exception", &["std/core/Object"], vec![]),
        ],
        objects: vec![class("True", &["std/core/Object"], vec![]), class("False", &["std/core/Object"], vec![])],
    }
}

fn loaded_vm() -> VM {
    let mut vm = VM::new();
    let r = vm.modules.load_napi_module(&mut vm.heap, core_def());
    assert!(matches!(r, Ok(ModuleRef(1))));
    vm
}

#[test]
fn load_registers_module_and_instances() {
    let vm = loaded_vm();
    assert_eq!(vm.modules.modules.len(), 1);
    let m = &vm.modules.modules[0];
    assert_eq!(m.id, 1);
    assert_eq!(m.path, "std/core");
    assert_eq!(m.classes.len(), 3);
    assert_eq!(m.objects.len(), 2);
    // the classes know their module and resolve what they extend
    assert_eq!(m.classes[1].owner, ModuleRef(1));
    assert_eq!(m.classes[1].extends, vec![ClassRef { module_id: 1, index: 0, singleton: false }]);
    // one fresh instance per singleton object, of the object's own class
    assert_eq!(m.objects[0].instance, ObjectRef(1));
    assert_eq!(m.objects[1].instance, ObjectRef(2));
    let o = vm.heap.get(ObjectRefNN::new(2));
    assert_eq!(o.class, ClassRef { module_id: 1, index: 1, singleton: true });
    assert_eq!(o.flags.rc, 1);
}

#[test]
fn find_module_and_classes() {
    let vm = loaded_vm();
    assert!(matches!(vm.modules.find_module("std/core"), Ok(ModuleRef(1))));
    match vm.modules.find_module("std/io") {
        Err(VMError::ModuleNotFound(p)) => assert_eq!(p, "std/io"),
        other => panic!("unexpected {:?}", other),
    }
    assert!(matches!(
        vm.modules.find_class("std/core/Map"),
        Ok(ClassRef { module_id: 1, index: 1, singleton: false })
    ));
    assert!(matches!(vm.modules.try_find_class("std/core/Nothing"), Ok(None)));
    match vm.modules.find_class("std/core/Nothing") {
        Err(VMError::ClassNotFound(c)) => assert_eq!(c, "std/core/Nothing"),
        other => panic!("unexpected {:?}", other),
    }
    match vm.modules.find_class("std/json/JsonElement") {
        Err(VMError::ModuleNotFound(p)) => assert_eq!(p, "std/json"),
        other => panic!("unexpected {:?}", other),
    }
    // singleton classes are not found as classes
    assert!(matches!(vm.modules.try_find_class("std/core/True"), Ok(None)));
}

#[test]
fn find_object_counts_a_reference() {
    let mut vm = loaded_vm();
    let t = vm.modules.find_object(&mut vm.heap, "std/core/True").ok().unwrap();
    assert_eq!(t.0.get(), 1);
    assert_eq!(vm.heap.get(ObjectRefNN::new(1)).flags.rc, 2);
    match vm.modules.find_object(&mut vm.heap, "std/core/Maybe") {
        Err(VMError::ObjectNotFound(n)) => assert_eq!(n, "std/core/Maybe"),
        other => panic!("unexpected {:?}", other),
    }
    assert!(matches!(vm.modules.try_find_object(&mut vm.heap, "std/core/Maybe"), Ok(None)));
    assert_eq!(vm.heap.get(ObjectRefNN::new(1)).flags.rc, 2);
}

#[test]
fn unresolved_extends_stops_the_load() {
    let mut vm = loaded_vm();
    let def = ModuleDef {
        path: "app/main".to_string(),
        uses: vec![],
        functions: vec![],
        classes: vec![
            class("A", &["std/core/Object"], vec![]),
            class("B", &["app/main/A", "std/core/Nope"], vec![]),
            class("C", &["other/Mod"], vec![]),
        ],
        objects: vec![],
    };
    match vm.modules.load_napi_module(&mut vm.heap, def) {
        Err(VMError::ClassNotFound(c)) => assert_eq!(c, "std/core/Nope"),
        other => panic!("unexpected {:?}", other),
    }
    // the module stays registered, with the classes before the failure set up
    assert_eq!(vm.modules.modules.len(), 2);
    let m = &vm.modules.modules[1];
    assert_eq!(m.classes[0].owner, ModuleRef(2));
    assert_eq!(m.classes[1].owner, ModuleRef(0));
    assert!(m.classes[1].extends.is_empty());
}

#[test]
fn classes_may_extend_their_own_module() {
    let mut vm = loaded_vm();
    let def = ModuleDef {
        path: "app/main".to_string(),
        uses: vec![],
        functions: vec![],
        classes: vec![class("Base", &[], vec![native("hello", 7)]), class("Derived", &["app/main/Base"], vec![])],
        objects: vec![class("Single", &["app/main/Derived"], vec![])],
    };
    assert!(matches!(vm.modules.load_napi_module(&mut vm.heap, def), Ok(ModuleRef(2))));
    let m = &vm.modules.modules[1];
    assert_eq!(m.classes[1].extends, vec![ClassRef { module_id: 2, index: 0, singleton: false }]);
    assert_eq!(m.objects[0].class.extends, vec![ClassRef { module_id: 2, index: 1, singleton: false }]);
    // method lookup goes through the extended classes
    let single = &m.objects[0].class;
    let f = single.try_find_method(&vm.modules, "hello").unwrap();
    assert_eq!(f.name(), "hello");
    assert!(f.is_native());
    assert!(single.try_find_method(&vm.modules, "absent").is_none());
    match single.find_method(&vm.modules, "absent") {
        Err(VMError::MethodNotFound(n)) => assert_eq!(n, "absent"),
        other => panic!("unexpected {:?}", other.map(|f| f.name().clone())),
    }
}

#[test]
fn module_functions_are_found_by_name() {
    let vm = loaded_vm();
    let m = &vm.modules.modules[0];
    let entry = m.try_find_method("__entry__").unwrap();
    assert!(matches!(entry, Function::Native { function: NativeFunction::Host(1), .. }));
    assert!(entry.params().is_empty());
    assert!(m.try_find_method("main").is_none());
    assert!(matches!(m.find_method("main"), Err(VMError::MethodNotFound(_))));
}

#[test]
fn hotswap_moves_objects_to_new_classes() {
    let mut vm = VM::new();
    let v1 = ModuleDef {
        path: "app/game".to_string(),
        uses: vec![],
        functions: vec![],
        classes: vec![class("Player", &[], vec![]), class("Enemy", &[], vec![])],
        objects: vec![],
    };
    assert!(matches!(vm.modules.load_napi_module(&mut vm.heap, v1), Ok(ModuleRef(1))));
    let player = vm.heap.allocate(ClassRef { module_id: 1, index: 0, singleton: false });
    let v2 = ModuleDef {
        path: "app/game".to_string(),
        uses: vec![],
        functions: vec![],
        classes: vec![class("Boss", &[], vec![]), class("Player", &[], vec![]), class("Enemy", &[], vec![])],
        objects: vec![],
    };
    assert!(matches!(vm.modules.load_napi_module(&mut vm.heap, v2), Ok(ModuleRef(2))));
    assert_eq!(vm.modules.modules.len(), 1);
    assert_eq!(vm.modules.modules[0].id, 2);
    assert_eq!(vm.heap.get(player).class, ClassRef { module_id: 2, index: 1, singleton: false });
}

#[test]
fn hotswap_fails_on_vanished_class() {
    let mut vm = VM::new();
    let v1 = ModuleDef {
        path: "app/game".to_string(),
        uses: vec![],
        functions: vec![],
        classes: vec![class("Player", &[], vec![]), class("Enemy", &[], vec![])],
        objects: vec![],
    };
    assert!(vm.modules.load_napi_module(&mut vm.heap, v1).is_ok());
    let enemy = vm.heap.allocate(ClassRef { module_id: 1, index: 1, singleton: false });
    let v2 = ModuleDef {
        path: "app/game".to_string(),
        uses: vec![],
        functions: vec![],
        classes: vec![class("Player", &[], vec![])],
        objects: vec![],
    };
    match vm.modules.load_napi_module(&mut vm.heap, v2) {
        Err(VMError::ClassNotFound(c)) => assert_eq!(c, "Enemy"),
        other => panic!("unexpected {:?}", other),
    }
    assert_eq!(vm.heap.get(enemy).class, ClassRef { module_id: 1, index: 1, singleton: false });
    assert_eq!(vm.modules.modules.len(), 1);
    assert_eq!(vm.modules.modules[0].id, 2);
}

#[test]
fn ast_module_is_parsed_in_item_order() {
    let body = parser::Block { statements: vec![] };
    let method = parser::Method { name: "run".to_string(), params: vec!["x".to_string()], body: parser::Block { statements: vec![] } };
    let module = parser::Module {
        path: "app/ast".to_string(),
        uses: vec!["std/core".to_string()],
        items: vec![
            parser::Item::Function(parser::Function { name: "main".to_string(), params: vec![], captures: None, body }),
            parser::Item::Class(parser::Class { name: "K".to_string(), extends: vec![], methods: vec![method] }),
            parser::Item::Object(parser::Class { name: "O".to_string(), extends: vec!["app/ast/K".to_string()], methods: vec![] }),
        ],
    };
    let p = ygvm::vm::module::module_parse_ast(module);
    assert_eq!(p.path, "app/ast");
    assert_eq!(p.functions.len(), 1);
    assert_eq!(p.functions[0].name(), "main");
    assert_eq!(p.classes.len(), 1);
    assert_eq!(p.classes[0].methods[0].params(), &vec!["x".to_string()]);
    assert_eq!(p.classes[0].allocation, 0);
    assert_eq!(p.object_extends, vec![vec!["app/ast/K".to_string()]]);
    assert_eq!(p.objects[0].instance, ObjectRef(0));
    let mut vm = VM::new();
    assert!(matches!(vm.modules.load_module(&mut vm.heap, p), Ok(ModuleRef(1))));
    let m = &vm.modules.modules[0];
    assert_eq!(m.objects[0].class.extends, vec![ClassRef { module_id: 1, index: 0, singleton: false }]);
    assert!(!m.objects[0].class.try_find_method(&vm.modules, "run").unwrap().is_native());
}

#[test]
fn other_modules_survive_a_hotswap() {
    let mut vm = VM::new();
    let a = ModuleDef { path: "app/a".to_string(), uses: vec![], functions: vec![], classes: vec![class("A", &[], vec![])], objects: vec![] };
    let b = ModuleDef { path: "app/b".to_string(), uses: vec![], functions: vec![], classes: vec![class("B", &["app/a/A"], vec![])], objects: vec![] };
    assert!(matches!(vm.modules.load_napi_module(&mut vm.heap, a), Ok(ModuleRef(1))));
    assert!(matches!(vm.modules.load_napi_module(&mut vm.heap, b), Ok(ModuleRef(2))));
    let a2 = ModuleDef { path: "app/a".to_string(), uses: vec![], functions: vec![], classes: vec![class("A", &[], vec![])], objects: vec![] };
    assert!(matches!(vm.modules.load_napi_module(&mut vm.heap, a2), Ok(ModuleRef(3))));
    assert!(matches!(vm.modules.find_module("app/b"), Ok(ModuleRef(2))));
    assert!(matches!(vm.modules.find_module("app/a"), Ok(ModuleRef(3))));
    assert!(matches!(vm.modules.find_class("app/a/A"), Ok(ClassRef { module_id: 3, index: 0, singleton: false })));
    assert_eq!(vm.modules.modules[0].path, "app/b");
}
