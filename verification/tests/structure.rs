use instrumentor::call_graph::same_use;
use instrumentor::hook::hook_function;
use instrumentor::replace::replace_funcs;
use instrumentor::tracee::has_hook_point;
use instrumentor::{
    allocator_tracees, emit, find_function, instrument, instrument_module, parse, CallGraph,
    FunctionInfo, FunctionUse, HookPoint, InstrumentError, LocationInfo, ReplaceMap, Tracee,
};
use walrus::{ElementItems, ExportItem, FunctionId, FunctionKind, Module};

fn tracee(name: &str, hook_points: &[HookPoint]) -> Tracee {
    Tracee {
        name: name.to_string(),
        hook_points: hook_points.to_vec(),
    }
}

fn module(text: &str) -> Module {
    parse(&wat::parse_str(text).unwrap()).unwrap()
}

fn named(m: &Module, name: &str) -> FunctionId {
    m.funcs.by_name(name).unwrap()
}

fn all_named(m: &Module, name: &str) -> Vec<FunctionId> {
    m.funcs
        .iter()
        .filter(|f| f.name.as_deref() == Some(name))
        .map(|f| f.id())
        .collect()
}

fn exported(m: &Module, name: &str) -> FunctionId {
    m.exports.get_func(name).unwrap()
}

fn uses(graph: &CallGraph, f: FunctionId) -> Vec<FunctionUse> {
    match graph.get_func_uses(&f) {
        Some(uses) => uses.clone(),
        None => Vec::new(),
    }
}

fn hook_imports(m: &Module) -> Vec<String> {
    m.imports
        .iter()
        .filter(|i| i.module == "wmprof")
        .map(|i| i.name.clone())
        .collect()
}

fn segments(m: &Module) -> Vec<Vec<FunctionId>> {
    m.elements
        .iter()
        .map(|e| match &e.items {
            ElementItems::Functions(items) => items.clone(),
            ElementItems::Expressions(..) => panic!("expressions"),
        })
        .collect()
}

const ALLOCATOR: &str = r#"(module
    (func $malloc (param i32) (result i32)
        local.get 0)
    (func $foo (result i32)
        i32.const 8
        call $malloc)
    (func $bar (result i32)
        i32.const 1
        call $malloc
        call $malloc
        call $foo
        i32.add)
    (export "malloc" (func $malloc))
    (export "foo" (func $foo)))"#;

const TABLE: &str = r#"(module
    (table 4 funcref)
    (func $f (param i32) (result i32) local.get 0)
    (func $malloc (param i32) (result i32) local.get 0)
    (func $g (param i32) (result i32) local.get 0)
    (elem (i32.const 0) $f $malloc $g $malloc)
    (export "alloc" (func $malloc))
    (export "again" (func $malloc))
    (export "g" (func $g)))"#;

#[test]
fn caller_of_malloc_calls_the_wrapper() {
    let mut m = module(ALLOCATOR);
    let malloc = named(&m, "malloc");
    let foo = named(&m, "foo");
    let bar = named(&m, "bar");
    let before = m.funcs.iter().count();

    let map = instrument_module(&mut m, &allocator_tracees()).unwrap();
    let wrapper = map.get(malloc).unwrap();

    assert_ne!(wrapper, malloc);
    assert_eq!(named(&m, "hooked_malloc"), wrapper);
    assert_eq!(named(&m, "malloc"), malloc);
    assert_eq!(map.get(foo), None);
    assert_eq!(exported(&m, "malloc"), wrapper);
    assert_eq!(exported(&m, "foo"), foo);
    // The post-hook import and the wrapper are the only new functions.
    assert_eq!(m.funcs.iter().count(), before + 2);
    assert_eq!(hook_imports(&m), vec!["posthook_malloc"]);

    let graph = CallGraph::build_from(&m).unwrap();
    assert_eq!(
        uses(&graph, malloc),
        vec![FunctionUse::Call { caller: wrapper }]
    );
    let of_wrapper = uses(&graph, wrapper);
    assert_eq!(of_wrapper.len(), 3);
    assert!(of_wrapper.contains(&FunctionUse::Call { caller: foo }));
    assert!(of_wrapper.contains(&FunctionUse::Call { caller: bar }));
    assert!(of_wrapper
        .iter()
        .any(|u| matches!(u, FunctionUse::Export { .. })));
}

#[test]
fn wrapper_has_the_signature_of_the_tracee() {
    let mut m = module(
        r#"(module
            (func $calloc (param i32 i64) (result f32 f64)
                f32.const 0
                f64.const 0))"#,
    );
    let calloc = named(&m, "calloc");
    let map = instrument_module(&mut m, &allocator_tracees()).unwrap();
    let wrapper = map.get(calloc).unwrap();

    let ty = m.funcs.get(wrapper).ty();
    assert_eq!(m.funcs.get(calloc).ty(), ty);
    assert_eq!(
        m.types.params(ty).to_vec(),
        vec![walrus::ValType::I32, walrus::ValType::I64]
    );
    assert_eq!(
        m.types.results(ty).to_vec(),
        vec![walrus::ValType::F32, walrus::ValType::F64]
    );
    let hook = m.imports.get_func("wmprof", "posthook_calloc").unwrap();
    let hook_ty = m.funcs.get(hook).ty();
    assert_eq!(
        m.types.params(hook_ty).to_vec(),
        vec![
            walrus::ValType::I32,
            walrus::ValType::I64,
            walrus::ValType::F32,
            walrus::ValType::F64
        ]
    );
    assert!(m.types.results(hook_ty).is_empty());
    assert!(matches!(m.funcs.get(wrapper).kind, FunctionKind::Local(_)));
    assert!(matches!(m.funcs.get(hook).kind, FunctionKind::Import(_)));
}

#[test]
fn pre_hook_takes_the_parameters_only() {
    let mut m = module(
        r#"(module
            (func $free (param i32 i64) (result i32)
                i32.const 0))"#,
    );
    instrument_module(&mut m, &[tracee("free", &[HookPoint::Pre])]).unwrap();
    let hook = m.imports.get_func("wmprof", "prehook_free").unwrap();
    let hook_ty = m.funcs.get(hook).ty();
    assert_eq!(
        m.types.params(hook_ty).to_vec(),
        vec![walrus::ValType::I32, walrus::ValType::I64]
    );
    assert!(m.types.results(hook_ty).is_empty());
    assert_eq!(hook_imports(&m), vec!["prehook_free"]);
}

#[test]
fn element_slot_of_malloc_holds_the_wrapper() {
    let mut m = module(TABLE);
    let f = named(&m, "f");
    let g = named(&m, "g");
    let malloc = named(&m, "malloc");
    let kinds: Vec<String> = m.elements.iter().map(|e| format!("{:?}", e.kind)).collect();
    assert_eq!(segments(&m), vec![vec![f, malloc, g, malloc]]);

    let map = instrument_module(&mut m, &allocator_tracees()).unwrap();
    let wrapper = map.get(malloc).unwrap();

    assert_eq!(segments(&m), vec![vec![f, wrapper, g, wrapper]]);
    let after: Vec<String> = m.elements.iter().map(|e| format!("{:?}", e.kind)).collect();
    assert_eq!(after, kinds);
}

#[test]
fn exported_and_in_element_are_both_redirected() {
    let mut m = module(TABLE);
    let g = named(&m, "g");
    let malloc = named(&m, "malloc");
    let names: Vec<String> = m.exports.iter().map(|x| x.name.clone()).collect();

    let map = instrument_module(&mut m, &allocator_tracees()).unwrap();
    let wrapper = map.get(malloc).unwrap();

    assert_eq!(exported(&m, "alloc"), wrapper);
    assert_eq!(exported(&m, "again"), wrapper);
    assert_eq!(exported(&m, "g"), g);
    let after: Vec<String> = m.exports.iter().map(|x| x.name.clone()).collect();
    assert_eq!(after, names);
    assert_eq!(segments(&m)[0][1], wrapper);
}

#[test]
fn module_without_tracees_is_unchanged() {
    let input = wat::parse_str(
        r#"(module
            (table 1 funcref)
            (func $f (param i32) (result i32) local.get 0)
            (func $g (result i32) i32.const 3 call $f)
            (elem (i32.const 0) $f)
            (export "g" (func $g)))"#,
    )
    .unwrap();
    let output = instrument(input.clone(), &allocator_tracees()).unwrap();
    let untouched = Module::from_buffer(&input).unwrap().emit_wasm();
    assert_eq!(output, untouched);

    let out = Module::from_buffer(&output).unwrap();
    assert!(hook_imports(&out).is_empty());
    assert_eq!(out.imports.iter().count(), 0);
    assert_eq!(out.funcs.iter().count(), 2);

    let mut m = parse(&input).unwrap();
    let f = named(&m, "f");
    let map = instrument_module(&mut m, &allocator_tracees()).unwrap();
    assert_eq!(map.get(f), None);
    assert_eq!(emit(&mut m), untouched);
}

#[test]
fn no_tracees_at_all_changes_nothing() {
    let input = wat::parse_str(ALLOCATOR).unwrap();
    let output = instrument(input.clone(), &[]).unwrap();
    assert_eq!(output, Module::from_buffer(&input).unwrap().emit_wasm());
}

#[test]
fn absent_tracee_changes_nothing() {
    let input = wat::parse_str(ALLOCATOR).unwrap();
    let with_absent = instrument(
        input.clone(),
        &[
            tracee("nowhere", &[HookPoint::Pre]),
            tracee("malloc", &[HookPoint::Pre, HookPoint::Post]),
            tracee("mallo", &[HookPoint::Post]),
            tracee("foo", &[HookPoint::Post]),
            tracee("Foo", &[HookPoint::Pre]),
        ],
    )
    .unwrap();
    let without = instrument(
        input,
        &[
            tracee("malloc", &[HookPoint::Pre, HookPoint::Post]),
            tracee("foo", &[HookPoint::Post]),
        ],
    )
    .unwrap();
    assert_eq!(with_absent, without);
}

#[test]
fn names_are_matched_exactly() {
    let mut m = module(ALLOCATOR);
    let map = instrument_module(
        &mut m,
        &[
            tracee("Malloc", &[HookPoint::Pre]),
            tracee("malloc ", &[HookPoint::Pre]),
            tracee("", &[HookPoint::Pre]),
            tracee("mal*", &[HookPoint::Pre]),
        ],
    )
    .unwrap();
    assert_eq!(map.get(named(&m, "malloc")), None);
    assert!(hook_imports(&m).is_empty());
}

#[test]
fn imported_function_named_like_a_tracee_is_left_alone() {
    let input = wat::parse_str(
        r#"(module
            (import "env" "malloc" (func $malloc (param i32) (result i32)))
            (func $foo (result i32)
                i32.const 8
                call $malloc)
            (export "foo" (func $foo)))"#,
    )
    .unwrap();
    let mut m = parse(&input).unwrap();
    let malloc = named(&m, "malloc");
    assert!(matches!(m.funcs.get(malloc).kind, FunctionKind::Import(_)));
    assert_eq!(find_function(&m, &"malloc".to_string()), None);

    let map = instrument_module(&mut m, &allocator_tracees()).unwrap();
    assert_eq!(map.get(malloc), None);
    assert!(hook_imports(&m).is_empty());
    assert_eq!(
        instrument(input.clone(), &allocator_tracees()).unwrap(),
        Module::from_buffer(&input).unwrap().emit_wasm()
    );
}

#[test]
fn hook_function_refuses_an_import() {
    let mut m = module(
        r#"(module
            (import "env" "malloc" (func $malloc (param i32) (result i32))))"#,
    );
    let malloc = named(&m, "malloc");
    let before = m.funcs.iter().count();
    let result = hook_function(&mut m, malloc, "malloc", &vec![HookPoint::Pre]);
    assert_eq!(result, Err(InstrumentError::ImportedTraceeNotSupported));
    assert_eq!(m.funcs.iter().count(), before);
    assert!(hook_imports(&m).is_empty());
}

#[test]
fn hook_function_leaves_the_uses_alone() {
    let mut m = module(ALLOCATOR);
    let malloc = named(&m, "malloc");
    let foo = named(&m, "foo");
    let wrapper = hook_function(
        &mut m,
        malloc,
        "malloc",
        &vec![HookPoint::Pre, HookPoint::Post],
    )
    .unwrap();

    assert_eq!(named(&m, "hooked_malloc"), wrapper);
    assert_eq!(exported(&m, "malloc"), malloc);
    assert_eq!(hook_imports(&m), vec!["prehook_malloc", "posthook_malloc"]);
    let graph = CallGraph::build_from(&m).unwrap();
    assert!(uses(&graph, malloc).contains(&FunctionUse::Call { caller: foo }));
    assert!(uses(&graph, malloc).contains(&FunctionUse::Call { caller: wrapper }));
    assert!(uses(&graph, wrapper).is_empty());
    let pre = m.imports.get_func("wmprof", "prehook_malloc").unwrap();
    let post = m.imports.get_func("wmprof", "posthook_malloc").unwrap();
    assert_eq!(
        uses(&graph, pre),
        vec![FunctionUse::Call { caller: wrapper }]
    );
    assert_eq!(
        uses(&graph, post),
        vec![FunctionUse::Call { caller: wrapper }]
    );
}

#[test]
fn wrapper_of_a_wrapper_is_not_redirected_to() {
    let mut m = module(ALLOCATOR);
    let malloc = named(&m, "malloc");
    let map = instrument_module(
        &mut m,
        &[
            tracee("malloc", &[HookPoint::Post]),
            tracee("hooked_malloc", &[HookPoint::Pre]),
        ],
    )
    .unwrap();
    let wrapper = map.get(malloc).unwrap();
    let outer = map.get(wrapper).unwrap();

    assert_eq!(named(&m, "hooked_hooked_malloc"), outer);
    assert_eq!(exported(&m, "malloc"), wrapper);
    let graph = CallGraph::build_from(&m).unwrap();
    assert_eq!(
        uses(&graph, wrapper)
            .iter()
            .filter(|u| matches!(u, FunctionUse::Call { caller } if *caller == outer))
            .count(),
        1
    );
    assert!(uses(&graph, outer).is_empty());
    assert_eq!(
        hook_imports(&m),
        vec!["posthook_malloc", "prehook_hooked_malloc"]
    );
}

#[test]
fn tracee_listed_twice_is_replaced_by_its_last_wrapper() {
    let mut m = module(ALLOCATOR);
    let malloc = named(&m, "malloc");
    let map = instrument_module(
        &mut m,
        &[
            tracee("malloc", &[HookPoint::Pre]),
            tracee("malloc", &[HookPoint::Post]),
        ],
    )
    .unwrap();
    let wrappers = all_named(&m, "hooked_malloc");
    assert_eq!(wrappers.len(), 2);
    assert_eq!(map.get(malloc), Some(wrappers[1]));
    assert_eq!(exported(&m, "malloc"), wrappers[1]);
    assert_eq!(hook_imports(&m), vec!["prehook_malloc", "posthook_malloc"]);
    let graph = CallGraph::build_from(&m).unwrap();
    assert!(uses(&graph, wrappers[0]).is_empty());
}

#[test]
fn find_function_takes_the_first_local_function_of_that_name() {
    let m = module(ALLOCATOR);
    assert_eq!(
        find_function(&m, &"foo".to_string()),
        Some(named(&m, "foo"))
    );
    assert_eq!(
        find_function(&m, &"malloc".to_string()),
        Some(named(&m, "malloc"))
    );
    assert_eq!(find_function(&m, &"fo".to_string()), None);
    assert_eq!(find_function(&m, &"".to_string()), None);
}

#[test]
fn call_graph_records_calls_slots_and_exports() {
    let m = module(TABLE);
    let f = named(&m, "f");
    let g = named(&m, "g");
    let malloc = named(&m, "malloc");
    let element = m.elements.iter().next().unwrap().id();
    let graph = CallGraph::build_from(&m).unwrap();

    assert_eq!(
        uses(&graph, f),
        vec![FunctionUse::InElement { element, index: 0 }]
    );
    let of_malloc = uses(&graph, malloc);
    assert_eq!(of_malloc.len(), 4);
    assert!(of_malloc.contains(&FunctionUse::InElement { element, index: 1 }));
    assert!(of_malloc.contains(&FunctionUse::InElement { element, index: 3 }));
    let exports: Vec<String> = of_malloc
        .iter()
        .filter_map(|u| match u {
            FunctionUse::Export { export } => Some(m.exports.get(*export).name.clone()),
            _ => None,
        })
        .collect();
    assert_eq!(exports, vec!["alloc", "again"]);
    let of_g = uses(&graph, g);
    assert_eq!(of_g.len(), 2);
    assert_eq!(of_g[0], FunctionUse::InElement { element, index: 2 });
    assert!(matches!(of_g[1], FunctionUse::Export { export }
        if matches!(m.exports.get(export).item, ExportItem::Function(t) if t == g)));
}

#[test]
fn call_graph_records_a_caller_once() {
    let m = module(ALLOCATOR);
    let malloc = named(&m, "malloc");
    let foo = named(&m, "foo");
    let bar = named(&m, "bar");
    let graph = CallGraph::build_from(&m).unwrap();

    let of_malloc = uses(&graph, malloc);
    assert_eq!(of_malloc.len(), 3);
    assert_eq!(of_malloc[0], FunctionUse::Call { caller: foo });
    assert_eq!(of_malloc[1], FunctionUse::Call { caller: bar });
    assert!(matches!(of_malloc[2], FunctionUse::Export { .. }));
    assert_eq!(
        uses(&graph, foo).len(),
        2,
        "one call from bar and one export"
    );
    assert!(graph.get_func_uses(&bar).is_none());
}

#[test]
fn call_graph_sees_calls_in_nested_blocks_but_no_indirect_calls() {
    let m = module(
        r#"(module
            (type $t (func))
            (table 1 funcref)
            (func $leaf)
            (func $other)
            (elem (i32.const 0) $other)
            (func $nest (param i32)
                block
                    loop
                        local.get 0
                        if
                            call $leaf
                        else
                            i32.const 0
                            call_indirect (type $t)
                        end
                    end
                end))"#,
    );
    let leaf = named(&m, "leaf");
    let other = named(&m, "other");
    let nest = named(&m, "nest");
    let graph = CallGraph::build_from(&m).unwrap();
    assert_eq!(uses(&graph, leaf), vec![FunctionUse::Call { caller: nest }]);
    assert_eq!(uses(&graph, other).len(), 1);
    assert!(matches!(
        uses(&graph, other)[0],
        FunctionUse::InElement { index: 0, .. }
    ));
}

#[test]
fn call_graph_rejects_a_segment_of_expressions() {
    let m = Module::from_buffer(
        &wat::parse_str(
            r#"(module
                (table 2 funcref)
                (func $f)
                (elem (i32.const 0) funcref (ref.func $f) (ref.null func)))"#,
        )
        .unwrap(),
    )
    .unwrap();
    assert!(matches!(
        CallGraph::build_from(&m),
        Err(InstrumentError::UnsupportedElementForm)
    ));
    let mut m = m;
    let before = m.funcs.iter().count();
    assert!(matches!(
        instrument_module(&mut m, &[tracee("f", &[HookPoint::Pre])]),
        Err(InstrumentError::UnsupportedElementForm)
    ));
    assert_eq!(m.funcs.iter().count(), before);
    assert!(m.funcs.by_name("hooked_f").is_none());
}

#[test]
fn add_use_keeps_a_set_per_callee() {
    let m = module(ALLOCATOR);
    let malloc = named(&m, "malloc");
    let foo = named(&m, "foo");
    let bar = named(&m, "bar");
    let mut graph = CallGraph::default();
    assert!(graph.get_func_uses(&malloc).is_none());

    graph.add_use(malloc, FunctionUse::Call { caller: foo });
    graph.add_use(malloc, FunctionUse::Call { caller: foo });
    graph.add_use(foo, FunctionUse::Call { caller: bar });
    graph.add_use(malloc, FunctionUse::Call { caller: bar });
    graph.add_use(malloc, FunctionUse::Call { caller: foo });

    assert_eq!(
        uses(&graph, malloc),
        vec![
            FunctionUse::Call { caller: foo },
            FunctionUse::Call { caller: bar }
        ]
    );
    assert_eq!(uses(&graph, foo), vec![FunctionUse::Call { caller: bar }]);
    assert!(graph.get_func_uses(&bar).is_none());
}

#[test]
fn same_use_tells_sites_apart() {
    let m = module(TABLE);
    let f = named(&m, "f");
    let g = named(&m, "g");
    let element = m.elements.iter().next().unwrap().id();
    let exports: Vec<_> = m.exports.iter().map(|x| x.id()).collect();

    let call = FunctionUse::Call { caller: f };
    let slot = FunctionUse::InElement { element, index: 1 };
    let export = FunctionUse::Export { export: exports[0] };
    assert!(same_use(&call, &FunctionUse::Call { caller: f }));
    assert!(!same_use(&call, &FunctionUse::Call { caller: g }));
    assert!(same_use(&slot, &FunctionUse::InElement { element, index: 1 }));
    assert!(!same_use(&slot, &FunctionUse::InElement { element, index: 2 }));
    assert!(same_use(&export, &FunctionUse::Export { export: exports[0] }));
    assert!(!same_use(&export, &FunctionUse::Export { export: exports[1] }));
    assert!(!same_use(&call, &slot));
    assert!(!same_use(&slot, &export));
    assert!(!same_use(&export, &call));
}

#[test]
fn replace_map_keeps_the_last_replacement() {
    let m = module(TABLE);
    let f = named(&m, "f");
    let g = named(&m, "g");
    let malloc = named(&m, "malloc");
    let mut map = ReplaceMap::new();
    assert_eq!(map.get(f), None);

    map.insert(f, g);
    assert_eq!(map.get(f), Some(g));
    assert_eq!(map.get(g), None);
    map.insert(malloc, g);
    map.insert(f, malloc);
    assert_eq!(map.get(f), Some(malloc));
    assert_eq!(map.get(malloc), Some(g));
}

#[test]
fn replace_funcs_redirects_what_the_graph_records() {
    let mut m = module(
        r#"(module
            (table 2 funcref)
            (func $old (result i32) i32.const 1)
            (func $new (result i32) i32.const 2)
            (func $user (result i32) call $old call $old i32.add)
            (func $late (result i32) call $new)
            (elem (i32.const 0) $old $user)
            (export "old" (func $old))
            (export "user" (func $user)))"#,
    );
    let old = named(&m, "old");
    let new = named(&m, "new");
    let user = named(&m, "user");
    let late = named(&m, "late");
    let graph = CallGraph::build_from(&m).unwrap();
    let mut map = ReplaceMap::new();
    map.insert(old, new);

    replace_funcs(&map, &mut m, &graph);

    let after = CallGraph::build_from(&m).unwrap();
    assert!(after.get_func_uses(&old).is_none());
    let of_new = uses(&after, new);
    assert_eq!(of_new.len(), 4);
    assert!(of_new.contains(&FunctionUse::Call { caller: user }));
    assert!(of_new.contains(&FunctionUse::Call { caller: late }));
    assert_eq!(segments(&m), vec![vec![new, user]]);
    assert_eq!(exported(&m, "old"), new);
    assert_eq!(exported(&m, "user"), user);
}

#[test]
fn replace_funcs_with_an_empty_map_changes_nothing() {
    let input = wat::parse_str(TABLE).unwrap();
    let mut m = parse(&input).unwrap();
    let graph = CallGraph::build_from(&m).unwrap();
    replace_funcs(&ReplaceMap::new(), &mut m, &graph);
    assert_eq!(
        emit(&mut m),
        Module::from_buffer(&input).unwrap().emit_wasm()
    );
}

#[test]
fn allocator_tracees_lists_the_allocator_entry_points() {
    let tracees = allocator_tracees();
    let names: Vec<&str> = tracees.iter().map(|t| t.name.as_str()).collect();
    assert_eq!(
        names,
        vec![
            "malloc",
            "dlmalloc",
            "free",
            "dlfree",
            "calloc",
            "dlcalloc",
            "realloc",
            "dlrealloc",
            "posix_memalign",
            "dlposix_memalign",
            "aligned_alloc",
            "dlaligned_alloc",
        ]
    );
    for t in &tracees {
        assert_eq!(t.hook_points, vec![HookPoint::Post]);
    }
}

#[test]
fn has_hook_point_finds_what_is_listed() {
    assert!(has_hook_point(&vec![HookPoint::Pre], HookPoint::Pre));
    assert!(!has_hook_point(&vec![HookPoint::Pre], HookPoint::Post));
    assert!(has_hook_point(
        &vec![HookPoint::Pre, HookPoint::Post],
        HookPoint::Post
    ));
    assert!(!has_hook_point(&vec![], HookPoint::Pre));
}

#[test]
fn errors_describe_themselves() {
    assert_eq!(
        InstrumentError::ParseError("bad magic".to_string()).message(),
        "Failed to parse the input wasm module: bad magic"
    );
    assert_eq!(
        InstrumentError::UnsupportedElementForm.message(),
        "expression in element segment is not supported yet"
    );
    assert_eq!(
        InstrumentError::ImportedTraceeNotSupported.message(),
        "hook_function called with an imported function"
    );
    assert_eq!(
        InstrumentError::EmitError("too large".to_string()).message(),
        "Failed to emit the wasm module: too large"
    );
}

#[test]
fn parse_error_carries_the_decoder_message() {
    match parse(b"\0asm\x01\0\0\0\xff") {
        Err(InstrumentError::ParseError(detail)) => assert!(!detail.is_empty()),
        other => panic!("unexpected {:?}", other.map(|_| ())),
    }
    assert!(parse(b"\0asm\x01\0\0\0").is_ok());
}

#[test]
fn emitted_module_keeps_the_names() {
    let output = instrument(
        wat::parse_str(ALLOCATOR).unwrap(),
        &allocator_tracees(),
    )
    .unwrap();
    let out = Module::from_buffer(&output).unwrap();
    assert!(out.funcs.by_name("malloc").is_some());
    assert!(out.funcs.by_name("foo").is_some());
    assert!(out.funcs.by_name("bar").is_some());
    let wrapper = out.funcs.by_name("hooked_malloc").unwrap();
    assert_eq!(out.exports.get_func("malloc").unwrap(), wrapper);
}

#[test]
fn instrumenting_is_repeatable() {
    let input = wat::parse_str(TABLE).unwrap();
    let first = instrument(input.clone(), &allocator_tracees()).unwrap();
    let second = instrument(input, &allocator_tracees()).unwrap();
    assert_eq!(first, second);
}

#[test]
fn info_records_hold_what_they_are_given() {
    let location = LocationInfo { line: 42 };
    assert_eq!(location.line, 42);
    let _info = FunctionInfo {};
}

#[test]
fn emitted_bytes_begin_with_the_module_header() {
    let mut m = module(ALLOCATOR);
    let plain = emit(&mut m);
    assert_eq!(&plain[..8], b"\0asm\x01\0\0\0");
    assert!(plain.len() > 8);

    let mut m = module(TABLE);
    instrument_module(&mut m, &allocator_tracees()).unwrap();
    let instrumented = emit(&mut m);
    assert_eq!(&instrumented[..8], b"\0asm\x01\0\0\0");
    assert_ne!(instrumented, wat::parse_str(TABLE).unwrap());

    let mut empty = parse(b"\0asm\x01\0\0\0").unwrap();
    assert_eq!(&emit(&mut empty)[..8], b"\0asm\x01\0\0\0");
}

const WITH_OTHER_ITEMS: &str = r#"(module
    (type $observer (func (param i32)))
    (memory $mem 1)
    (global $g (mut i32) (i32.const 7))
    (table $tab 2 funcref)
    (data (i32.const 0) "abc")
    (func $watch (type $observer))
    (func $free (param i32) (result i32)
        local.get 0)
    (elem (i32.const 0) $free)
    (export "free" (func $free))
    (export "memory" (memory $mem))
    (export "counter" (global $g))
    (export "table" (table $tab)))"#;

fn export_items(m: &Module) -> Vec<(String, String)> {
    m.exports
        .iter()
        .map(|x| (x.name.clone(), format!("{:?}", x.item)))
        .collect()
}

#[test]
fn hook_types_are_reused_where_the_module_has_them() {
    let mut m = module(WITH_OTHER_ITEMS);
    let watch = named(&m, "watch");
    let free = named(&m, "free");
    let observer = m.funcs.get(watch).ty();
    let before = m.types.iter().count();

    let map = instrument_module(&mut m, &[tracee("free", &[HookPoint::Pre])]).unwrap();
    let wrapper = map.get(free).unwrap();

    // The pre-hook takes an i32 and returns nothing, as `$watch` does.
    let hook = m.imports.get_func("wmprof", "prehook_free").unwrap();
    assert_eq!(m.funcs.get(hook).ty(), observer);
    assert_eq!(m.funcs.get(wrapper).ty(), m.funcs.get(free).ty());
    // No type is new: the module had both signatures.
    assert_eq!(m.types.iter().count(), before);
    let emitted = Module::from_buffer(&emit(&mut m)).unwrap();
    assert!(emitted
        .types
        .find(&[walrus::ValType::I32], &[walrus::ValType::I32])
        .is_some());
    assert!(emitted.types.find(&[walrus::ValType::I32], &[]).is_some());
}

#[test]
fn post_hook_type_is_added_once_where_the_module_lacks_it() {
    let mut m = module(WITH_OTHER_ITEMS);
    let before = m.types.iter().count();
    instrument_module(
        &mut m,
        &[
            tracee("free", &[HookPoint::Post]),
            tracee("free", &[HookPoint::Post]),
        ],
    )
    .unwrap();
    let hooks: Vec<_> = m
        .imports
        .iter()
        .filter(|i| i.name == "posthook_free")
        .map(|i| match i.kind {
            walrus::ImportKind::Function(f) => m.funcs.get(f).ty(),
            _ => panic!("not a function"),
        })
        .collect();
    assert_eq!(hooks.len(), 2);
    assert_eq!(hooks[0], hooks[1]);
    assert_eq!(
        m.types.params(hooks[0]).to_vec(),
        vec![walrus::ValType::I32, walrus::ValType::I32]
    );
    // The one new type is that of the post-hooks.
    assert_eq!(m.types.iter().count(), before + 1);
}

#[test]
fn other_exports_and_the_rest_of_the_module_are_kept() {
    let mut m = module(WITH_OTHER_ITEMS);
    let free = named(&m, "free");
    let exports = export_items(&m);
    let memories: Vec<String> = m.memories.iter().map(|x| format!("{:?}", x)).collect();
    let globals: Vec<String> = m.globals.iter().map(|x| format!("{:?}", x)).collect();
    let tables: Vec<String> = m.tables.iter().map(|x| format!("{:?}", x)).collect();
    let data: Vec<String> = m.data.iter().map(|x| format!("{:?}", x)).collect();

    let map = instrument_module(&mut m, &allocator_tracees()).unwrap();
    let wrapper = map.get(free).unwrap();

    let after = export_items(&m);
    assert_eq!(after.len(), exports.len());
    assert_eq!(after[0].0, "free");
    assert_eq!(after[0].1, format!("{:?}", ExportItem::Function(wrapper)));
    assert_eq!(after[1..], exports[1..]);
    assert_eq!(
        m.memories.iter().map(|x| format!("{:?}", x)).collect::<Vec<_>>(),
        memories
    );
    assert_eq!(
        m.globals.iter().map(|x| format!("{:?}", x)).collect::<Vec<_>>(),
        globals
    );
    assert_eq!(
        m.tables.iter().map(|x| format!("{:?}", x)).collect::<Vec<_>>(),
        tables
    );
    assert_eq!(
        m.data.iter().map(|x| format!("{:?}", x)).collect::<Vec<_>>(),
        data
    );
}

#[test]
fn every_named_local_function_is_replaced() {
    let mut m = module(ALLOCATOR);
    let malloc = named(&m, "malloc");
    let foo = named(&m, "foo");
    let bar = named(&m, "bar");
    let map = instrument_module(
        &mut m,
        &[
            tracee("bar", &[HookPoint::Pre]),
            tracee("absent", &[HookPoint::Pre]),
            tracee("malloc", &[HookPoint::Post]),
            tracee("foo", &[HookPoint::Pre, HookPoint::Post]),
        ],
    )
    .unwrap();
    assert_eq!(map.get(bar), Some(named(&m, "hooked_bar")));
    assert_eq!(map.get(malloc), Some(named(&m, "hooked_malloc")));
    assert_eq!(map.get(foo), Some(named(&m, "hooked_foo")));
}

#[test]
fn graph_has_no_entry_without_a_site() {
    let m = module(
        r#"(module
            (type $t (func))
            (table 1 funcref)
            (func $f)
            (func $g i32.const 0 call_indirect (type $t))
            (func $h call $f call $f)
            (elem (i32.const 0) $f))"#,
    );
    let graph = CallGraph::build_from(&m).unwrap();
    assert_eq!(graph.get_func_uses(&named(&m, "f")).unwrap().len(), 2);
    assert!(graph.get_func_uses(&named(&m, "g")).is_none());
    assert!(graph.get_func_uses(&named(&m, "h")).is_none());
    for f in m.funcs.iter() {
        if let Some(uses) = graph.get_func_uses(&f.id()) {
            assert!(!uses.is_empty());
        }
    }
}
