use std::cell::RefCell;

use instrumentor::{allocator_tracees, instrument, HookPoint, InstrumentError, Tracee};

type Log = RefCell<Vec<(String, Vec<String>)>>;

fn show(vals: &[wasmi::Val]) -> Vec<String> {
    vals.iter().map(|v| format!("{:?}", v)).collect()
}

fn tracee(name: &str, hook_points: &[HookPoint]) -> Tracee {
    Tracee {
        name: name.to_string(),
        hook_points: hook_points.to_vec(),
    }
}

/// Instantiates a module, supplying every `wmprof` import with a hook that
/// writes its name and arguments to the log.
fn instantiate(bytes: &[u8]) -> (wasmi::Store<Log>, wasmi::Instance) {
    let engine = wasmi::Engine::default();
    let module = wasmi::Module::new(&engine, bytes).unwrap();
    let mut store = wasmi::Store::new(&engine, Log::default());
    let mut linker = wasmi::Linker::<Log>::new(&engine);
    for import in module.imports() {
        assert_eq!(import.module(), "wmprof");
        let name = import.name().to_string();
        let ty = import.ty().func().unwrap().clone();
        let label = name.clone();
        linker
            .func_new("wmprof", &name, ty, move |caller, args, _| {
                caller.data().borrow_mut().push((label.clone(), show(args)));
                Ok(())
            })
            .unwrap();
    }
    let instance = linker
        .instantiate(&mut store, &module)
        .unwrap()
        .ensure_no_start(&mut store)
        .unwrap();
    (store, instance)
}

fn import_names(bytes: &[u8]) -> Vec<String> {
    let engine = wasmi::Engine::default();
    let module = wasmi::Module::new(&engine, bytes).unwrap();
    module
        .imports()
        .map(|i| format!("{}.{}", i.module(), i.name()))
        .collect()
}

fn entry(name: &str, args: &[wasmi::Val]) -> (String, Vec<String>) {
    (name.to_string(), show(args))
}

const ARITHMETIC: &str = r#"(module
    (func $add (param i32 i32) (result i32)
        local.get 0
        local.get 1
        i32.add)
    (export "add" (func $add))
    (func $sub (param i32 i32) (result i32)
        local.get 0
        local.get 1
        i32.sub)
    (export "sub" (func $sub))
    (func $multi-returns (param i32 i64) (result i64 i32)
        local.get 1
        i64.const 1
        i64.add
        local.get 0
        i32.const 2
        i32.add)
    (export "multi-returns" (func $multi-returns))
)"#;

#[test]
fn add_with_both_hooks_reports_arguments_then_results() {
    let input = wat::parse_str(ARITHMETIC).unwrap();
    let tracees = vec![tracee("add", &[HookPoint::Pre, HookPoint::Post])];
    let output = instrument(input, &tracees).unwrap();
    assert_eq!(
        import_names(&output),
        vec!["wmprof.prehook_add", "wmprof.posthook_add"]
    );

    let (mut store, instance) = instantiate(&output);
    let add = instance.get_func(&mut store, "add").unwrap();
    let args = [wasmi::Val::I32(1), wasmi::Val::I32(2)];
    let mut results = [wasmi::Val::I32(0)];
    add.call(&mut store, &args, &mut results).unwrap();

    assert_eq!(results[0].i32(), Some(3));
    assert_eq!(
        store.data().take(),
        vec![
            entry("prehook_add", &[wasmi::Val::I32(1), wasmi::Val::I32(2)]),
            entry(
                "posthook_add",
                &[wasmi::Val::I32(1), wasmi::Val::I32(2), wasmi::Val::I32(3)]
            ),
        ]
    );
}

#[test]
fn sub_with_pre_hook_only_has_no_post_hook() {
    let input = wat::parse_str(ARITHMETIC).unwrap();
    let tracees = vec![tracee("sub", &[HookPoint::Pre])];
    let output = instrument(input, &tracees).unwrap();
    assert_eq!(import_names(&output), vec!["wmprof.prehook_sub"]);

    let (mut store, instance) = instantiate(&output);
    let sub = instance.get_func(&mut store, "sub").unwrap();
    let args = [wasmi::Val::I32(1), wasmi::Val::I32(2)];
    let mut results = [wasmi::Val::I32(0)];
    sub.call(&mut store, &args, &mut results).unwrap();

    assert_eq!(results[0].i32(), Some(-1));
    assert_eq!(
        store.data().take(),
        vec![entry("prehook_sub", &[wasmi::Val::I32(1), wasmi::Val::I32(2)])]
    );
}

#[test]
fn multi_returns_post_hook_sees_results_in_declared_order() {
    let input = wat::parse_str(ARITHMETIC).unwrap();
    let tracees = vec![tracee("multi-returns", &[HookPoint::Post])];
    let output = instrument(input, &tracees).unwrap();
    assert_eq!(import_names(&output), vec!["wmprof.posthook_multi-returns"]);

    let (mut store, instance) = instantiate(&output);
    let f = instance.get_func(&mut store, "multi-returns").unwrap();
    let args = [wasmi::Val::I32(2), wasmi::Val::I64(1)];
    let mut results = [wasmi::Val::I32(0), wasmi::Val::I64(0)];
    f.call(&mut store, &args, &mut results).unwrap();

    assert_eq!(results[0].i64(), Some(2));
    assert_eq!(results[1].i32(), Some(4));
    assert_eq!(
        store.data().take(),
        vec![entry(
            "posthook_multi-returns",
            &[
                wasmi::Val::I32(2),
                wasmi::Val::I64(1),
                wasmi::Val::I64(2),
                wasmi::Val::I32(4)
            ]
        )]
    );
}

#[test]
fn untraced_functions_run_without_hooks() {
    let input = wat::parse_str(ARITHMETIC).unwrap();
    let tracees = vec![tracee("add", &[HookPoint::Pre, HookPoint::Post])];
    let output = instrument(input, &tracees).unwrap();

    let (mut store, instance) = instantiate(&output);
    let sub = instance.get_func(&mut store, "sub").unwrap();
    let args = [wasmi::Val::I32(7), wasmi::Val::I32(9)];
    let mut results = [wasmi::Val::I32(0)];
    sub.call(&mut store, &args, &mut results).unwrap();

    assert_eq!(results[0].i32(), Some(-2));
    assert_eq!(store.data().take(), vec![]);
}

#[test]
fn hooks_run_once_per_call() {
    let input = wat::parse_str(ARITHMETIC).unwrap();
    let tracees = vec![tracee("add", &[HookPoint::Pre, HookPoint::Post])];
    let output = instrument(input, &tracees).unwrap();

    let (mut store, instance) = instantiate(&output);
    let add = instance.get_func(&mut store, "add").unwrap();
    let mut results = [wasmi::Val::I32(0)];
    add.call(
        &mut store,
        &[wasmi::Val::I32(10), wasmi::Val::I32(20)],
        &mut results,
    )
    .unwrap();
    add.call(
        &mut store,
        &[wasmi::Val::I32(-1), wasmi::Val::I32(1)],
        &mut results,
    )
    .unwrap();

    assert_eq!(
        store.data().take(),
        vec![
            entry("prehook_add", &[wasmi::Val::I32(10), wasmi::Val::I32(20)]),
            entry(
                "posthook_add",
                &[wasmi::Val::I32(10), wasmi::Val::I32(20), wasmi::Val::I32(30)]
            ),
            entry("prehook_add", &[wasmi::Val::I32(-1), wasmi::Val::I32(1)]),
            entry(
                "posthook_add",
                &[wasmi::Val::I32(-1), wasmi::Val::I32(1), wasmi::Val::I32(0)]
            ),
        ]
    );
}

#[test]
fn listing_a_hook_point_twice_installs_it_once() {
    let input = wat::parse_str(ARITHMETIC).unwrap();
    let tracees = vec![tracee("add", &[HookPoint::Post, HookPoint::Post])];
    let output = instrument(input, &tracees).unwrap();
    assert_eq!(import_names(&output), vec!["wmprof.posthook_add"]);
}

#[test]
fn no_hook_points_gives_a_wrapper_that_only_forwards() {
    let input = wat::parse_str(ARITHMETIC).unwrap();
    let tracees = vec![tracee("add", &[])];
    let output = instrument(input, &tracees).unwrap();
    assert_eq!(import_names(&output), Vec::<String>::new());

    let (mut store, instance) = instantiate(&output);
    let add = instance.get_func(&mut store, "add").unwrap();
    let mut results = [wasmi::Val::I32(0)];
    add.call(
        &mut store,
        &[wasmi::Val::I32(4), wasmi::Val::I32(5)],
        &mut results,
    )
    .unwrap();
    assert_eq!(results[0].i32(), Some(9));
    let names = walrus::Module::from_buffer(&output).unwrap();
    assert!(names.funcs.by_name("hooked_add").is_some());
}

#[test]
fn floats_pass_through_bit_for_bit() {
    let input = wat::parse_str(
        r#"(module
            (func $mix (param f32 f64 i64) (result f64 f32)
                local.get 1
                local.get 0)
            (export "mix" (func $mix)))"#,
    )
    .unwrap();
    let tracees = vec![tracee("mix", &[HookPoint::Pre, HookPoint::Post])];
    let output = instrument(input, &tracees).unwrap();

    let (mut store, instance) = instantiate(&output);
    let mix = instance.get_func(&mut store, "mix").unwrap();
    let nan = f32::from_bits(0x7fc0_1234);
    let args = [
        wasmi::Val::F32(nan.into()),
        wasmi::Val::F64((-0.0f64).into()),
        wasmi::Val::I64(i64::MIN),
    ];
    let mut results = [wasmi::Val::I32(0), wasmi::Val::I32(0)];
    mix.call(&mut store, &args, &mut results).unwrap();

    assert_eq!(
        results[0].f64().map(|v| v.to_bits()),
        Some((-0.0f64).to_bits())
    );
    assert_eq!(results[1].f32().map(|v| v.to_bits()), Some(0x7fc0_1234));
    assert_eq!(
        store.data().take(),
        vec![
            entry("prehook_mix", &args),
            entry(
                "posthook_mix",
                &[
                    wasmi::Val::F32(nan.into()),
                    wasmi::Val::F64((-0.0f64).into()),
                    wasmi::Val::I64(i64::MIN),
                    wasmi::Val::F64((-0.0f64).into()),
                    wasmi::Val::F32(nan.into()),
                ]
            ),
        ]
    );
}

#[test]
fn function_without_parameters_or_results_is_wrapped() {
    let input = wat::parse_str(
        r#"(module
            (global $count (mut i32) (i32.const 0))
            (func $tick
                global.get $count
                i32.const 1
                i32.add
                global.set $count)
            (func $read (result i32) global.get $count)
            (export "tick" (func $tick))
            (export "read" (func $read)))"#,
    )
    .unwrap();
    let tracees = vec![tracee("tick", &[HookPoint::Pre, HookPoint::Post])];
    let output = instrument(input, &tracees).unwrap();

    let (mut store, instance) = instantiate(&output);
    let tick = instance.get_func(&mut store, "tick").unwrap();
    tick.call(&mut store, &[], &mut []).unwrap();
    let read = instance.get_func(&mut store, "read").unwrap();
    let mut results = [wasmi::Val::I32(0)];
    read.call(&mut store, &[], &mut results).unwrap();

    assert_eq!(results[0].i32(), Some(1));
    assert_eq!(
        store.data().take(),
        vec![entry("prehook_tick", &[]), entry("posthook_tick", &[])]
    );
}

#[test]
fn trapping_tracee_traps_and_skips_the_post_hook() {
    let input = wat::parse_str(
        r#"(module
            (func $boom (param i32) (result i32)
                unreachable)
            (export "boom" (func $boom)))"#,
    )
    .unwrap();
    let tracees = vec![tracee("boom", &[HookPoint::Pre, HookPoint::Post])];
    let output = instrument(input.clone(), &tracees).unwrap();

    let (mut plain_store, plain) = instantiate(&input);
    let boom = plain.get_func(&mut plain_store, "boom").unwrap();
    let mut results = [wasmi::Val::I32(0)];
    let expected = boom
        .call(&mut plain_store, &[wasmi::Val::I32(5)], &mut results)
        .unwrap_err();

    let (mut store, instance) = instantiate(&output);
    let boom = instance.get_func(&mut store, "boom").unwrap();
    let got = boom
        .call(&mut store, &[wasmi::Val::I32(5)], &mut results)
        .unwrap_err();

    assert_eq!(got.as_trap_code(), Some(wasmi::core::TrapCode::UnreachableCodeReached));
    assert_eq!(got.as_trap_code(), expected.as_trap_code());
    assert_eq!(
        store.data().take(),
        vec![entry("prehook_boom", &[wasmi::Val::I32(5)])]
    );
}

#[test]
fn indirect_call_through_a_redirected_slot_runs_the_hooks() {
    let input = wat::parse_str(
        r#"(module
            (type $t (func (param i32) (result i32)))
            (table 3 funcref)
            (func $f (param i32) (result i32) local.get 0)
            (func $malloc (param i32) (result i32)
                local.get 0
                i32.const 1
                i32.add)
            (func $g (param i32) (result i32) local.get 0)
            (elem (i32.const 0) $f $malloc $g)
            (func $dispatch (param i32 i32) (result i32)
                local.get 1
                local.get 0
                call_indirect (type $t))
            (export "dispatch" (func $dispatch)))"#,
    )
    .unwrap();
    let output = instrument(input, &allocator_tracees()).unwrap();

    let (mut store, instance) = instantiate(&output);
    let dispatch = instance.get_func(&mut store, "dispatch").unwrap();
    let mut results = [wasmi::Val::I32(0)];
    dispatch
        .call(
            &mut store,
            &[wasmi::Val::I32(1), wasmi::Val::I32(41)],
            &mut results,
        )
        .unwrap();
    assert_eq!(results[0].i32(), Some(42));
    assert_eq!(
        store.data().take(),
        vec![entry(
            "posthook_malloc",
            &[wasmi::Val::I32(41), wasmi::Val::I32(42)]
        )]
    );

    dispatch
        .call(
            &mut store,
            &[wasmi::Val::I32(0), wasmi::Val::I32(41)],
            &mut results,
        )
        .unwrap();
    assert_eq!(results[0].i32(), Some(41));
    assert_eq!(store.data().take(), vec![]);
}

#[test]
fn direct_call_from_another_function_runs_the_hooks() {
    let input = wat::parse_str(
        r#"(module
            (func $malloc (param i32) (result i32)
                local.get 0
                i32.const 100
                i32.add)
            (func $foo (result i32)
                i32.const 8
                call $malloc
                i32.const 16
                call $malloc
                i32.add)
            (export "foo" (func $foo)))"#,
    )
    .unwrap();
    let output = instrument(input, &allocator_tracees()).unwrap();

    let (mut store, instance) = instantiate(&output);
    let foo = instance.get_func(&mut store, "foo").unwrap();
    let mut results = [wasmi::Val::I32(0)];
    foo.call(&mut store, &[], &mut results).unwrap();
    assert_eq!(results[0].i32(), Some(224));
    assert_eq!(
        store.data().take(),
        vec![
            entry("posthook_malloc", &[wasmi::Val::I32(8), wasmi::Val::I32(108)]),
            entry(
                "posthook_malloc",
                &[wasmi::Val::I32(16), wasmi::Val::I32(116)]
            ),
        ]
    );
}

#[test]
fn recursive_tracee_is_observed_at_every_level() {
    let input = wat::parse_str(
        r#"(module
            (func $down (param i32) (result i32)
                local.get 0
                i32.eqz
                if (result i32)
                    i32.const 0
                else
                    local.get 0
                    i32.const 1
                    i32.sub
                    call $down
                    i32.const 1
                    i32.add
                end)
            (export "down" (func $down)))"#,
    )
    .unwrap();
    let tracees = vec![tracee("down", &[HookPoint::Pre])];
    let output = instrument(input, &tracees).unwrap();

    let (mut store, instance) = instantiate(&output);
    let down = instance.get_func(&mut store, "down").unwrap();
    let mut results = [wasmi::Val::I32(0)];
    down.call(&mut store, &[wasmi::Val::I32(2)], &mut results)
        .unwrap();
    assert_eq!(results[0].i32(), Some(2));
    assert_eq!(
        store.data().take(),
        vec![
            entry("prehook_down", &[wasmi::Val::I32(2)]),
            entry("prehook_down", &[wasmi::Val::I32(1)]),
            entry("prehook_down", &[wasmi::Val::I32(0)]),
        ]
    );
}

#[test]
fn input_that_is_no_module_is_a_parse_error() {
    let result = instrument(b"not wasm".to_vec(), &allocator_tracees());
    assert!(matches!(result, Err(InstrumentError::ParseError(_))));
    let empty = instrument(Vec::new(), &[]);
    assert!(matches!(empty, Err(InstrumentError::ParseError(_))));
}

#[test]
fn element_segment_of_expressions_is_rejected() {
    let input = wat::parse_str(
        r#"(module
            (table 2 funcref)
            (func $f)
            (elem (i32.const 0) funcref (ref.func $f) (ref.null func)))"#,
    )
    .unwrap();
    let result = instrument(input, &allocator_tracees());
    assert_eq!(result, Err(InstrumentError::UnsupportedElementForm));
}

/// Like `instantiate`, but the hook called `failing` ends the call with an
/// exit status after it has written to the log.
fn instantiate_with_failing_hook(bytes: &[u8], failing: &str) -> (wasmi::Store<Log>, wasmi::Instance) {
    let engine = wasmi::Engine::default();
    let module = wasmi::Module::new(&engine, bytes).unwrap();
    let mut store = wasmi::Store::new(&engine, Log::default());
    let mut linker = wasmi::Linker::<Log>::new(&engine);
    for import in module.imports() {
        let name = import.name().to_string();
        let ty = import.ty().func().unwrap().clone();
        let label = name.clone();
        let fails = name == failing;
        linker
            .func_new("wmprof", &name, ty, move |caller, args, _| {
                caller.data().borrow_mut().push((label.clone(), show(args)));
                if fails {
                    Err(wasmi::Error::i32_exit(7))
                } else {
                    Ok(())
                }
            })
            .unwrap();
    }
    let instance = linker
        .instantiate(&mut store, &module)
        .unwrap()
        .ensure_no_start(&mut store)
        .unwrap();
    (store, instance)
}

const COUNTING: &str = r#"(module
    (global $count (mut i32) (i32.const 0))
    (func $bump (param i32) (result i32)
        global.get $count
        local.get 0
        i32.add
        global.set $count
        global.get $count)
    (func $read (result i32) global.get $count)
    (export "bump" (func $bump))
    (export "read" (func $read)))"#;

#[test]
fn failing_pre_hook_stops_the_call_before_the_tracee() {
    let input = wat::parse_str(COUNTING).unwrap();
    let tracees = vec![tracee("bump", &[HookPoint::Pre, HookPoint::Post])];
    let output = instrument(input, &tracees).unwrap();

    let (mut store, instance) = instantiate_with_failing_hook(&output, "prehook_bump");
    let bump = instance.get_func(&mut store, "bump").unwrap();
    let mut results = [wasmi::Val::I32(0)];
    let error = bump
        .call(&mut store, &[wasmi::Val::I32(5)], &mut results)
        .unwrap_err();
    assert_eq!(error.i32_exit_status(), Some(7));
    assert_eq!(
        store.data().take(),
        vec![entry("prehook_bump", &[wasmi::Val::I32(5)])]
    );

    let read = instance.get_func(&mut store, "read").unwrap();
    read.call(&mut store, &[], &mut results).unwrap();
    assert_eq!(results[0].i32(), Some(0));
}

#[test]
fn failing_post_hook_stops_the_call_after_the_tracee() {
    let input = wat::parse_str(COUNTING).unwrap();
    let tracees = vec![tracee("bump", &[HookPoint::Pre, HookPoint::Post])];
    let output = instrument(input, &tracees).unwrap();

    let (mut store, instance) = instantiate_with_failing_hook(&output, "posthook_bump");
    let bump = instance.get_func(&mut store, "bump").unwrap();
    let mut results = [wasmi::Val::I32(0)];
    let error = bump
        .call(&mut store, &[wasmi::Val::I32(5)], &mut results)
        .unwrap_err();
    assert_eq!(error.i32_exit_status(), Some(7));
    assert_eq!(
        store.data().take(),
        vec![
            entry("prehook_bump", &[wasmi::Val::I32(5)]),
            entry("posthook_bump", &[wasmi::Val::I32(5), wasmi::Val::I32(5)]),
        ]
    );

    let read = instance.get_func(&mut store, "read").unwrap();
    read.call(&mut store, &[], &mut results).unwrap();
    assert_eq!(results[0].i32(), Some(5));
}
