use std::cell::RefCell;

use instrumentor::{instrument, HookPoint, Tracee};

#[derive(Default)]
struct CtxData {
    prehook_add_args: Option<Vec<wasmi::Val>>,
    posthook_add_args: Option<Vec<wasmi::Val>>,
    prehook_sub_args: Option<Vec<wasmi::Val>>,
    posthook_multi_returns_args: Option<Vec<wasmi::Val>>,
}

type Ctx = RefCell<CtxData>;

fn assert_eq_vals(a: Vec<wasmi::Val>, b: Vec<wasmi::Val>) {
    assert_eq!(a.len(), b.len());
    for (a, b) in a.iter().zip(b.iter()) {
        match (a, b) {
            (wasmi::Val::I32(a), wasmi::Val::I32(b)) => assert_eq!(a, b),
            (wasmi::Val::I64(a), wasmi::Val::I64(b)) => assert_eq!(a, b),
            (wasmi::Val::F32(a), wasmi::Val::F32(b)) => assert_eq!(a, b),
            (wasmi::Val::F64(a), wasmi::Val::F64(b)) => assert_eq!(a, b),
            _ => panic!("Mismatched types"),
        }
    }
}

#[test]
fn test_instrument() {
    let input = wat::parse_str(
        r#"(module
            (func $add (param i32 i32) (result i32)
                local.get 0
                local.get 1
                i32.add)
            (export "add" (func $add))
            (func $sub (param i32 i32) (result i32)
                local.get 0
                local.get 1
                i32.sub)
            (export "sub" (func $sub))
            (func $multi-returns (param i32 i64) (result i64 i32)
                local.get 1
                i64.const 1
                i64.add
                local.get 0
                i32.const 2
                i32.add)
            (export "multi-returns" (func $multi-returns))
        )"#,
    )
    .expect("Failed to parse wat");
    let tracees = vec![
        Tracee {
            name: "add".to_string(),
            hook_points: [HookPoint::Pre, HookPoint::Post].into(),
        },
        Tracee {
            name: "sub".to_string(),
            hook_points: [HookPoint::Pre].into(),
        },
        Tracee {
            name: "multi-returns".to_string(),
            hook_points: [HookPoint::Post].into(),
        },
    ];
    let output = instrument(input, &tracees).unwrap();

    let engine = wasmi::Engine::default();
    let module = wasmi::Module::new(&engine, &output).unwrap();

    let mut store = wasmi::Store::new(&engine, Ctx::default());
    let mut linker = wasmi::Linker::<Ctx>::new(&engine);

    linker
        .func_new(
            "wmprof",
            "prehook_add",
            wasmi::FuncType::new([wasmi::core::ValType::I32, wasmi::core::ValType::I32], []),
            |caller, args, _| {
                let ctx = caller.data();
                ctx.borrow_mut().prehook_add_args = Some(args.to_vec());
                Ok(())
            },
        )
        .unwrap();

    linker
        .func_new(
            "wmprof",
            "posthook_add",
            wasmi::FuncType::new(
                [
                    wasmi::core::ValType::I32,
                    wasmi::core::ValType::I32,
                    wasmi::core::ValType::I32,
                ],
                [],
            ),
            |caller, args, _| {
                let ctx = caller.data();
                ctx.borrow_mut().posthook_add_args = Some(args.to_vec());
                Ok(())
            },
        )
        .unwrap();

    linker
        .func_new(
            "wmprof",
            "prehook_sub",
            wasmi::FuncType::new([wasmi::core::ValType::I32, wasmi::core::ValType::I32], []),
            |caller, args, _| {
                let ctx = caller.data();
                ctx.borrow_mut().prehook_sub_args = Some(args.to_vec());
                Ok(())
            },
        )
        .unwrap();

    linker
        .func_new(
            "wmprof",
            "posthook_multi-returns",
            wasmi::FuncType::new(
                [
                    wasmi::core::ValType::I32,
                    wasmi::core::ValType::I64,
                    wasmi::core::ValType::I64,
                    wasmi::core::ValType::I32,
                ],
                [],
            ),
            |caller, args, _| {
                let ctx = caller.data();
                ctx.borrow_mut().posthook_multi_returns_args = Some(args.to_vec());
                Ok(())
            },
        )
        .unwrap();

    let instance = linker.instantiate(&mut store, &module).unwrap();
    let instance = instance.ensure_no_start(&mut store).unwrap();
    let add = instance.get_func(&mut store, "add").unwrap();

    let args = [wasmi::Val::I32(1), wasmi::Val::I32(2)];
    let mut results = [wasmi::Val::I32(0)];
    add.call(&mut store, &args, &mut results).unwrap();

    assert_eq!(results[0].i32(), Some(3));

    let ctx = store.data();
    let ctx = ctx.take();
    assert_eq_vals(
        ctx.prehook_add_args.unwrap(),
        vec![wasmi::Val::I32(1), wasmi::Val::I32(2)],
    );
    assert_eq_vals(
        ctx.posthook_add_args.unwrap(),
        vec![wasmi::Val::I32(1), wasmi::Val::I32(2), wasmi::Val::I32(3)],
    );

    let sub = instance.get_func(&mut store, "sub").unwrap();
    let mut results = [wasmi::Val::I32(0)];
    sub.call(&mut store, &args, &mut results).unwrap();

    assert_eq!(results[0].i32(), Some(-1));

    let ctx = store.data();
    let ctx = ctx.take();
    assert_eq_vals(
        ctx.prehook_sub_args.unwrap(),
        vec![wasmi::Val::I32(1), wasmi::Val::I32(2)],
    );

    let multi_returns = instance.get_func(&mut store, "multi-returns").unwrap();
    let args = [wasmi::Val::I32(2), wasmi::Val::I64(1)];
    let mut results = [wasmi::Val::I32(0), wasmi::Val::I64(0)];
    multi_returns.call(&mut store, &args, &mut results).unwrap();

    assert_eq!(results[0].i64(), Some(2));
    assert_eq!(results[1].i32(), Some(4));

    let ctx = store.data();
    let ctx = ctx.take();
    assert_eq_vals(
        ctx.posthook_multi_returns_args.unwrap(),
        vec![
            wasmi::Val::I32(2),
            wasmi::Val::I64(1),
            wasmi::Val::I64(2),
            wasmi::Val::I32(4),
        ],
    );
}
