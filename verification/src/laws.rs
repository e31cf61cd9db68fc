//! What instrumenting a module guarantees.

use crate::call_graph::{is_use, FunctionUse};
use crate::hook::{hook_extends, hook_functions, hook_installed, wrapper_code, Hook};
use crate::replace::{
    export_selected, redirected_body, redirected_export, redirected_op, redirected_segment,
    redirected_where, slot,
};
use crate::semantics::{
    conforms, entry, exec, hook_traps, observes, wrapped_outcome, wrapper_fits, wrapper_runs,
    CallEvent, Host, Run, Value,
};
use crate::tracee::Tracee;
use crate::wasm::{
    call_target, call_targets, code_of, element_ids, element_kinds, element_table, export_ids,
    export_items, export_table,
    extends, function_ids, function_table, function_types, ids_listed, interned, plain_types, is_local, local_table, same_elements, same_exports, same_rest,
    type_table, typed, types_sound, with_code, ExportView, FunctionBody, FunctionView, Op, Signature,
};
use crate::{
    find_local, first_named_at, hooked_all, instrumented, named_local, none_matches,
    tracee_hooked, uses_of_replaced,
};
use vstd::prelude::*;
use walrus::{ElementId, ExportId, FunctionId, Module, TypeId, ValType};

verus! {

/// Whether `v` is a hook: imported from `wmprof` under `field`, taking
/// `params` and returning nothing.
pub open spec fn is_hook(v: FunctionView, field: Seq<char>, params: Seq<ValType>) -> bool {
    &&& v.body == (FunctionBody::Import { module: "wmprof"@, field })
    &&& v.signature == (Signature { params, results: Seq::empty() })
}

/// Whether `m` holds the wrapper `h` around `tracee`: a local function with
/// the signature of `tracee`, named `hooked_` and the tracee's name, whose
/// body is `wrapper_code` over distinct locals, and whose hooks are imported
/// as `wmprof.prehook_` and `wmprof.posthook_` and that name, the first with
/// the parameters of `tracee`, the second with its parameters and results.
pub open spec fn wrapper_in(m: Module, tracee: FunctionId, h: Hook) -> bool {
    let sig = function_table(m)[tracee].signature;
    &&& function_table(m).contains_key(tracee)
    &&& function_table(m).contains_key(h.wrapper)
    &&& h.wrapper != tracee
    &&& function_table(m)[h.wrapper] == (FunctionView {
        name: Some("hooked_"@ + h.name),
        signature: sig,
        body: FunctionBody::Local {
            args: h.args,
            code: wrapper_code(tracee, h.args, h.saved, h.pre, h.post),
        },
    })
    &&& (h.args + h.saved).no_duplicates()
    &&& h.args.len() == sig.params.len()
    &&& match h.pre {
        Some(hook) => {
            &&& function_table(m).contains_key(hook)
            &&& is_hook(function_table(m)[hook], "prehook_"@ + h.name, sig.params)
            &&& hook != tracee
            &&& hook != h.wrapper
        },
        None => true,
    }
    &&& match h.post {
        Some(hook) => {
            &&& h.saved.len() == sig.results.len()
            &&& function_table(m).contains_key(hook)
            &&& is_hook(function_table(m)[hook], "posthook_"@ + h.name, sig.params + sig.results)
            &&& hook != tracee
            &&& hook != h.wrapper
            &&& h.pre != Some(hook)
        },
        None => true,
    }
}

/// `w` is a function that `a` lacks and that wraps `t` in `b` under the
/// name that `t` bears: where `t` is called `malloc`, `w` is called
/// `hooked_malloc` and its hooks `prehook_malloc` and `posthook_malloc`.
pub open spec fn wrapped(a: Module, b: Module, t: FunctionId, w: FunctionId) -> bool {
    !function_table(a).contains_key(w) && exists|h: Hook|
        h.wrapper == w && #[trigger] wrapper_in(b, t, h) && function_table(b)[t].name == Some(
            h.name,
        )
}

/// The function that a name finds bears that name.
pub proof fn found_is_named(m: Module, name: Seq<char>, t: FunctionId)
    requires
        find_local(m, name) == Some(t),
    ensures
        named_local(m, t, name),
{
    let i = choose|i: int| first_named_at(m, name, i);
    assert(first_named_at(m, name, i));
}

/// A module in which a wrapper was installed holds that wrapper.
pub proof fn installed_wrapper(
    a: Module,
    tracee: FunctionId,
    name: Seq<char>,
    pre: bool,
    post: bool,
    h: Hook,
    b: Module,
)
    requires
        hook_installed(a, tracee, name, pre, post, h, b),
    ensures
        wrapper_in(b, tracee, h),
        extends(a, b),
        !function_table(a).contains_key(h.wrapper),
{
    hook_extends(a, tracee, name, pre, post, h, b);
    let added = hook_functions(h);
    assert(added[added.len() - 1] == h.wrapper);
    match h.pre {
        Some(hook) => {
            assert(added[0] == hook);
        },
        None => {},
    }
    match h.post {
        Some(hook) => {
            assert(added[added.len() - 2] == hook);
        },
        None => {},
    }
}

/// A wrapper stays where functions are only added.
pub proof fn wrapper_stays(a: Module, b: Module, tracee: FunctionId, h: Hook)
    requires
        wrapper_in(a, tracee, h),
        extends(a, b),
    ensures
        wrapper_in(b, tracee, h),
{
}

/// Handling tracees leaves what the module held as it was, and maps every
/// function that it adds to the map to a new function that wraps it.
pub proof fn hooked_all_keeps(
    a: Module,
    from: Map<FunctionId, FunctionId>,
    tracees: Seq<Tracee>,
    b: Module,
    to: Map<FunctionId, FunctionId>,
)
    requires
        hooked_all(a, from, tracees, b, to),
    ensures
        extends(a, b),
        forall|t: FunctionId| #[trigger]
            to.contains_key(t) ==> (from.contains_key(t) && to[t] == from[t]) || wrapped(
                a,
                b,
                t,
                to[t],
            ),
    decreases tracees.len(),
{
    if tracees.len() > 0 {
        let (mid, prev) = choose|mid: Module, prev: Map<FunctionId, FunctionId>|
            hooked_all(a, from, tracees.drop_last(), mid, prev) && #[trigger] tracee_hooked(
                mid,
                prev,
                tracees.last(),
                b,
                to,
            );
        hooked_all_keeps(a, from, tracees.drop_last(), mid, prev);
        let x = tracees.last();
        match find_local(mid, x.name@) {
            None => {},
            Some(t0) => {
                let w0 = to[t0];
                let pre = x.wants(crate::tracee::HookPoint::Pre);
                let post = x.wants(crate::tracee::HookPoint::Post);
                let h0 = choose|h: Hook|
                    h.wrapper == w0 && #[trigger] hook_installed(mid, t0, x.name@, pre, post, h, b);
                installed_wrapper(mid, t0, x.name@, pre, post, h0, b);
                assert forall|t: FunctionId| #[trigger] to.contains_key(t) implies (
                from.contains_key(t) && to[t] == from[t]) || wrapped(a, b, t, to[t]) by {
                    if t == t0 {
                        found_is_named(mid, x.name@, t0);
                        assert(wrapper_in(b, t0, h0));
                        assert(function_table(b)[t0].name == Some(h0.name));
                    } else {
                        assert(prev.contains_key(t));
                        assert(to[t] == prev[t]);
                        if !(from.contains_key(t) && prev[t] == from[t]) {
                            assert(wrapped(a, mid, t, prev[t]));
                            let h = choose|h: Hook|
                                h.wrapper == prev[t] && #[trigger] wrapper_in(mid, t, h)
                                    && function_table(mid)[t].name == Some(h.name);
                            wrapper_stays(mid, b, t, h);
                            assert(function_table(b)[t] == function_table(mid)[t]);
                        }
                    }
                }
            },
        }
    }
}

/// A wrapper that the module lacked before is not touched by redirecting the
/// sites that the module had before.
pub proof fn wrapper_survives(
    a: Module,
    mid: Module,
    map: Map<FunctionId, FunctionId>,
    b: Module,
    tracee: FunctionId,
    h: Hook,
)
    requires
        wrapper_in(mid, tracee, h),
        !function_table(a).contains_key(h.wrapper),
        redirected_where(mid, uses_of_replaced(a, map), map, b),
    ensures
        wrapper_in(b, tracee, h),
        function_table(b)[tracee].name == function_table(mid)[tracee].name,
{
    let sel = uses_of_replaced(a, map);
    let w = h.wrapper;
    let code = code_of(function_table(mid)[w]);
    assert(function_table(b).contains_key(w));
    assert(function_table(b)[w] == with_code(
        function_table(mid)[w],
        redirected_body(sel, map, w, code),
    ));
    assert(redirected_body(sel, map, w, code) =~= code) by {
        assert forall|i: int| 0 <= i < code.len() implies redirected_op(
            sel,
            map,
            w,
            code[i],
        ) == code[i] by {
            match code[i] {
                Op::Call(t) => {
                    assert(!is_use(a, t, FunctionUse::Call { caller: w }));
                },
                _ => {},
            }
        }
    }
    assert(function_table(b).contains_key(tracee));
    assert(function_table(b)[tracee] == with_code(
        function_table(mid)[tracee],
        redirected_body(sel, map, tracee, code_of(function_table(mid)[tracee])),
    ));
    match h.pre {
        Some(hook) => {
            assert(function_table(b).contains_key(hook));
            assert(function_table(b)[hook] == with_code(
                function_table(mid)[hook],
                redirected_body(sel, map, hook, code_of(function_table(mid)[hook])),
            ));
        },
        None => {},
    }
    match h.post {
        Some(hook) => {
            assert(function_table(b).contains_key(hook));
            assert(function_table(b)[hook] == with_code(
                function_table(mid)[hook],
                redirected_body(sel, map, hook, code_of(function_table(mid)[hook])),
            ));
        },
        None => {},
    }
}

/// A function that a `call` instruction of a body invokes is among the call
/// targets of the body.
pub proof fn called_is_target(code: Seq<Op>, i: int, t: FunctionId)
    requires
        0 <= i < code.len(),
        code[i] == Op::Call(t),
    ensures
        call_targets(code).contains(t),
    decreases code.len(),
{
    let rest = code.drop_last();
    let targets = call_targets(rest);
    if i == code.len() - 1 {
        assert(call_targets(code) == targets + seq![t]);
        assert((targets + seq![t])[targets.len() as int] == t);
    } else {
        called_is_target(rest, i, t);
        let k = choose|k: int| 0 <= k < targets.len() && targets[k] == t;
        match call_target(code.last()) {
            Some(s) => {
                assert(call_targets(code) == targets + seq![s]);
                assert((targets + seq![s])[k] == t);
            },
            None => {
                assert(call_targets(code) == targets);
            },
        }
    }
}

/// Every export that targeted a wrapped function targets its wrapper after
/// instrumentation, under the same name.
pub proof fn export_redirection(
    a: Module,
    tracees: Seq<Tracee>,
    b: Module,
    map: Map<FunctionId, FunctionId>,
    x: ExportId,
    t: FunctionId,
)
    requires
        instrumented(a, tracees, b, map),
        export_table(a).contains_key(x),
        export_table(a)[x].function == Some(t),
        map.contains_key(t),
    ensures
        export_ids(b) == export_ids(a),
        export_table(b).contains_key(x),
        export_table(b)[x] == (ExportView { name: export_table(a)[x].name, function: Some(map[t]) }),
{
    let mid = choose|mid: Module| #[trigger]
        hooked_all(a, Map::empty(), tracees, mid, map) && redirected_where(
            mid,
            uses_of_replaced(a, map),
            map,
            b,
        );
    hooked_all_keeps(a, Map::empty(), tracees, mid, map);
    assert(export_table(mid).contains_key(x));
    assert(export_table(b)[x] == redirected_export(
        uses_of_replaced(a, map),
        map,
        x,
        export_table(mid)[x],
    ));
    assert(is_use(a, t, FunctionUse::Export { export: x }));
}

/// Every slot of an element segment that held a wrapped function holds its
/// wrapper after instrumentation. The segments are the same, in the same
/// order, each is placed where it was, in the same table at the same offset,
/// and is as long as it was.
pub proof fn element_redirection(
    a: Module,
    tracees: Seq<Tracee>,
    b: Module,
    map: Map<FunctionId, FunctionId>,
    e: ElementId,
    index: usize,
    t: FunctionId,
)
    requires
        instrumented(a, tracees, b, map),
        element_table(a).contains_key(e),
        element_table(a)[e] is Functions,
        index < element_table(a)[e]->Functions_0.len(),
        element_table(a)[e]->Functions_0[index as int] == t,
        map.contains_key(t),
    ensures
        element_ids(b) == element_ids(a),
        element_kinds(b) == element_kinds(a),
        element_table(b).contains_key(e),
        element_table(b)[e] is Functions,
        element_table(b)[e]->Functions_0.len() == element_table(a)[e]->Functions_0.len(),
        element_table(b)[e]->Functions_0[index as int] == map[t],
{
    let mid = choose|mid: Module| #[trigger]
        hooked_all(a, Map::empty(), tracees, mid, map) && redirected_where(
            mid,
            uses_of_replaced(a, map),
            map,
            b,
        );
    hooked_all_keeps(a, Map::empty(), tracees, mid, map);
    assert(element_table(mid).contains_key(e));
    assert(element_table(b)[e] == redirected_segment(
        uses_of_replaced(a, map),
        map,
        e,
        element_table(mid)[e],
    ));
    assert(slot(e, index as int) == FunctionUse::InElement { element: e, index });
    assert(is_use(a, t, FunctionUse::InElement { element: e, index }));
}

/// Every `call` of a wrapped function in the body of a function that the
/// module held before calls the wrapper after instrumentation.
pub proof fn call_redirection(
    a: Module,
    tracees: Seq<Tracee>,
    b: Module,
    map: Map<FunctionId, FunctionId>,
    f: FunctionId,
    i: int,
    t: FunctionId,
)
    requires
        instrumented(a, tracees, b, map),
        is_local(a, f),
        0 <= i < code_of(function_table(a)[f]).len(),
        code_of(function_table(a)[f])[i] == Op::Call(t),
        map.contains_key(t),
    ensures
        is_local(b, f),
        code_of(function_table(b)[f]).len() == code_of(function_table(a)[f]).len(),
        code_of(function_table(b)[f])[i] == Op::Call(map[t]),
{
    let mid = choose|mid: Module| #[trigger]
        hooked_all(a, Map::empty(), tracees, mid, map) && redirected_where(
            mid,
            uses_of_replaced(a, map),
            map,
            b,
        );
    hooked_all_keeps(a, Map::empty(), tracees, mid, map);
    assert(function_table(a).contains_key(f));
    assert(function_table(mid).contains_key(f));
    assert(function_table(b).contains_key(f));
    assert(function_table(b)[f] == with_code(
        function_table(mid)[f],
        redirected_body(uses_of_replaced(a, map), map, f, code_of(function_table(mid)[f])),
    ));
    called_is_target(code_of(function_table(a)[f]), i, t);
    assert(is_use(a, t, FunctionUse::Call { caller: f }));
}

/// Every function that the map replaces is replaced by a wrapper of it: the
/// instrumented module holds the wrapper, which the module lacked before, and
/// the wrapper calls the function itself.
pub proof fn wrapper_installed(
    a: Module,
    tracees: Seq<Tracee>,
    b: Module,
    map: Map<FunctionId, FunctionId>,
    t: FunctionId,
)
    requires
        instrumented(a, tracees, b, map),
        map.contains_key(t),
    ensures
        wrapped(a, b, t, map[t]),
{
    let mid = choose|mid: Module| #[trigger]
        hooked_all(a, Map::empty(), tracees, mid, map) && redirected_where(
            mid,
            uses_of_replaced(a, map),
            map,
            b,
        );
    hooked_all_keeps(a, Map::empty(), tracees, mid, map);
    assert(wrapped(a, mid, t, map[t]));
    let h = choose|h: Hook|
        h.wrapper == map[t] && #[trigger] wrapper_in(mid, t, h) && function_table(mid)[t].name
            == Some(h.name);
    wrapper_survives(a, mid, map, b, t, h);
}

/// The wrapper of a function of the module bears its name behind `hooked_`:
/// an export that targeted `malloc` targets `hooked_malloc` afterwards.
pub proof fn wrapper_bears_the_name(
    a: Module,
    tracees: Seq<Tracee>,
    b: Module,
    map: Map<FunctionId, FunctionId>,
    t: FunctionId,
)
    requires
        instrumented(a, tracees, b, map),
        map.contains_key(t),
        function_table(a).contains_key(t),
    ensures
        function_table(a)[t].name is Some,
        function_table(b).contains_key(map[t]),
        function_table(b)[map[t]].name == Some("hooked_"@ + function_table(a)[t].name->Some_0),
        function_table(b)[t].name == function_table(a)[t].name,
{
    let sel = uses_of_replaced(a, map);
    let mid = choose|mid: Module| #[trigger]
        hooked_all(a, Map::empty(), tracees, mid, map) && redirected_where(mid, sel, map, b);
    hooked_all_keeps(a, Map::empty(), tracees, mid, map);
    wrapper_installed(a, tracees, b, map, t);
    let h = choose|h: Hook|
        h.wrapper == map[t] && #[trigger] wrapper_in(b, t, h) && function_table(b)[t].name == Some(
            h.name,
        );
    assert(function_table(mid).contains_key(t));
    assert(function_table(b)[t] == with_code(
        function_table(mid)[t],
        redirected_body(sel, map, t, code_of(function_table(mid)[t])),
    ));
}

/// After instrumentation nothing refers to a wrapped function but the bodies
/// of functions that were added, which are the wrappers: no export, no slot
/// of an element segment, and no function that the module held before.
pub proof fn wrapped_is_used_by_wrappers_only(
    a: Module,
    tracees: Seq<Tracee>,
    b: Module,
    map: Map<FunctionId, FunctionId>,
    t: FunctionId,
    u: FunctionUse,
)
    requires
        instrumented(a, tracees, b, map),
        map.contains_key(t),
        function_table(a).contains_key(t),
        is_use(b, t, u),
    ensures
        u is Call,
        !function_table(a).contains_key(u->Call_caller),
{
    let sel = uses_of_replaced(a, map);
    let mid = choose|mid: Module| #[trigger]
        hooked_all(a, Map::empty(), tracees, mid, map) && redirected_where(mid, sel, map, b);
    hooked_all_keeps(a, Map::empty(), tracees, mid, map);
    assert forall|t0: FunctionId| #[trigger] map.contains_key(t0) implies map[t0] != t by {
        assert(wrapped(a, mid, t0, map[t0]));
    }
    match u {
        FunctionUse::Call { caller } => {
            if function_table(a).contains_key(caller) {
                assert(function_table(mid).contains_key(caller));
                let before = code_of(function_table(a)[caller]);
                let after = code_of(function_table(b)[caller]);
                assert(function_table(b)[caller] == with_code(
                    function_table(mid)[caller],
                    redirected_body(sel, map, caller, before),
                ));
                after.lemma_filter_map_contains(|op: Op| call_target(op), t);
                let op = choose|op: Op| #[trigger] after.contains(op) && call_target(op) == Some(t);
                let i = choose|i: int| 0 <= i < after.len() && after[i] == op;
                assert(after[i] == Op::Call(t));
                match before[i] {
                    Op::Call(t0) => {
                        called_is_target(before, i, t0);
                        assert(is_use(a, t0, FunctionUse::Call { caller }));
                    },
                    _ => {},
                }
            }
        },
        FunctionUse::InElement { element, index } => {
            assert(element_table(mid).contains_key(element));
            assert(element_table(b)[element] == redirected_segment(
                sel,
                map,
                element,
                element_table(mid)[element],
            ));
            let t0 = element_table(a)[element]->Functions_0[index as int];
            assert(slot(element, index as int) == u);
            assert(is_use(a, t0, u));
        },
        FunctionUse::Export { export } => {
            assert(export_table(mid).contains_key(export));
            assert(export_table(b)[export] == redirected_export(
                sel,
                map,
                export,
                export_table(mid)[export],
            ));
            let t0 = export_table(a)[export].function->Some_0;
            assert(is_use(a, t0, u));
        },
    }
}

/// An export that did not target a replaced function is as it was after
/// instrumentation: it has its name and hands out the same item.
pub proof fn other_exports_are_kept(
    a: Module,
    tracees: Seq<Tracee>,
    b: Module,
    map: Map<FunctionId, FunctionId>,
    x: ExportId,
)
    requires
        instrumented(a, tracees, b, map),
        export_table(a).contains_key(x),
        export_table(a)[x].function matches Some(t) ==> !map.contains_key(t),
    ensures
        export_table(b).contains_key(x),
        export_table(b)[x] == export_table(a)[x],
        export_items(b)[x] == export_items(a)[x],
{
    let mid = choose|mid: Module| #[trigger]
        hooked_all(a, Map::empty(), tracees, mid, map) && redirected_where(
            mid,
            uses_of_replaced(a, map),
            map,
            b,
        );
    hooked_all_keeps(a, Map::empty(), tracees, mid, map);
    assert(export_table(mid).contains_key(x));
    assert(export_table(b)[x] == redirected_export(
        uses_of_replaced(a, map),
        map,
        x,
        export_table(mid)[x],
    ));
    assert(!export_selected(uses_of_replaced(a, map), x, export_table(mid)[x]));
}

/// Instrumentation leaves the tables, memories, globals and data segments of
/// the module as they were, and its element segments where they were placed.
pub proof fn rest_is_kept(
    a: Module,
    tracees: Seq<Tracee>,
    b: Module,
    map: Map<FunctionId, FunctionId>,
)
    requires
        instrumented(a, tracees, b, map),
    ensures
        same_rest(a, b),
        element_ids(b) == element_ids(a),
        element_kinds(b) == element_kinds(a),
        export_ids(b) == export_ids(a),
{
    let mid = choose|mid: Module| #[trigger]
        hooked_all(a, Map::empty(), tracees, mid, map) && redirected_where(
            mid,
            uses_of_replaced(a, map),
            map,
            b,
        );
    hooked_all_keeps(a, Map::empty(), tracees, mid, map);
}

/// Where no tracee names a local function, handling the tracees changes
/// nothing.
pub proof fn unmatched_are_skipped(
    a: Module,
    from: Map<FunctionId, FunctionId>,
    tracees: Seq<Tracee>,
    b: Module,
    to: Map<FunctionId, FunctionId>,
)
    requires
        hooked_all(a, from, tracees, b, to),
        none_matches(a, tracees),
    ensures
        b == a,
        to == from,
    decreases tracees.len(),
{
    if tracees.len() > 0 {
        let (mid, prev) = choose|mid: Module, prev: Map<FunctionId, FunctionId>|
            hooked_all(a, from, tracees.drop_last(), mid, prev) && #[trigger] tracee_hooked(
                mid,
                prev,
                tracees.last(),
                b,
                to,
            );
        assert forall|i: int| 0 <= i < tracees.drop_last().len() implies find_local(
            a,
            (#[trigger] tracees.drop_last()[i]).name@,
        ) is None by {
            assert(tracees.drop_last()[i] == tracees[i]);
        }
        unmatched_are_skipped(a, from, tracees.drop_last(), mid, prev);
        assert(tracees[tracees.len() - 1] == tracees.last());
    }
}

/// The tables of two modules are the same.
pub open spec fn same_tables(a: Module, b: Module) -> bool {
    &&& function_ids(b) == function_ids(a)
    &&& function_table(b) == function_table(a)
    &&& same_elements(a, b)
    &&& same_exports(a, b)
    &&& same_rest(a, b)
    &&& local_table(b) == local_table(a)
    &&& type_table(b) == type_table(a)
    &&& interned(b) == interned(a)
    &&& plain_types(b) == plain_types(a)
}

/// Where no tracee names a local function of the module, instrumenting it
/// replaces nothing and leaves every table of the module as it was.
pub proof fn unmatched_changes_nothing(
    a: Module,
    tracees: Seq<Tracee>,
    b: Module,
    map: Map<FunctionId, FunctionId>,
)
    requires
        instrumented(a, tracees, b, map),
        none_matches(a, tracees),
    ensures
        map == Map::<FunctionId, FunctionId>::empty(),
        same_tables(a, b),
{
    let sel = uses_of_replaced(a, map);
    let mid = choose|mid: Module| #[trigger]
        hooked_all(a, Map::empty(), tracees, mid, map) && redirected_where(mid, sel, map, b);
    unmatched_are_skipped(a, Map::empty(), tracees, mid, map);
    assert forall|f: FunctionId| #[trigger] function_table(a).contains_key(f) implies function_table(
        b,
    )[f] == function_table(a)[f] by {
        let code = code_of(function_table(a)[f]);
        assert(function_table(b)[f] == with_code(
            function_table(a)[f],
            redirected_body(sel, map, f, code),
        ));
        assert(redirected_body(sel, map, f, code) =~= code);
    }
    assert(function_table(b) =~= function_table(a));
    assert forall|e: ElementId| #[trigger] element_table(a).contains_key(e) implies element_table(
        b,
    )[e] == element_table(a)[e] by {
        let v = element_table(a)[e];
        assert(element_table(b)[e] == redirected_segment(sel, map, e, v));
        if v is Functions {
            assert(redirected_segment(sel, map, e, v)->Functions_0 =~= v->Functions_0);
        }
    }
    assert(element_table(b) =~= element_table(a));
    assert forall|x: ExportId| #[trigger] export_table(a).contains_key(x) implies export_table(
        b,
    )[x] == export_table(a)[x] by {
        assert(export_table(b)[x] == redirected_export(sel, map, x, export_table(a)[x]));
    }
    assert(export_table(b) =~= export_table(a));
    assert forall|x: ExportId| export_items(b)[x] == export_items(a)[x] by {
        assert(!(export_table(a).contains_key(x) && export_selected(
            sel,
            x,
            export_table(a)[x],
        )));
    }
    assert(export_items(b) =~= export_items(a));
}

/// Whether no two types of the module have the same signature.
pub open spec fn no_equal_types(m: Module) -> bool {
    forall|t: TypeId, u: TypeId|
        #![trigger type_table(m)[t], type_table(m)[u]]
        type_table(m).contains_key(t) && type_table(m).contains_key(u) && type_table(m)[t]
            == type_table(m)[u] ==> t == u
}

/// Whether every function type of the module is final and without a
/// supertype, as the types of a module without subtyping are.
pub open spec fn all_plain(m: Module) -> bool {
    forall|t: TypeId| #[trigger] type_table(m).contains_key(t) ==> plain_types(m).contains(t)
}

/// Installing a wrapper leaves the types soundly registered.
pub proof fn hook_keeps_types_sound(
    a: Module,
    tracee: FunctionId,
    name: Seq<char>,
    pre: bool,
    post: bool,
    h: Hook,
    b: Module,
)
    requires
        hook_installed(a, tracee, name, pre, post, h, b),
        types_sound(a),
    ensures
        types_sound(b),
        all_plain(a) ==> all_plain(b),
{
    let sig = function_table(a)[tracee].signature;
    assert forall|s: Signature| #[trigger] interned(b).contains_key(s) implies type_table(
        b,
    ).contains_key(interned(b)[s]) && type_table(b)[interned(b)[s]] == s && plain_types(
        b,
    ).contains(interned(b)[s]) by {
        if interned(a).contains_key(s) {
            assert(type_table(a).contains_key(interned(a)[s]));
        }
    }
    assert forall|t: TypeId|
        plain_types(b).contains(t) && #[trigger] type_table(b).contains_key(
            t,
        ) implies interned(b).contains_key(type_table(b)[t]) by {
        if type_table(a).contains_key(t) {
            assert(plain_types(a).contains(t));
            assert(interned(a).contains_key(type_table(a)[t]));
        }
    }
}

/// Where the type of the wrapped function is plain, the wrapper gets a type
/// that the module had, of the same signature; so the types that installing
/// a wrapper adds are at most two, those of the hooks.
pub proof fn wrapper_adds_no_type(
    a: Module,
    tracee: FunctionId,
    name: Seq<char>,
    pre: bool,
    post: bool,
    h: Hook,
    b: Module,
)
    requires
        hook_installed(a, tracee, name, pre, post, h, b),
        types_sound(a),
        typed(a, tracee),
        plain_types(a).contains(function_types(a)[tracee]),
    ensures
        type_table(a).contains_key(h.wrapper_type),
        type_table(a)[h.wrapper_type] == function_table(a)[tracee].signature,
        forall|t: TypeId|
            #[trigger] type_table(b).contains_key(t) && !type_table(a).contains_key(t) ==> Some(t)
                == h.pre_type || Some(t) == h.post_type,
        no_equal_types(a) ==> h.wrapper_type == function_types(a)[tracee],
{
    let sig = function_table(a)[tracee].signature;
    let own = function_types(a)[tracee];
    assert(type_table(a).contains_key(own));
    assert(interned(a).contains_key(type_table(a)[own]));
}

/// Where every type of the module is plain and no two have the same
/// signature, that is still so after a wrapper was installed: the wrapper
/// has the type of the function it wraps, and a hook has the type that the
/// module had for its signature, where it had one.
pub proof fn equal_types_stay_out(
    a: Module,
    tracee: FunctionId,
    name: Seq<char>,
    pre: bool,
    post: bool,
    h: Hook,
    b: Module,
)
    requires
        hook_installed(a, tracee, name, pre, post, h, b),
        types_sound(a),
        all_plain(a),
        no_equal_types(a),
    ensures
        no_equal_types(b),
        all_plain(b),
        types_sound(b),
{
    hook_keeps_types_sound(a, tracee, name, pre, post, h, b);
    assert forall|t: TypeId, u: TypeId|
        #![trigger type_table(b)[t], type_table(b)[u]]
        type_table(b).contains_key(t) && type_table(b).contains_key(u) && type_table(b)[t]
            == type_table(b)[u] implies t == u by {
        let s = type_table(b)[t];
        assert(plain_types(b).contains(t));
        assert(plain_types(b).contains(u));
        assert(interned(b).contains_key(s));
        // A type of `b` is the one registered for its signature: an old one
        // because no two old types are equal, a new one by its registration.
        assert(interned(b)[s] == t) by {
            types_are_registered_as_themselves(a, tracee, name, pre, post, h, b, t);
        }
        assert(interned(b)[s] == u) by {
            types_are_registered_as_themselves(a, tracee, name, pre, post, h, b, u);
        }
    }
}

/// In a module of plain types of which no two are equal, every type is the
/// one registered for its signature, and that stays so when a wrapper is
/// installed.
pub proof fn types_are_registered_as_themselves(
    a: Module,
    tracee: FunctionId,
    name: Seq<char>,
    pre: bool,
    post: bool,
    h: Hook,
    b: Module,
    t: TypeId,
)
    requires
        hook_installed(a, tracee, name, pre, post, h, b),
        types_sound(a),
        all_plain(a),
        no_equal_types(a),
        type_table(b).contains_key(t),
    ensures
        interned(b).contains_key(type_table(b)[t]),
        interned(b)[type_table(b)[t]] == t,
{
    hook_keeps_types_sound(a, tracee, name, pre, post, h, b);
    if type_table(a).contains_key(t) {
        let s = type_table(a)[t];
        assert(plain_types(a).contains(t));
        assert(interned(a).contains_key(s));
        assert(type_table(a).contains_key(interned(a)[s]));
        assert(type_table(a)[interned(a)[s]] == type_table(a)[t]);
        assert(interned(a)[s] == t);
    } else {
        crate::hook::hook_adds_types_sparingly(a, tracee, name, pre, post, h, b, t);
    }
}

/// Where the types of a module are soundly registered, all plain and no two
/// equal, they are so after the tracees were handled.
pub proof fn hooked_all_keeps_types(
    a: Module,
    from: Map<FunctionId, FunctionId>,
    tracees: Seq<Tracee>,
    b: Module,
    to: Map<FunctionId, FunctionId>,
)
    requires
        hooked_all(a, from, tracees, b, to),
        types_sound(a),
        all_plain(a),
        no_equal_types(a),
    ensures
        types_sound(b),
        all_plain(b),
        no_equal_types(b),
    decreases tracees.len(),
{
    if tracees.len() > 0 {
        let (mid, prev) = choose|mid: Module, prev: Map<FunctionId, FunctionId>|
            hooked_all(a, from, tracees.drop_last(), mid, prev) && #[trigger] tracee_hooked(
                mid,
                prev,
                tracees.last(),
                b,
                to,
            );
        hooked_all_keeps_types(a, from, tracees.drop_last(), mid, prev);
        let x = tracees.last();
        match find_local(mid, x.name@) {
            None => {},
            Some(t0) => {
                let pre = x.wants(crate::tracee::HookPoint::Pre);
                let post = x.wants(crate::tracee::HookPoint::Post);
                let h = choose|h: Hook|
                    h.wrapper == to[t0] && #[trigger] hook_installed(
                        mid,
                        t0,
                        x.name@,
                        pre,
                        post,
                        h,
                        b,
                    );
                equal_types_stay_out(mid, t0, x.name@, pre, post, h, b);
            },
        }
    }
}

/// Instrumenting a module whose types are all plain, and of which no two
/// have the same signature, adds no type beside an equal one.
pub proof fn types_stay_distinct(
    a: Module,
    tracees: Seq<Tracee>,
    b: Module,
    map: Map<FunctionId, FunctionId>,
)
    requires
        instrumented(a, tracees, b, map),
        types_sound(a),
        all_plain(a),
        no_equal_types(a),
    ensures
        types_sound(b),
        all_plain(b),
        no_equal_types(b),
{
    let mid = choose|mid: Module| #[trigger]
        hooked_all(a, Map::empty(), tracees, mid, map) && redirected_where(
            mid,
            uses_of_replaced(a, map),
            map,
            b,
        );
    hooked_all_keeps_types(a, Map::empty(), tracees, mid, map);
}

/// Whether `x` names no local function when its turn comes after `earlier`.
pub open spec fn absent_after(
    a: Module,
    from: Map<FunctionId, FunctionId>,
    earlier: Seq<Tracee>,
    x: Tracee,
) -> bool {
    forall|mid: Module, prev: Map<FunctionId, FunctionId>| #[trigger]
        hooked_all(a, from, earlier, mid, prev) ==> find_local(mid, x.name@) is None
}

/// A tracee that names no local function when its turn comes can be left out
/// of the list: handling the list with it comes to what handling the list
/// without it comes to.
pub proof fn absent_is_skipped(
    a: Module,
    from: Map<FunctionId, FunctionId>,
    earlier: Seq<Tracee>,
    x: Tracee,
    later: Seq<Tracee>,
    b: Module,
    to: Map<FunctionId, FunctionId>,
)
    requires
        absent_after(a, from, earlier, x),
    ensures
        hooked_all(a, from, earlier.push(x) + later, b, to) <==> hooked_all(
            a,
            from,
            earlier + later,
            b,
            to,
        ),
    decreases later.len(),
{
    let with_x = earlier.push(x) + later;
    let without = earlier + later;
    if later.len() == 0 {
        assert(with_x =~= earlier.push(x));
        assert(without =~= earlier);
        assert(with_x.drop_last() =~= earlier);
        assert(with_x.last() == x);
        if hooked_all(a, from, with_x, b, to) {
            let (mid, prev) = choose|mid: Module, prev: Map<FunctionId, FunctionId>|
                hooked_all(a, from, with_x.drop_last(), mid, prev) && #[trigger] tracee_hooked(
                    mid,
                    prev,
                    with_x.last(),
                    b,
                    to,
                );
            assert(hooked_all(a, from, earlier, mid, prev));
        }
        if hooked_all(a, from, earlier, b, to) {
            assert(tracee_hooked(b, to, x, b, to));
        }
    } else {
        let y = later.last();
        assert(with_x.drop_last() =~= earlier.push(x) + later.drop_last());
        assert(without.drop_last() =~= earlier + later.drop_last());
        assert(with_x.last() == y);
        assert(without.last() == y);
        if hooked_all(a, from, with_x, b, to) {
            let (mid, prev) = choose|mid: Module, prev: Map<FunctionId, FunctionId>|
                hooked_all(a, from, with_x.drop_last(), mid, prev) && #[trigger] tracee_hooked(
                    mid,
                    prev,
                    with_x.last(),
                    b,
                    to,
                );
            absent_is_skipped(a, from, earlier, x, later.drop_last(), mid, prev);
            assert(tracee_hooked(mid, prev, without.last(), b, to));
        }
        if hooked_all(a, from, without, b, to) {
            let (mid, prev) = choose|mid: Module, prev: Map<FunctionId, FunctionId>|
                hooked_all(a, from, without.drop_last(), mid, prev) && #[trigger] tracee_hooked(
                    mid,
                    prev,
                    without.last(),
                    b,
                    to,
                );
            absent_is_skipped(a, from, earlier, x, later.drop_last(), mid, prev);
            assert(tracee_hooked(mid, prev, with_x.last(), b, to));
        }
    }
}

/// Whether `f` is a function that `b` holds and `a` lacked, and is an import
/// or named `hooked_` and one of `names`.
pub open spec fn is_hook_or_wrapper(
    a: Module,
    b: Module,
    f: FunctionId,
    names: Seq<Tracee>,
) -> bool {
    &&& !function_table(a).contains_key(f)
    &&& function_table(b).contains_key(f)
    &&& function_table(b)[f].body is Import || exists|i: int|
        0 <= i < names.len() && function_table(b)[f].name == Some(
            "hooked_"@ + (#[trigger] names[i]).name@,
        )
}

/// Whether the functions of `b` are those of `a`, as they were and in the
/// same order, and then `added`, each a hook or a wrapper for one of `names`.
pub open spec fn grown_by(
    a: Module,
    b: Module,
    added: Seq<FunctionId>,
    names: Seq<Tracee>,
) -> bool {
    &&& extends(a, b)
    &&& function_ids(b) == function_ids(a) + added
    &&& forall|k: int|
        0 <= k < added.len() ==> is_hook_or_wrapper(a, b, #[trigger] added[k], names)
}

/// Handling tracees adds nothing to the functions of a module but hooks,
/// which are imports, and wrappers, each named `hooked_` and the name of a
/// tracee; it adds them behind the functions that the module had.
pub proof fn hooked_all_grows(
    a: Module,
    from: Map<FunctionId, FunctionId>,
    tracees: Seq<Tracee>,
    b: Module,
    to: Map<FunctionId, FunctionId>,
) -> (added: Seq<FunctionId>)
    requires
        hooked_all(a, from, tracees, b, to),
    ensures
        grown_by(a, b, added, tracees),
    decreases tracees.len(),
{
    if tracees.len() == 0 {
        let added = Seq::<FunctionId>::empty();
        assert(function_ids(a) + added =~= function_ids(a));
        added
    } else {
        let (mid, prev) = choose|mid: Module, prev: Map<FunctionId, FunctionId>|
            hooked_all(a, from, tracees.drop_last(), mid, prev) && #[trigger] tracee_hooked(
                mid,
                prev,
                tracees.last(),
                b,
                to,
            );
        let earlier = tracees.drop_last();
        let before = hooked_all_grows(a, from, earlier, mid, prev);
        let x = tracees.last();
        assert forall|f: FunctionId| is_hook_or_wrapper(a, mid, f, earlier) && function_table(
            b,
        ).contains_key(f) && function_table(b)[f] == function_table(mid)[f]
            implies is_hook_or_wrapper(a, b, f, tracees) by {
            if !(function_table(b)[f].body is Import) {
                let i = choose|i: int|
                    0 <= i < earlier.len() && function_table(mid)[f].name == Some(
                        "hooked_"@ + (#[trigger] earlier[i]).name@,
                    );
                assert(tracees[i] == earlier[i]);
            }
        }
        match find_local(mid, x.name@) {
            None => {
                assert forall|k: int| 0 <= k < before.len() implies is_hook_or_wrapper(
                    a,
                    b,
                    #[trigger] before[k],
                    tracees,
                ) by {
                    assert(is_hook_or_wrapper(a, mid, before[k], earlier));
                }
                before
            },
            Some(t0) => {
                let w0 = to[t0];
                let pre = x.wants(crate::tracee::HookPoint::Pre);
                let post = x.wants(crate::tracee::HookPoint::Post);
                let h = choose|h: Hook|
                    h.wrapper == w0 && #[trigger] hook_installed(mid, t0, x.name@, pre, post, h, b);
                installed_wrapper(mid, t0, x.name@, pre, post, h, b);
                let new = hook_functions(h);
                let added = before + new;
                assert(function_ids(b) =~= function_ids(a) + added);
                assert(tracees[tracees.len() - 1] == x);
                assert forall|k: int| 0 <= k < added.len() implies is_hook_or_wrapper(
                    a,
                    b,
                    #[trigger] added[k],
                    tracees,
                ) by {
                    if k < before.len() {
                        assert(added[k] == before[k]);
                        assert(is_hook_or_wrapper(a, mid, before[k], earlier));
                    } else {
                        let f = new[k - before.len()];
                        assert(added[k] == f);
                        assert(!function_table(mid).contains_key(f));
                        if function_table(a).contains_key(f) {
                            assert(function_table(mid).contains_key(f));
                        }
                        if f == h.wrapper {
                            assert(function_table(b)[f].name == Some("hooked_"@ + x.name@));
                        } else {
                            assert(h.pre == Some(f) || h.post == Some(f));
                            assert(function_table(b)[f].body is Import);
                        }
                    }
                }
                added
            },
        }
    }
}

/// A function that a name names in a module is found by that name, or one
/// before it is.
pub proof fn named_is_found(m: Module, name: Seq<char>, c: int)
    requires
        0 <= c < function_ids(m).len(),
        named_local(m, function_ids(m)[c], name),
    ensures
        find_local(m, name) is Some,
    decreases c,
{
    if exists|j: int| 0 <= j < c && named_local(m, #[trigger] function_ids(m)[j], name) {
        let j = choose|j: int| 0 <= j < c && named_local(m, #[trigger] function_ids(m)[j], name);
        named_is_found(m, name, j);
    } else {
        assert(first_named_at(m, name, c));
    }
}

/// A tracee that names no local function of the module, and whose name is
/// not `hooked_` and the name of a tracee before it, names no local function
/// when its turn comes.
pub proof fn absent_in_module_is_absent_later(a: Module, earlier: Seq<Tracee>, x: Tracee)
    requires
        ids_listed(a),
        find_local(a, x.name@) is None,
        forall|i: int|
            0 <= i < earlier.len() ==> x.name@ != "hooked_"@ + (#[trigger] earlier[i]).name@,
    ensures
        absent_after(a, Map::empty(), earlier, x),
{
    assert forall|mid: Module, prev: Map<FunctionId, FunctionId>| #[trigger]
        hooked_all(a, Map::empty(), earlier, mid, prev) implies find_local(mid, x.name@)
        is None by {
        let added = hooked_all_grows(a, Map::empty(), earlier, mid, prev);
        if find_local(mid, x.name@) is Some {
            let c = choose|c: int| first_named_at(mid, x.name@, c);
            let f = function_ids(mid)[c];
            if c < function_ids(a).len() {
                assert(f == function_ids(a)[c]);
                assert(function_table(a).contains_key(function_ids(a)[c]));
                named_is_found(a, x.name@, c);
            } else {
                assert(f == added[c - function_ids(a).len()]);
                assert(is_hook_or_wrapper(a, mid, added[c - function_ids(a).len()], earlier));
            }
        }
    }
}

/// A function of the module that the map replaces was in the map before, or
/// is the function that one of the tracees names in the module.
pub proof fn replaced_are_matched(
    a: Module,
    from: Map<FunctionId, FunctionId>,
    tracees: Seq<Tracee>,
    b: Module,
    to: Map<FunctionId, FunctionId>,
    t: FunctionId,
)
    requires
        hooked_all(a, from, tracees, b, to),
        ids_listed(a),
        to.contains_key(t),
        function_table(a).contains_key(t),
    ensures
        from.contains_key(t) || exists|i: int|
            0 <= i < tracees.len() && find_local(a, (#[trigger] tracees[i]).name@) == Some(t),
    decreases tracees.len(),
{
    if tracees.len() > 0 {
        let (mid, prev) = choose|mid: Module, prev: Map<FunctionId, FunctionId>|
            hooked_all(a, from, tracees.drop_last(), mid, prev) && #[trigger] tracee_hooked(
                mid,
                prev,
                tracees.last(),
                b,
                to,
            );
        let earlier = tracees.drop_last();
        let x = tracees.last();
        let last = tracees.len() - 1;
        assert(tracees[last] == x);
        if prev.contains_key(t) {
            replaced_are_matched(a, from, earlier, mid, prev, t);
            if !from.contains_key(t) {
                let i = choose|i: int|
                    0 <= i < earlier.len() && find_local(a, (#[trigger] earlier[i]).name@) == Some(
                        t,
                    );
                assert(tracees[i] == earlier[i]);
            }
        } else {
            // The tracee of this turn found `t`, among the functions that the
            // module had from the start.
            let added = hooked_all_grows(a, from, earlier, mid, prev);
            assert(find_local(mid, x.name@) == Some(t));
            let c = choose|c: int| first_named_at(mid, x.name@, c);
            if c >= function_ids(a).len() {
                assert(function_ids(mid)[c] == added[c - function_ids(a).len()]);
                assert(is_hook_or_wrapper(a, mid, added[c - function_ids(a).len()], earlier));
            }
            assert(c < function_ids(a).len());
            assert(function_ids(a)[c] == function_ids(mid)[c]);
            assert forall|j: int| 0 <= j < c implies !named_local(
                a,
                #[trigger] function_ids(a)[j],
                x.name@,
            ) by {
                assert(function_ids(mid)[j] == function_ids(a)[j]);
                assert(function_table(a).contains_key(function_ids(a)[j]));
                assert(!named_local(mid, function_ids(mid)[j], x.name@));
            }
            assert(first_named_at(a, x.name@, c));
            let d = choose|d: int| first_named_at(a, x.name@, d);
            assert(d == c);
            assert(find_local(a, tracees[last].name@) == Some(t));
        }
    }
}

/// A function of the module that no tracee names in it is not replaced.
pub proof fn unnamed_is_not_replaced(
    a: Module,
    tracees: Seq<Tracee>,
    b: Module,
    map: Map<FunctionId, FunctionId>,
    t: FunctionId,
)
    requires
        instrumented(a, tracees, b, map),
        ids_listed(a),
        function_table(a).contains_key(t),
        forall|i: int|
            0 <= i < tracees.len() ==> find_local(a, (#[trigger] tracees[i]).name@) != Some(t),
    ensures
        !map.contains_key(t),
{
    let mid = choose|mid: Module| #[trigger]
        hooked_all(a, Map::empty(), tracees, mid, map) && redirected_where(
            mid,
            uses_of_replaced(a, map),
            map,
            b,
        );
    if map.contains_key(t) {
        replaced_are_matched(a, Map::empty(), tracees, mid, map, t);
    }
}

/// A slot of an element segment that did not hold a replaced function holds
/// after instrumentation what it held.
pub proof fn other_slots_are_kept(
    a: Module,
    tracees: Seq<Tracee>,
    b: Module,
    map: Map<FunctionId, FunctionId>,
    e: ElementId,
    index: usize,
)
    requires
        instrumented(a, tracees, b, map),
        element_table(a).contains_key(e),
        element_table(a)[e] is Functions,
        index < element_table(a)[e]->Functions_0.len(),
        !map.contains_key(element_table(a)[e]->Functions_0[index as int]),
    ensures
        element_table(b).contains_key(e),
        element_table(b)[e] is Functions,
        element_table(b)[e]->Functions_0.len() == element_table(a)[e]->Functions_0.len(),
        element_table(b)[e]->Functions_0[index as int] == element_table(a)[e]->Functions_0[index as int],
{
    let mid = choose|mid: Module| #[trigger]
        hooked_all(a, Map::empty(), tracees, mid, map) && redirected_where(
            mid,
            uses_of_replaced(a, map),
            map,
            b,
        );
    hooked_all_keeps(a, Map::empty(), tracees, mid, map);
    assert(element_table(mid).contains_key(e));
    assert(element_table(b)[e] == redirected_segment(
        uses_of_replaced(a, map),
        map,
        e,
        element_table(mid)[e],
    ));
}

/// Asking for a tracee that names no local function when its turn comes
/// changes nothing of what instrumenting for the other tracees comes to.
pub proof fn absent_changes_nothing(
    a: Module,
    earlier: Seq<Tracee>,
    x: Tracee,
    later: Seq<Tracee>,
    b: Module,
    map: Map<FunctionId, FunctionId>,
)
    requires
        absent_after(a, Map::empty(), earlier, x),
    ensures
        instrumented(a, earlier.push(x) + later, b, map) <==> instrumented(
            a,
            earlier + later,
            b,
            map,
        ),
{
    let sel = uses_of_replaced(a, map);
    if instrumented(a, earlier.push(x) + later, b, map) {
        let mid = choose|mid: Module| #[trigger]
            hooked_all(a, Map::empty(), earlier.push(x) + later, mid, map) && redirected_where(
                mid,
                sel,
                map,
                b,
            );
        absent_is_skipped(a, Map::empty(), earlier, x, later, mid, map);
        assert(hooked_all(a, Map::empty(), earlier + later, mid, map));
    }
    if instrumented(a, earlier + later, b, map) {
        let mid = choose|mid: Module| #[trigger]
            hooked_all(a, Map::empty(), earlier + later, mid, map) && redirected_where(
                mid,
                sel,
                map,
                b,
            );
        absent_is_skipped(a, Map::empty(), earlier, x, later, mid, map);
        assert(hooked_all(a, Map::empty(), earlier.push(x) + later, mid, map));
    }
}

/// What a call of the wrapper `h` with `args` comes to in `host`.
pub open spec fn wrapper_run(m: Module, host: Host, h: Hook, args: Seq<Value>) -> Run {
    exec(
        host,
        function_table(m)[h.wrapper].signature.results.len(),
        code_of(function_table(m)[h.wrapper]),
        Run::Going(entry(h.args, args)),
    )
}

/// The calls that a run made.
pub open spec fn calls_of(run: Run) -> Seq<CallEvent> {
    match run {
        Run::Going(frame) => frame.calls,
        Run::Returned { results, calls } => calls,
        Run::Trapped { calls } => calls,
        Run::Stuck => Seq::empty(),
    }
}

/// What the laws of a running wrapper ask of the host: it holds the functions
/// of the module, and each of the wrapped function and the hooks returns as
/// many values as its signature says, where it returns.
pub open spec fn hosts(host: Host, m: Module, tracee: FunctionId, h: Hook) -> bool {
    &&& host.functions == function_table(m)
    &&& conforms(host, tracee)
    &&& h.pre matches Some(hook) ==> conforms(host, hook)
    &&& h.post matches Some(hook) ==> conforms(host, hook)
}

/// A call of a wrapper comes to `wrapped_outcome`.
pub proof fn wrapper_outcome(
    m: Module,
    host: Host,
    tracee: FunctionId,
    h: Hook,
    args: Seq<Value>,
)
    requires
        wrapper_in(m, tracee, h),
        hosts(host, m, tracee, h),
        args.len() == h.args.len(),
    ensures
        wrapper_run(m, host, h, args) == wrapped_outcome(host, tracee, h.pre, h.post, args),
{
    assert(wrapper_fits(host, tracee, h.args, h.saved, h.pre, h.post)) by {
        match h.pre {
            Some(hook) => {
                assert(observes(host, hook, h.args.len()));
            },
            None => {},
        }
        match h.post {
            Some(hook) => {
                assert(observes(host, hook, h.args.len() + h.saved.len()));
            },
            None => {},
        }
    }
    wrapper_runs(host, tracee, h.args, h.saved, h.pre, h.post, args);
}

/// Where the hooks return, a call of the wrapper returns what the call of the
/// wrapped function with the same arguments returns, value for value, and
/// traps where that traps.
pub proof fn wrapper_preserves_outcome(
    m: Module,
    host: Host,
    tracee: FunctionId,
    h: Hook,
    args: Seq<Value>,
)
    requires
        wrapper_in(m, tracee, h),
        hosts(host, m, tracee, h),
        args.len() == h.args.len(),
        !hook_traps(host, h.pre, args),
        (host.respond)(tracee, args) matches Some(results) ==> !hook_traps(
            host,
            h.post,
            args + results,
        ),
    ensures
        match (host.respond)(tracee, args) {
            Some(results) => wrapper_run(m, host, h, args) is Returned && wrapper_run(
                m,
                host,
                h,
                args,
            )->results == results,
            None => wrapper_run(m, host, h, args) is Trapped,
        },
{
    wrapper_outcome(m, host, tracee, h, args);
}

/// The pre-hook of a wrapper is called once in a call of the wrapper: first,
/// with the arguments of the call in declared order, and before the wrapped
/// function, which is called next where the hook returns.
pub proof fn pre_hook_sees_arguments(
    m: Module,
    host: Host,
    tracee: FunctionId,
    h: Hook,
    args: Seq<Value>,
    hook: FunctionId,
)
    requires
        wrapper_in(m, tracee, h),
        hosts(host, m, tracee, h),
        args.len() == h.args.len(),
        h.pre == Some(hook),
    ensures
        calls_of(wrapper_run(m, host, h, args)).len() >= 1,
        calls_of(wrapper_run(m, host, h, args))[0] == (CallEvent { callee: hook, args }),
        forall|i: int|
            0 <= i < calls_of(wrapper_run(m, host, h, args)).len() && (#[trigger] calls_of(
                wrapper_run(m, host, h, args),
            )[i]).callee == hook ==> i == 0,
        forall|i: int|
            0 <= i < calls_of(wrapper_run(m, host, h, args)).len() && (#[trigger] calls_of(
                wrapper_run(m, host, h, args),
            )[i]).callee == tracee ==> i == 1,
        !hook_traps(host, h.pre, args) ==> calls_of(wrapper_run(m, host, h, args)).len() >= 2
            && calls_of(wrapper_run(m, host, h, args))[1] == (CallEvent { callee: tracee, args }),
{
    wrapper_outcome(m, host, tracee, h, args);
}

/// Where the pre-hook and the wrapped function return, the post-hook of a
/// wrapper is called once in the call of the wrapper: last, after the wrapped
/// function, with the arguments of the call and then the results, each in
/// declared order.
pub proof fn post_hook_sees_results(
    m: Module,
    host: Host,
    tracee: FunctionId,
    h: Hook,
    args: Seq<Value>,
    hook: FunctionId,
    results: Seq<Value>,
)
    requires
        wrapper_in(m, tracee, h),
        hosts(host, m, tracee, h),
        args.len() == h.args.len(),
        h.post == Some(hook),
        !hook_traps(host, h.pre, args),
        (host.respond)(tracee, args) == Some(results),
    ensures
        calls_of(wrapper_run(m, host, h, args)).len() >= 2,
        calls_of(wrapper_run(m, host, h, args)).last() == (CallEvent {
            callee: hook,
            args: args + results,
        }),
        calls_of(wrapper_run(m, host, h, args))[calls_of(wrapper_run(m, host, h, args)).len() - 2]
            == (CallEvent { callee: tracee, args }),
        forall|i: int|
            0 <= i < calls_of(wrapper_run(m, host, h, args)).len() && (#[trigger] calls_of(
                wrapper_run(m, host, h, args),
            )[i]).callee == hook ==> i == calls_of(wrapper_run(m, host, h, args)).len() - 1,
{
    wrapper_outcome(m, host, tracee, h, args);
}

/// Where the wrapped function traps, the call of the wrapper traps at that
/// call, and the post-hook is not called.
pub proof fn trap_passes_through(
    m: Module,
    host: Host,
    tracee: FunctionId,
    h: Hook,
    args: Seq<Value>,
)
    requires
        wrapper_in(m, tracee, h),
        hosts(host, m, tracee, h),
        args.len() == h.args.len(),
        !hook_traps(host, h.pre, args),
        (host.respond)(tracee, args) is None,
    ensures
        wrapper_run(m, host, h, args) is Trapped,
        calls_of(wrapper_run(m, host, h, args)).len() >= 1,
        calls_of(wrapper_run(m, host, h, args)).last() == (CallEvent { callee: tracee, args }),
        forall|i: int|
            0 <= i < calls_of(wrapper_run(m, host, h, args)).len() ==> Some(
                (#[trigger] calls_of(wrapper_run(m, host, h, args))[i]).callee,
            ) != h.post,
{
    wrapper_outcome(m, host, tracee, h, args);
}

} // verus!
