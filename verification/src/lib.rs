//! Interposes observation hooks around chosen functions of a WebAssembly
//! module.
//!
//! A module is parsed, the sites that refer to each function are recorded,
//! a wrapper is installed around every function that a tracee names, and the
//! recorded sites are redirected to the wrappers. The wrapper of a function
//! calls the hooks `wmprof.prehook_<name>` and `wmprof.posthook_<name>`, which
//! the host supplies, around the function itself.

pub mod call_graph;
pub mod error;
pub mod hook;
pub mod laws;
pub mod replace;
pub mod semantics;
pub mod tracee;
pub mod wasm;

pub use crate::call_graph::{CallGraph, FunctionUse};
pub use crate::error::InstrumentError;
pub use crate::replace::ReplaceMap;
pub use crate::tracee::{allocator_tracees, HookPoint, Tracee};

use crate::call_graph::{is_use, use_is_kept, used_is_function, uses_in};
use crate::hook::{
    hook_extends, hook_function, hook_functions, hook_installed, hook_keeps_references, hooked,
    Hook,
};
use crate::replace::{
    no_chains, recorded, records_uses_of, redirect_keeps_references, redirected,
    redirected_where, replace_funcs, same_selection,
};
use crate::wasm::{
    accepts, decodes, emit_module, encodes, error_message, extends, function_ids, ids_listed,
    function_table, functions, has_expression_segment, lists_expressions, lists_function,
    module_header, others_resolve, parse_module, references_resolve, types_sound,
};
use vstd::prelude::*;
use walrus::{FunctionId, Module};

verus! {

/// A place in a source file, by its line.
pub struct LocationInfo {
    pub line: u64,
}

/// A record for one function. It has no fields yet.
pub struct FunctionInfo {}

/// Whether `f` is a local function of `m` that the name section calls `name`.
pub open spec fn named_local(m: Module, f: FunctionId, name: Seq<char>) -> bool {
    &&& function_table(m).contains_key(f)
    &&& function_table(m)[f].name == Some(name)
    &&& function_table(m)[f].body is Local
}

/// Whether the function at position `i` of the table is the first local
/// function called `name`.
pub open spec fn first_named_at(m: Module, name: Seq<char>, i: int) -> bool {
    &&& 0 <= i < function_ids(m).len()
    &&& named_local(m, function_ids(m)[i], name)
    &&& forall|j: int| 0 <= j < i ==> !named_local(m, #[trigger] function_ids(m)[j], name)
}

/// The first local function of `m` that the name section calls `name`, in
/// table order. Names are compared as they are, character by character.
pub open spec fn find_local(m: Module, name: Seq<char>) -> Option<FunctionId> {
    if exists|i: int| first_named_at(m, name, i) {
        Some(function_ids(m)[choose|i: int| first_named_at(m, name, i)])
    } else {
        None
    }
}

/// Whether `map` replaces every function that a tracee names in `m`: for
/// each tracee, the first local function of `m` with its name.
pub open spec fn matched_are_replaced(
    m: Module,
    tracees: Seq<Tracee>,
    map: Map<FunctionId, FunctionId>,
) -> bool {
    forall|i: int|
        0 <= i < tracees.len() ==> (find_local(m, (#[trigger] tracees[i]).name@) matches Some(t)
            ==> map.contains_key(t))
}

/// A function that a name finds in a module is found by that name in every
/// module that holds the functions of the first as they are, in the same
/// order, before any other.
pub proof fn first_local_is_kept(
    a: Module,
    b: Module,
    added: Seq<FunctionId>,
    name: Seq<char>,
    t: FunctionId,
)
    requires
        ids_listed(a),
        extends(a, b),
        function_ids(b) == function_ids(a) + added,
        find_local(a, name) == Some(t),
    ensures
        find_local(b, name) == Some(t),
{
    let k = choose|k: int| first_named_at(a, name, k);
    assert(function_ids(b)[k] == function_ids(a)[k]);
    assert(function_table(a).contains_key(function_ids(a)[k]));
    assert forall|j: int| 0 <= j < k implies !named_local(
        b,
        #[trigger] function_ids(b)[j],
        name,
    ) by {
        assert(function_ids(b)[j] == function_ids(a)[j]);
        assert(function_table(a).contains_key(function_ids(a)[j]));
        assert(!named_local(a, function_ids(a)[j], name));
    }
    assert(first_named_at(b, name, k));
    let c = choose|c: int| first_named_at(b, name, c);
    assert(c == k);
}

/// The first local function of a module with the given name.
pub fn find_function(m: &Module, name: &String) -> (r: Option<FunctionId>)
    ensures
        r == find_local(*m, name@),
        r matches Some(f) ==> named_local(*m, f, name@),
{
    let fs = functions(m);
    let mut i: usize = 0;
    while i < fs.len()
        invariant
            i <= fs.len(),
            fs@.len() == function_ids(*m).len(),
            forall|f: FunctionId| #[trigger]
                function_table(*m).contains_key(f) <==> lists_function(fs@, f),
            forall|k: int|
                0 <= k < fs@.len() ==> (#[trigger] fs@[k]).id == function_ids(*m)[k]
                    && fs@[k].describes(function_table(*m)[fs@[k].id]),
            forall|j: int| 0 <= j < i ==> !named_local(*m, #[trigger] function_ids(*m)[j], name@),
        decreases fs.len() - i,
    {
        let found = fs[i].local && match &fs[i].name {
            Some(n) => *n == *name,
            None => false,
        };
        proof {
            assert(lists_function(fs@, fs@[i as int].id));
            assert(fs@[i as int].describes(function_table(*m)[fs@[i as int].id]));
            assert(found == named_local(*m, function_ids(*m)[i as int], name@));
        }
        if found {
            proof {
                assert(first_named_at(*m, name@, i as int));
                let c = choose|c: int| first_named_at(*m, name@, c);
                assert(c == i);
            }
            return Some(fs[i].id);
        }
        i = i + 1;
    }
    proof {
        assert forall|c: int| !first_named_at(*m, name@, c) by {
            if first_named_at(*m, name@, c) {
                assert(!named_local(*m, function_ids(*m)[c], name@));
            }
        }
    }
    None
}

/// One tracee handled: where it names a local function of `a`, `b` is `a`
/// with a wrapper installed around it and `after` is `before` with the
/// function mapped to the wrapper; where it names none, nothing changes.
pub open spec fn tracee_hooked(
    a: Module,
    before: Map<FunctionId, FunctionId>,
    tracee: Tracee,
    b: Module,
    after: Map<FunctionId, FunctionId>,
) -> bool {
    match find_local(a, tracee.name@) {
        Some(t) => after.contains_key(t) && after == before.insert(t, after[t]) && hooked(
            a,
            t,
            tracee.name@,
            tracee.wants(HookPoint::Pre),
            tracee.wants(HookPoint::Post),
            b,
            after[t],
        ),
        None => b == a && after == before,
    }
}

/// The tracees handled one after the other, from the module `a` and the map
/// `from` to the module `b` and the map `to`.
pub open spec fn hooked_all(
    a: Module,
    from: Map<FunctionId, FunctionId>,
    tracees: Seq<Tracee>,
    b: Module,
    to: Map<FunctionId, FunctionId>,
) -> bool
    decreases tracees.len(),
{
    if tracees.len() == 0 {
        b == a && to == from
    } else {
        exists|mid: Module, prev: Map<FunctionId, FunctionId>|
            hooked_all(a, from, tracees.drop_last(), mid, prev) && #[trigger] tracee_hooked(
                mid,
                prev,
                tracees.last(),
                b,
                to,
            )
    }
}

/// Handling one more tracee extends a run of `hooked_all`.
pub proof fn then_hooked(
    a: Module,
    from: Map<FunctionId, FunctionId>,
    tracees: Seq<Tracee>,
    mid: Module,
    prev: Map<FunctionId, FunctionId>,
    b: Module,
    to: Map<FunctionId, FunctionId>,
)
    requires
        tracees.len() > 0,
        hooked_all(a, from, tracees.drop_last(), mid, prev),
        tracee_hooked(mid, prev, tracees.last(), b, to),
    ensures
        hooked_all(a, from, tracees, b, to),
{
}

/// The sites of `a` that refer to a function that `map` replaces.
pub open spec fn uses_of_replaced(a: Module, map: Map<FunctionId, FunctionId>) -> spec_fn(
    FunctionUse,
    FunctionId,
) -> bool {
    |s: FunctionUse, t: FunctionId| map.contains_key(t) && is_use(a, t, s)
}

/// `b` is `a` instrumented for `tracees`: a wrapper is installed for each
/// tracee that names a local function, in the order of the list, which gives
/// `map`; then every site of `a` that referred to a function that `map`
/// replaces refers to its replacement. The wrappers, which are not sites of
/// `a`, keep calling the functions they wrap.
pub open spec fn instrumented(
    a: Module,
    tracees: Seq<Tracee>,
    b: Module,
    map: Map<FunctionId, FunctionId>,
) -> bool {
    exists|mid: Module| #[trigger]
        hooked_all(a, Map::empty(), tracees, mid, map) && redirected_where(
            mid,
            uses_of_replaced(a, map),
            map,
            b,
        )
}

/// Whether no tracee of the list names a local function of `m`.
pub open spec fn none_matches(m: Module, tracees: Seq<Tracee>) -> bool {
    forall|i: int| 0 <= i < tracees.len() ==> find_local(m, (#[trigger] tracees[i]).name@) is None
}

/// Instruments a parsed module in place and returns which function was
/// replaced by which wrapper. Fails, and leaves the module as it is, where
/// an element segment holds constant expressions.
#[verifier::loop_isolation(false)]
pub fn instrument_module(m: &mut Module, tracees: &[Tracee]) -> (r: Result<
    ReplaceMap,
    InstrumentError,
>)
    requires
        references_resolve(*old(m)),
        types_sound(*old(m)),
    ensures
        match r {
            Ok(map) => map.well_formed() && !has_expression_segment(*old(m)) && instrumented(
                *old(m),
                tracees@,
                *final(m),
                map@,
            ) && matched_are_replaced(*old(m), tracees@, map@),
            Err(e) => e == InstrumentError::UnsupportedElementForm && has_expression_segment(
                *old(m),
            ) && *final(m) == *old(m),
        },
        none_matches(*old(m), tracees@) ==> *final(m) == *old(m),
        references_resolve(*final(m)),
        types_sound(*final(m)),
        others_resolve(*old(m)) ==> others_resolve(*final(m)),
{
    let ghost start = *m;
    let call_graph = match CallGraph::build_from(m) {
        Ok(graph) => graph,
        Err(e) => {
            return Err(e);
        },
    };
    let mut replace_map = ReplaceMap::new();
    let mut i: usize = 0;
    let ghost mut added = Seq::<FunctionId>::empty();
    proof {
        assert(tracees@.take(0) =~= Seq::<Tracee>::empty());
        assert(function_ids(start) + added =~= function_ids(start));
    }
    while i < tracees.len()
        invariant
            i <= tracees@.len(),
            replace_map.well_formed(),
            hooked_all(start, Map::empty(), tracees@.take(i as int), *m, replace_map@),
            references_resolve(*m),
            types_sound(*m),
            others_resolve(start) ==> others_resolve(*m),
            extends(start, *m),
            forall|f: FunctionId| #[trigger]
                replace_map@.contains_key(f) ==> !function_table(start).contains_key(
                    replace_map@[f],
                ) && function_table(*m).contains_key(replace_map@[f]),
            none_matches(start, tracees@.take(i as int)) ==> *m == start && replace_map@.dom()
                =~= Set::<FunctionId>::empty(),
            function_ids(*m) == function_ids(start) + added,
            matched_are_replaced(start, tracees@.take(i as int), replace_map@),
        decreases tracees@.len() - i,
    {
        let ghost mid = *m;
        let ghost prev = replace_map@;
        let tracee = &tracees[i];
        let ghost found_before = find_local(start, tracee.name@);
        let found = find_function(m, &tracee.name);
        proof {
            if found_before is Some {
                first_local_is_kept(start, mid, added, tracee.name@, found_before->Some_0);
            }
        }
        match found {
            Some(func) => {
                match hook_function(m, func, tracee.name.as_str(), &tracee.hook_points) {
                    Ok(wrapper) => {
                        replace_map.insert(func, wrapper);
                        proof {
                            let new = hooked_step(
                                mid,
                                func,
                                tracee.name@,
                                tracee.wants(HookPoint::Pre),
                                tracee.wants(HookPoint::Post),
                                *m,
                                wrapper,
                            );
                            assert(replace_map@ =~= prev.insert(func, replace_map@[func]));
                            assert(function_ids(*m) =~= function_ids(start) + (added + new));
                            added = added + new;
                        }
                    },
                    Err(e) => {
                        assert(false);
                        return Err(e);
                    },
                }
            },
            None => {},
        }
        proof {
            let next = tracees@.take(i as int + 1);
            assert(next.drop_last() =~= tracees@.take(i as int));
            assert(next.last() == tracees@[i as int]);
            assert(tracee_hooked(mid, prev, tracees@[i as int], *m, replace_map@));
            assert(hooked_all(start, Map::empty(), next.drop_last(), mid, prev));
            then_hooked(start, Map::empty(), next, mid, prev, *m, replace_map@);
            assert forall|k: int| 0 <= k < next.len() implies (find_local(
                start,
                (#[trigger] next[k]).name@,
            ) matches Some(t) ==> replace_map@.contains_key(t)) by {
                if k < i {
                    assert(next[k] == tracees@.take(i as int)[k]);
                    if find_local(start, next[k].name@) is Some {
                        assert(prev.contains_key(find_local(start, next[k].name@)->Some_0));
                    }
                }
            }
            if none_matches(start, next) {
                assert(next[i as int] == tracees@[i as int]);
                assert forall|k: int| 0 <= k < i implies find_local(
                    start,
                    (#[trigger] tracees@.take(i as int)[k]).name@,
                ) is None by {
                    assert(next[k] == tracees@.take(i as int)[k]);
                }
            }
        }
        i = i + 1;
    }
    proof {
        assert(tracees@.take(i as int) =~= tracees@);
        graph_fits(start, *m, call_graph, replace_map@);
    }
    let ghost hooked_module = *m;
    replace_funcs(&replace_map, m, &call_graph);
    proof {
        graph_redirects(start, hooked_module, call_graph, replace_map@, *m);
    }
    Ok(replace_map)
}

/// What installing one wrapper comes to for the module as a whole: what it
/// held is as it was, the wrapper is new, the new functions stand behind the
/// others, and every reference still resolves.
pub proof fn hooked_step(
    mid: Module,
    func: FunctionId,
    name: Seq<char>,
    pre: bool,
    post: bool,
    b: Module,
    wrapper: FunctionId,
) -> (new: Seq<FunctionId>)
    requires
        hooked(mid, func, name, pre, post, b, wrapper),
        references_resolve(mid),
    ensures
        extends(mid, b),
        references_resolve(b),
        !function_table(mid).contains_key(wrapper),
        function_table(b).contains_key(wrapper),
        function_ids(b) == function_ids(mid) + new,
{
    let h = choose|h: Hook|
        h.wrapper == wrapper && #[trigger] hook_installed(mid, func, name, pre, post, h, b);
    hook_extends(mid, func, name, pre, post, h, b);
    hook_keeps_references(mid, func, name, pre, post, h, b);
    hook_functions(h)
}

/// The graph of a module fits every module that holds what the first held as
/// it was: what it records for a replaced function is a site of the second,
/// and it records nothing for a replacement that the first lacked.
pub proof fn graph_fits(
    start: Module,
    m: Module,
    call_graph: CallGraph,
    map: Map<FunctionId, FunctionId>,
)
    requires
        call_graph.describes(start),
        references_resolve(start),
        extends(start, m),
        forall|f: FunctionId| #[trigger]
            map.contains_key(f) ==> !function_table(start).contains_key(map[f]),
    ensures
        records_uses_of(call_graph, map, m),
        no_chains(call_graph, map),
{
    assert forall|f: FunctionId, u: FunctionUse|
        map.contains_key(f) && #[trigger] call_graph.uses(f).contains(u) implies is_use(
        m,
        f,
        u,
    ) by {
        assert(call_graph.uses(f) == uses_in(start, f));
        assert(is_use(start, f, u));
        use_is_kept(start, m, f, u);
    }
    assert forall|f: FunctionId, s: FunctionUse|
        map.contains_key(f) && map.contains_key(map[f]) implies !#[trigger] call_graph.uses(
        map[f],
    ).contains(s) by {
        assert(call_graph.uses(map[f]) == uses_in(start, map[f]));
        if is_use(start, map[f], s) {
            used_is_function(start, map[f], s);
        }
    }
}

/// Redirecting what the graph of `start` records redirects the sites of
/// `start`, and keeps every reference resolved.
pub proof fn graph_redirects(
    start: Module,
    hooked_module: Module,
    call_graph: CallGraph,
    map: Map<FunctionId, FunctionId>,
    m: Module,
)
    requires
        call_graph.describes(start),
        redirected(hooked_module, call_graph, map, m),
        references_resolve(hooked_module),
        forall|f: FunctionId| #[trigger]
            map.contains_key(f) ==> function_table(hooked_module).contains_key(map[f]),
    ensures
        redirected_where(hooked_module, uses_of_replaced(start, map), map, m),
        references_resolve(m),
{
    let sel = recorded(call_graph, map);
    let all = uses_of_replaced(start, map);
    assert forall|s: FunctionUse, t: FunctionId| #[trigger] all(s, t) == sel(s, t) by {
        assert(call_graph.uses(t) == uses_in(start, t));
    }
    same_selection(hooked_module, sel, all, map, m);
    redirect_keeps_references(hooked_module, sel, map, m);
}

/// Decodes a module, keeping its name section. Fails on exactly the inputs
/// that are no valid module; else gives a module that the decoder gives for
/// the input, in which every reference resolves and the types are soundly
/// registered.
pub fn parse(input: &[u8]) -> (r: Result<Module, InstrumentError>)
    ensures
        r is Ok <==> accepts(input@),
        r matches Ok(m) ==> decodes(input@, m) && (has_expression_segment(m) <==> lists_expressions(
            input@,
        )),
        r matches Ok(m) ==> references_resolve(m) && others_resolve(m) && types_sound(m),
        r matches Err(e) ==> e is ParseError,
{
    match parse_module(input, true) {
        Ok(m) => Ok(m),
        Err(e) => Err(InstrumentError::ParseError(error_message(&e))),
    }
}

/// Encodes a module, with its name section: the bytes are an encoding that
/// the encoder gives for the module as it is handed in. They begin with the
/// header of a binary module, which is the magic number and the version.
pub fn emit(m: &mut Module) -> (bytes: Vec<u8>)
    requires
        references_resolve(*old(m)),
        others_resolve(*old(m)),
    ensures
        encodes(*old(m), bytes@),
        module_header().is_prefix_of(bytes@),
{
    emit_module(m)
}

/// Instruments a module: parses `input`, installs the wrappers for
/// `tracees`, redirects the uses of the wrapped functions and encodes the
/// module again. Succeeds on exactly the inputs that are a valid module
/// without an element segment of constant expressions; the bytes are then an
/// encoding of a module that is the decoded input instrumented for `tracees`.
/// Fails with `ParseError` on exactly the inputs that are no valid module, and
/// with `UnsupportedElementForm` on the others.
pub fn instrument(input: Vec<u8>, tracees: &[Tracee]) -> (r: Result<Vec<u8>, InstrumentError>)
    ensures
        r is Ok <==> accepts(input@) && !lists_expressions(input@),
        !accepts(input@) <==> r matches Err(InstrumentError::ParseError(_)),
        accepts(input@) && lists_expressions(input@) <==> r matches Err(
            InstrumentError::UnsupportedElementForm,
        ),
        r matches Ok(bytes) ==> module_header().is_prefix_of(bytes@) && exists|
            a: Module,
            b: Module,
            map: Map<FunctionId, FunctionId>,
        |
            decodes(input@, a) && references_resolve(a) && types_sound(a) && #[trigger] instrumented(
                a,
                tracees@,
                b,
                map,
            ) && matched_are_replaced(a, tracees@, map) && encodes(b, bytes@),
{
    let mut m = match parse(input.as_slice()) {
        Ok(m) => m,
        Err(e) => {
            return Err(e);
        },
    };
    let ghost decoded = m;
    let map = match instrument_module(&mut m, tracees) {
        Ok(map) => map,
        Err(e) => {
            return Err(e);
        },
    };
    let ghost replaced = map@;
    let ghost instrumented_module = m;
    let bytes = emit(&mut m);
    proof {
        assert(instrumented(decoded, tracees@, instrumented_module, replaced));
    }
    Ok(bytes)
}

} // verus!
