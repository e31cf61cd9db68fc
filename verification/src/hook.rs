//! Synthesizing the wrapper of a function.
//!
//! The wrapper has the signature of the function it wraps. It hands its
//! arguments to the pre-hook, calls the function, hands arguments and results
//! to the post-hook, and returns the results.

use crate::error::InstrumentError;
use crate::tracee::{has_hook_point, HookPoint};
use crate::wasm::{
    add_import_function, add_local, add_type, builder_function, builder_type, code_of,
    finish_builder, function_ids, function_table, function_types, has_body, interned,
    interning_is_sound, is_local, plain_types, reused_or_new, types_sound,
    local_table, name_builder, new_builder, op_resolves, others_resolve, push_call,
    push_local_get,
    push_local_set, push_return, references_resolve, same_elements, same_exports, same_rest,
    same_functions, signature, type_table, typed, types_kept, with_code, FunctionBody,
    FunctionView, Op, Signature,
};
use vstd::prelude::*;
use vstd::string::StringExecFns;
use walrus::{FunctionBuilder, FunctionId, LocalId, Module, TypeId, ValType};

verus! {

/// `local.get` of each local, in order.
pub open spec fn load(locals: Seq<LocalId>) -> Seq<Op> {
    Seq::new(locals.len(), |i: int| Op::LocalGet(locals[i]))
}

/// `local.set` of each local, in order.
pub open spec fn store(locals: Seq<LocalId>) -> Seq<Op> {
    Seq::new(locals.len(), |i: int| Op::LocalSet(locals[i]))
}

/// The call of the pre-hook with the arguments; nothing without a pre-hook.
pub open spec fn pre_code(args: Seq<LocalId>, pre: Option<FunctionId>) -> Seq<Op> {
    match pre {
        Some(hook) => load(args).push(Op::Call(hook)),
        None => Seq::empty(),
    }
}

/// What follows the call of the wrapped function where a post-hook is
/// installed. The results are popped into `saved`, the last result first, so
/// `saved` read backwards holds them in declared order. They are pushed after
/// the arguments for the hook, and once more to be returned.
pub open spec fn post_code(
    args: Seq<LocalId>,
    saved: Seq<LocalId>,
    post: Option<FunctionId>,
) -> Seq<Op> {
    match post {
        Some(hook) => store(saved) + load(args) + load(saved.reverse()).push(Op::Call(hook)) + load(
            saved.reverse(),
        ),
        None => Seq::empty(),
    }
}

/// The body of the wrapper of `tracee`.
pub open spec fn wrapper_code(
    tracee: FunctionId,
    args: Seq<LocalId>,
    saved: Seq<LocalId>,
    pre: Option<FunctionId>,
    post: Option<FunctionId>,
) -> Seq<Op> {
    (pre_code(args, pre) + load(args).push(Op::Call(tracee)) + post_code(args, saved, post)).push(
        Op::Return,
    )
}

/// What installing a wrapper adds to a module.
pub struct Hook {
    /// The wrapper.
    pub wrapper: FunctionId,
    /// The name under which the wrapped function was asked for.
    pub name: Seq<char>,
    /// The locals bound to the wrapper's parameters, in declared order.
    pub args: Seq<LocalId>,
    /// The locals that keep the results for the post-hook, the one for the
    /// last result first; empty without a post-hook.
    pub saved: Seq<LocalId>,
    /// The imported pre-hook, if one is installed.
    pub pre: Option<FunctionId>,
    /// The imported post-hook, if one is installed.
    pub post: Option<FunctionId>,
    /// The type of the wrapper.
    pub wrapper_type: TypeId,
    /// The type of the pre-hook, if one is installed.
    pub pre_type: Option<TypeId>,
    /// The type of the post-hook, if one is installed.
    pub post_type: Option<TypeId>,
}

/// The signature of the pre-hook of a function of signature `sig`.
pub open spec fn pre_signature(sig: Signature) -> Signature {
    Signature { params: sig.params, results: Seq::empty() }
}

/// The signature of the post-hook of a function of signature `sig`.
pub open spec fn post_signature(sig: Signature) -> Signature {
    Signature { params: sig.params + sig.results, results: Seq::empty() }
}

/// The types of `b` are those of `a` with the types of the wrapper and of
/// its hooks interned, in this order: each is the registered type of its
/// signature where the module has one, and is added and registered where
/// it has none. So at most three types are added, and none twice; where the
/// type of the wrapped function is plain, the wrapper's is none of them.
pub open spec fn hook_types_interned(a: Module, sig: Signature, h: Hook, b: Module) -> bool {
    let types1 = type_table(a).insert(h.wrapper_type, sig);
    let known1 = interned(a).insert(sig, h.wrapper_type);
    let types2 = match h.pre_type {
        Some(t) => types1.insert(t, pre_signature(sig)),
        None => types1,
    };
    let known2 = match h.pre_type {
        Some(t) => known1.insert(pre_signature(sig), t),
        None => known1,
    };
    let types3 = match h.post_type {
        Some(t) => types2.insert(t, post_signature(sig)),
        None => types2,
    };
    let known3 = match h.post_type {
        Some(t) => known2.insert(post_signature(sig), t),
        None => known2,
    };
    &&& h.pre_type is Some <==> h.pre is Some
    &&& h.post_type is Some <==> h.post is Some
    &&& reused_or_new(type_table(a), interned(a), sig, h.wrapper_type)
    &&& h.pre_type matches Some(t) ==> reused_or_new(types1, known1, pre_signature(sig), t)
    &&& h.post_type matches Some(t) ==> reused_or_new(types2, known2, post_signature(sig), t)
    &&& type_table(b) == types3
    &&& interned(b) == known3
    &&& forall|t: TypeId|
        #[trigger] plain_types(b).contains(t) <==> plain_types(a).contains(t) || (type_table(
            b,
        ).contains_key(t) && !type_table(a).contains_key(t))
    &&& function_types(b)[h.wrapper] == h.wrapper_type
    &&& h.pre matches Some(f) ==> Some(function_types(b)[f]) == h.pre_type
    &&& h.post matches Some(f) ==> Some(function_types(b)[f]) == h.post_type
}

/// The types of the locals that a hook allocates, in allocation order.
pub open spec fn hook_local_types(sig: Signature, post: bool) -> Seq<ValType> {
    if post {
        sig.params + sig.results.reverse()
    } else {
        sig.params
    }
}

/// `after` is `before` with `locals` added, the i-th with the i-th type.
pub open spec fn locals_added(
    before: Map<LocalId, ValType>,
    after: Map<LocalId, ValType>,
    locals: Seq<LocalId>,
    types: Seq<ValType>,
) -> bool {
    &&& locals.len() == types.len()
    &&& locals.no_duplicates()
    &&& forall|i: int|
        0 <= i < locals.len() ==> !before.contains_key(#[trigger] locals[i]) && after.contains_key(
            locals[i],
        ) && after[locals[i]] == types[i]
    &&& forall|l: LocalId| #[trigger]
        before.contains_key(l) ==> after.contains_key(l) && after[l] == before[l]
    &&& forall|l: LocalId| #[trigger]
        after.contains_key(l) ==> before.contains_key(l) || locals.contains(l)
}

/// The function table after the hooks of a wrapper were imported.
pub open spec fn with_hook_imports(
    table: Map<FunctionId, FunctionView>,
    name: Seq<char>,
    sig: Signature,
    h: Hook,
) -> Map<FunctionId, FunctionView> {
    let with_pre = match h.pre {
        Some(hook) => table.insert(
            hook,
            FunctionView {
                name: None,
                signature: Signature { params: sig.params, results: Seq::empty() },
                body: FunctionBody::Import { module: "wmprof"@, field: "prehook_"@ + name },
            },
        ),
        None => table,
    };
    match h.post {
        Some(hook) => with_pre.insert(
            hook,
            FunctionView {
                name: None,
                signature: Signature { params: sig.params + sig.results, results: Seq::empty() },
                body: FunctionBody::Import { module: "wmprof"@, field: "posthook_"@ + name },
            },
        ),
        None => with_pre,
    }
}

/// The functions that a hook adds, in the order in which they are added.
pub open spec fn hook_functions(h: Hook) -> Seq<FunctionId> {
    (match h.pre {
        Some(hook) => seq![hook],
        None => Seq::empty(),
    }) + (match h.post {
        Some(hook) => seq![hook],
        None => Seq::empty(),
    }).push(h.wrapper)
}

/// The wrapper that `h` installs around `tracee`.
pub open spec fn wrapper_view(tracee: FunctionId, name: Seq<char>, sig: Signature, h: Hook) -> FunctionView {
    FunctionView {
        name: Some("hooked_"@ + name),
        signature: sig,
        body: FunctionBody::Local {
            args: h.args,
            code: wrapper_code(tracee, h.args, h.saved, h.pre, h.post),
        },
    }
}

/// `b` is `a` with the wrapper `h` installed around the local function
/// `tracee`, under the name `name`: the hooks that were asked for are imported
/// from `wmprof` with the tracee's parameters (and results, for the post-hook)
/// as parameters; the wrapper is a new local function named `hooked_` and the
/// name, with the tracee's signature and the body `wrapper_code`; its locals
/// are new and distinct; the types of the wrapper and of the hooks are
/// interned as `hook_types_interned` says. The functions of `a`, its element
/// segments, exports, tables, memories, globals and data segments are as they
/// were.
pub open spec fn hook_installed(
    a: Module,
    tracee: FunctionId,
    name: Seq<char>,
    pre: bool,
    post: bool,
    h: Hook,
    b: Module,
) -> bool {
    let sig = function_table(a)[tracee].signature;
    &&& is_local(a, tracee)
    &&& h.name == name
    &&& h.pre is Some <==> pre
    &&& h.post is Some <==> post
    &&& h.args.len() == sig.params.len()
    &&& h.saved.len() == if post {
        sig.results.len()
    } else {
        0
    }
    &&& hook_functions(h).no_duplicates()
    &&& forall|i: int|
        0 <= i < hook_functions(h).len() ==> !function_table(a).contains_key(
            #[trigger] hook_functions(h)[i],
        )
    &&& function_ids(b) == function_ids(a) + hook_functions(h)
    &&& function_table(b) == with_hook_imports(function_table(a), name, sig, h).insert(
        h.wrapper,
        wrapper_view(tracee, name, sig, h),
    )
    &&& forall|f: FunctionId| #[trigger]
        function_table(a).contains_key(f) ==> (function_types(b).contains_key(f)
            <==> function_types(a).contains_key(f)) && function_types(b)[f] == function_types(a)[f]
    &&& forall|i: int|
        0 <= i < hook_functions(h).len() ==> typed(b, #[trigger] hook_functions(h)[i])
    &&& locals_added(local_table(a), local_table(b), h.args + h.saved, hook_local_types(sig, post))
    &&& same_elements(a, b)
    &&& same_exports(a, b)
    &&& same_rest(a, b)
    &&& types_kept(a, b)
    &&& hook_types_interned(a, sig, h, b)
}

/// `b` is `a` with a wrapper `w` installed around `tracee`.
pub open spec fn hooked(
    a: Module,
    tracee: FunctionId,
    name: Seq<char>,
    pre: bool,
    post: bool,
    b: Module,
    w: FunctionId,
) -> bool {
    exists|h: Hook| h.wrapper == w && #[trigger] hook_installed(a, tracee, name, pre, post, h, b)
}

/// `locals` read in the order in which `emit_gets` is asked to push them.
pub open spec fn in_order(locals: Seq<LocalId>, reversed: bool) -> Seq<LocalId> {
    if reversed {
        locals.reverse()
    } else {
        locals
    }
}

proof fn locals_added_twice(
    a: Map<LocalId, ValType>,
    b: Map<LocalId, ValType>,
    c: Map<LocalId, ValType>,
    first: Seq<LocalId>,
    first_types: Seq<ValType>,
    second: Seq<LocalId>,
    second_types: Seq<ValType>,
)
    requires
        locals_added(a, b, first, first_types),
        locals_added(b, c, second, second_types),
    ensures
        locals_added(a, c, first + second, first_types + second_types),
{
    let all = first + second;
    let types = first_types + second_types;
    assert forall|i: int, j: int| 0 <= i < all.len() && 0 <= j < all.len() && i != j implies all[i]
        != all[j] by {
        if i < first.len() && j >= first.len() {
            assert(b.contains_key(first[i]));
            assert(!b.contains_key(second[j - first.len()]));
        }
        if j < first.len() && i >= first.len() {
            assert(b.contains_key(first[j]));
            assert(!b.contains_key(second[i - first.len()]));
        }
    }
    assert forall|i: int| 0 <= i < all.len() implies !a.contains_key(#[trigger] all[i])
        && c.contains_key(all[i]) && c[all[i]] == types[i] by {
        if i < first.len() {
            assert(b.contains_key(first[i]));
        } else {
            let l = second[i - first.len()];
            assert(!b.contains_key(l));
            if a.contains_key(l) {
                assert(b.contains_key(l));
            }
        }
    }
    assert forall|l: LocalId| #[trigger] c.contains_key(l) implies a.contains_key(l)
        || all.contains(l) by {
        if !a.contains_key(l) {
            if b.contains_key(l) {
                let i = choose|i: int| 0 <= i < first.len() && first[i] == l;
                assert(all[i] == l);
            } else {
                let i = choose|i: int| 0 <= i < second.len() && second[i] == l;
                assert(all[i + first.len()] == l);
            }
        }
    }
    assert forall|l: LocalId| #[trigger] a.contains_key(l) implies c.contains_key(l) && c[l]
        == a[l] by {
        assert(b.contains_key(l));
    }
}

/// Allocates one local for each type: in the order of `types`, or, where
/// `reversed`, from the last type to the first.
fn add_locals(m: &mut Module, types: &Vec<ValType>, reversed: bool) -> (locals: Vec<LocalId>)
    ensures
        locals_added(
            local_table(*old(m)),
            local_table(*final(m)),
            locals@,
            if reversed {
                types@.reverse()
            } else {
                types@
            },
        ),
        same_functions(*old(m), *final(m)),
        same_elements(*old(m), *final(m)),
        same_exports(*old(m), *final(m)),
        same_rest(*old(m), *final(m)),
        type_table(*final(m)) == type_table(*old(m)),
        interned(*final(m)) == interned(*old(m)),
        plain_types(*final(m)) == plain_types(*old(m)),
        others_resolve(*old(m)) ==> others_resolve(*final(m)),
{
    let ghost start = *m;
    let ghost ordered = if reversed {
        types@.reverse()
    } else {
        types@
    };
    let mut locals: Vec<LocalId> = Vec::new();
    let mut i: usize = 0;
    while i < types.len()
        invariant
            i <= types.len(),
            locals@.len() == i,
            ordered.len() == types@.len(),
            ordered == if reversed {
                types@.reverse()
            } else {
                types@
            },
            locals_added(local_table(start), local_table(*m), locals@, ordered.take(i as int)),
            same_functions(start, *m),
            same_elements(start, *m),
            same_exports(start, *m),
            same_rest(start, *m),
            others_resolve(start) ==> others_resolve(*m),
            type_table(*m) == type_table(start),
            interned(*m) == interned(start),
            plain_types(*m) == plain_types(start),
        decreases types.len() - i,
    {
        let ty = if reversed {
            types[types.len() - 1 - i]
        } else {
            types[i]
        };
        let ghost before = *m;
        let ghost seen = locals@;
        let local = add_local(m, ty);
        locals.push(local);
        proof {
            assert(ty == ordered[i as int]);
            assert(ordered.take(i as int + 1) =~= ordered.take(i as int).push(ty));
            assert(locals_added(
                local_table(before),
                local_table(*m),
                seq![local],
                seq![ty],
            )) by {
                assert(seq![local].no_duplicates());
                assert forall|l: LocalId| #[trigger]
                    local_table(*m).contains_key(l) implies local_table(before).contains_key(l)
                    || seq![local].contains(l) by {
                    if l == local {
                        assert(seq![local][0] == l);
                    }
                }
            }
            locals_added_twice(
                local_table(start),
                local_table(before),
                local_table(*m),
                seen,
                ordered.take(i as int),
                seq![local],
                seq![ty],
            );
            assert(locals@ =~= seen + seq![local]);
            assert(ordered.take(i as int + 1) =~= ordered.take(i as int) + seq![ty]);
        }
        i = i + 1;
    }
    proof {
        assert(ordered.take(i as int) =~= ordered);
    }
    locals
}

/// Appends a `local.get` of each local to the body: in the order of `locals`,
/// or, where `reversed`, from the last to the first.
fn emit_gets(b: &mut FunctionBuilder, locals: &Vec<LocalId>, reversed: bool)
    requires
        builder_function(*old(b)).body is Local,
    ensures
        builder_function(*final(b)) == with_code(
            builder_function(*old(b)),
            code_of(builder_function(*old(b))) + load(in_order(locals@, reversed)),
        ),
        builder_type(*final(b)) == builder_type(*old(b)),
{
    let ghost start = builder_function(*b);
    let ghost made_with = builder_type(*b);
    let ghost ordered = in_order(locals@, reversed);
    let mut i: usize = 0;
    proof {
        assert(code_of(start) + load(ordered).take(0) =~= code_of(start));
    }
    while i < locals.len()
        invariant
            i <= locals.len(),
            start.body is Local,
            ordered == in_order(locals@, reversed),
            ordered.len() == locals@.len(),
            builder_type(*b) == made_with,
            builder_function(*b) == with_code(start, code_of(start) + load(ordered).take(i as int)),
        decreases locals.len() - i,
    {
        let local = if reversed {
            locals[locals.len() - 1 - i]
        } else {
            locals[i]
        };
        push_local_get(b, local);
        proof {
            assert(local == ordered[i as int]);
            assert((code_of(start) + load(ordered).take(i as int)).push(Op::LocalGet(local))
                =~= code_of(start) + load(ordered).take(i as int + 1));
        }
        i = i + 1;
    }
    proof {
        assert(load(ordered).take(i as int) =~= load(ordered));
    }
}

/// Appends a `local.set` of each local to the body, in order.
fn emit_sets(b: &mut FunctionBuilder, locals: &Vec<LocalId>)
    requires
        builder_function(*old(b)).body is Local,
    ensures
        builder_function(*final(b)) == with_code(
            builder_function(*old(b)),
            code_of(builder_function(*old(b))) + store(locals@),
        ),
        builder_type(*final(b)) == builder_type(*old(b)),
{
    let ghost start = builder_function(*b);
    let ghost made_with = builder_type(*b);
    let mut i: usize = 0;
    proof {
        assert(code_of(start) + store(locals@).take(0) =~= code_of(start));
    }
    while i < locals.len()
        invariant
            i <= locals.len(),
            start.body is Local,
            builder_type(*b) == made_with,
            builder_function(*b) == with_code(
                start,
                code_of(start) + store(locals@).take(i as int),
            ),
        decreases locals.len() - i,
    {
        push_local_set(b, locals[i]);
        proof {
            assert((code_of(start) + store(locals@).take(i as int)).push(Op::LocalSet(locals@[i as int]))
                =~= code_of(start) + store(locals@).take(i as int + 1));
        }
        i = i + 1;
    }
    proof {
        assert(store(locals@).take(i as int) =~= store(locals@));
    }
}

fn concat_types(first: &Vec<ValType>, second: &Vec<ValType>) -> (all: Vec<ValType>)
    ensures
        all@ == first@ + second@,
{
    let mut all: Vec<ValType> = Vec::new();
    let mut i: usize = 0;
    while i < first.len()
        invariant
            i <= first.len(),
            all@ == first@.take(i as int),
        decreases first.len() - i,
    {
        all.push(first[i]);
        proof {
            assert(first@.take(i as int).push(first@[i as int]) =~= first@.take(i as int + 1));
        }
        i = i + 1;
    }
    let mut j: usize = 0;
    proof {
        assert(first@.take(i as int) =~= first@);
        assert(first@ + second@.take(0) =~= first@);
    }
    while j < second.len()
        invariant
            j <= second.len(),
            all@ == first@ + second@.take(j as int),
        decreases second.len() - j,
    {
        all.push(second[j]);
        proof {
            assert((first@ + second@.take(j as int)).push(second@[j as int]) =~= first@
                + second@.take(j as int + 1));
        }
        j = j + 1;
    }
    proof {
        assert(second@.take(j as int) =~= second@);
    }
    all
}

/// Whether the builder holds a local function of this name and signature
/// with this body and no parameters bound yet.
spec fn builder_holds(b: FunctionBuilder, name: Seq<char>, sig: Signature, code: Seq<Op>) -> bool {
    builder_function(b) == (FunctionView {
        name: Some(name),
        signature: sig,
        body: FunctionBody::Local { args: Seq::empty(), code },
    })
}

/// Installs a wrapper around the local function `func_id` and returns it. The
/// wrapper is named `hooked_` and `tracee_name`; the hooks it calls are
/// imported as `wmprof.prehook_` and `wmprof.posthook_` and `tracee_name`.
/// Uses of `func_id` are left as they are. Fails, and leaves the module as it
/// is, where `func_id` is an import. The types of the module must be soundly
/// registered, as those of a decoded module are: interning trusts the
/// registry.
pub fn hook_function(
    m: &mut Module,
    func_id: FunctionId,
    tracee_name: &str,
    hook_points: &Vec<HookPoint>,
) -> (r: Result<FunctionId, InstrumentError>)
    requires
        typed(*old(m), func_id),
        types_sound(*old(m)),
    ensures
        match r {
            Ok(wrapper) => hooked(
                *old(m),
                func_id,
                tracee_name@,
                hook_points@.contains(HookPoint::Pre),
                hook_points@.contains(HookPoint::Post),
                *final(m),
                wrapper,
            ),
            Err(e) => e == InstrumentError::ImportedTraceeNotSupported && !is_local(
                *old(m),
                func_id,
            ) && *final(m) == *old(m),
        },
        others_resolve(*old(m)) ==> others_resolve(*final(m)),
        types_sound(*final(m)),
{
    if !has_body(m, func_id) {
        return Err(InstrumentError::ImportedTraceeNotSupported);
    }
    let ghost start = *m;
    let ghost sig = function_table(start)[func_id].signature;
    let ghost name = "hooked_"@ + tracee_name@;
    let pre = has_hook_point(hook_points, HookPoint::Pre);
    let post = has_hook_point(hook_points, HookPoint::Post);
    let (params, results) = signature(m, func_id);
    let no_results: Vec<ValType> = Vec::new();
    proof {
        assert(sig == Signature { params: params@, results: results@ });
    }

    let mut new_func = new_builder(m, &params, &results);
    let ghost wrapper_type = builder_type(new_func);
    proof {
        interning_is_sound(
            type_table(start),
            interned(start),
            plain_types(start),
            type_table(*m),
            interned(*m),
            plain_types(*m),
            sig,
            wrapper_type,
        );
    }
    let ghost mut pre_type: Option<TypeId> = None;
    let ghost mut post_type: Option<TypeId> = None;
    name_builder(&mut new_func, String::from_str("hooked_").concat(tracee_name));
    let arg_locals = add_locals(m, &params, false);
    let ghost args = arg_locals@;
    let ghost with_args = *m;
    assert(builder_holds(new_func, name, sig, Seq::empty()));

    let mut pre_hook: Option<FunctionId> = None;
    if pre {
        let ty = add_type(m, &params, &no_results);
        proof {
            pre_type = Some(ty);
            interning_is_sound(
                type_table(with_args),
                interned(with_args),
                plain_types(with_args),
                type_table(*m),
                interned(*m),
                plain_types(*m),
                pre_signature(sig),
                ty,
            );
        }
        let field = String::from_str("prehook_").concat(tracee_name);
        let hook = add_import_function(m, "wmprof", field.as_str(), ty);
        emit_gets(&mut new_func, &arg_locals, false);
        push_call(&mut new_func, hook);
        pre_hook = Some(hook);
        proof {
            assert(Seq::<Op>::empty() + load(args) =~= load(args));
        }
    }
    assert(builder_holds(new_func, name, sig, pre_code(args, pre_hook)));

    emit_gets(&mut new_func, &arg_locals, false);
    push_call(&mut new_func, func_id);
    let ghost called = pre_code(args, pre_hook) + load(args).push(Op::Call(func_id));
    proof {
        assert((pre_code(args, pre_hook) + load(args)).push(Op::Call(func_id)) =~= called);
    }
    assert(builder_holds(new_func, name, sig, called));

    let mut post_hook: Option<FunctionId> = None;
    let mut result_locals: Vec<LocalId> = Vec::new();
    if post {
        let all = concat_types(&params, &results);
        let ghost before_post = *m;
        let ty = add_type(m, &all, &no_results);
        proof {
            post_type = Some(ty);
            interning_is_sound(
                type_table(before_post),
                interned(before_post),
                plain_types(before_post),
                type_table(*m),
                interned(*m),
                plain_types(*m),
                post_signature(sig),
                ty,
            );
        }
        let field = String::from_str("posthook_").concat(tracee_name);
        let hook = add_import_function(m, "wmprof", field.as_str(), ty);
        result_locals = add_locals(m, &results, true);
        emit_sets(&mut new_func, &result_locals);
        emit_gets(&mut new_func, &arg_locals, false);
        emit_gets(&mut new_func, &result_locals, true);
        push_call(&mut new_func, hook);
        emit_gets(&mut new_func, &result_locals, true);
        post_hook = Some(hook);
        proof {
            let saved = result_locals@;
            assert((called + store(saved) + load(args) + load(saved.reverse())).push(Op::Call(hook))
                + load(saved.reverse()) =~= called + post_code(args, saved, post_hook));
            locals_added_twice(
                local_table(start),
                local_table(with_args),
                local_table(*m),
                args,
                params@,
                saved,
                results@.reverse(),
            );
        }
    } else {
        proof {
            assert(called + post_code(args, result_locals@, post_hook) =~= called);
            assert(args + result_locals@ =~= args);
        }
    }
    let ghost saved = result_locals@;
    assert(builder_holds(new_func, name, sig, called + post_code(args, saved, post_hook)));

    push_return(&mut new_func);
    let ghost imported = *m;
    proof {
        let code = wrapper_code(func_id, args, saved, pre_hook, post_hook);
        assert(code_of(builder_function(new_func)) == code);
        assert forall|i: int| 0 <= i < code.len() implies !(#[trigger] code[i] is Other) by {
            wrapper_calls(func_id, args, saved, pre_hook, post_hook, i);
        }
    }
    let wrapper = finish_builder(new_func, arg_locals, m);
    proof {
        let h = Hook {
            wrapper,
            name: tracee_name@,
            args,
            saved,
            pre: pre_hook,
            post: post_hook,
            wrapper_type,
            pre_type,
            post_type,
        };
        assert(function_table(imported) == with_hook_imports(
            function_table(start),
            tracee_name@,
            sig,
            h,
        ));
        assert(function_ids(*m) =~= function_ids(start) + hook_functions(h));
        assert(hook_functions(h).no_duplicates());
        assert(hook_types_interned(start, sig, h, *m));
        assert(hook_installed(start, func_id, tracee_name@, pre, post, h, *m));
    }
    Ok(wrapper)
}

/// Installing a wrapper adds a type only where the module had registered no
/// type of the same signature, and adds none but those of the wrapper and of
/// its hooks.
pub proof fn hook_adds_types_sparingly(
    a: Module,
    tracee: FunctionId,
    name: Seq<char>,
    pre: bool,
    post: bool,
    h: Hook,
    b: Module,
    t: TypeId,
)
    requires
        hook_installed(a, tracee, name, pre, post, h, b),
        type_table(b).contains_key(t),
        !type_table(a).contains_key(t),
    ensures
        !interned(a).contains_key(type_table(b)[t]),
        t == h.wrapper_type || Some(t) == h.pre_type || Some(t) == h.post_type,
        interned(b).contains_key(type_table(b)[t]),
        interned(b)[type_table(b)[t]] == t,
{
}

/// Installing a wrapper keeps every reference of the module resolved.
pub proof fn hook_keeps_references(
    a: Module,
    tracee: FunctionId,
    name: Seq<char>,
    pre: bool,
    post: bool,
    h: Hook,
    b: Module,
)
    requires
        hook_installed(a, tracee, name, pre, post, h, b),
        references_resolve(a),
    ensures
        references_resolve(b),
{
    hook_extends(a, tracee, name, pre, post, h, b);
    let added = hook_functions(h);
    let locals = h.args + h.saved;
    assert(added[added.len() - 1] == h.wrapper);
    assert forall|k: int| 0 <= k < function_ids(b).len() implies function_table(b).contains_key(
        #[trigger] function_ids(b)[k],
    ) by {
        if k < function_ids(a).len() {
            assert(function_ids(b)[k] == function_ids(a)[k]);
            assert(function_table(a).contains_key(function_ids(a)[k]));
        } else {
            assert(function_ids(b)[k] == added[k - function_ids(a).len()]);
            assert(typed(b, added[k - function_ids(a).len()]));
        }
    }
    assert forall|f: FunctionId| #[trigger] function_table(b).contains_key(f) implies typed(
        b,
        f,
    ) by {
        if f == h.wrapper {
            assert(typed(b, added[added.len() - 1]));
        } else if h.post == Some(f) {
            assert(typed(b, added[added.len() - 2]));
        } else if h.pre == Some(f) {
            assert(typed(b, added[0]));
        } else {
            assert(function_table(a).contains_key(f));
            assert(typed(a, f));
        }
    }
    assert forall|f: FunctionId, i: int|
        function_table(b).contains_key(f) && 0 <= i < code_of(
            function_table(b)[f],
        ).len() implies op_resolves(b, #[trigger] code_of(function_table(b)[f])[i]) by {
        if f == h.wrapper {
            wrapper_calls(tracee, h.args, h.saved, h.pre, h.post, i);
            match wrapper_code(tracee, h.args, h.saved, h.pre, h.post)[i] {
                Op::LocalGet(l) => {
                    let k = choose|k: int| 0 <= k < locals.len() && locals[k] == l;
                    assert(local_table(b).contains_key(locals[k]));
                },
                Op::LocalSet(l) => {
                    let k = choose|k: int| 0 <= k < locals.len() && locals[k] == l;
                    assert(local_table(b).contains_key(locals[k]));
                },
                _ => {},
            }
        } else if h.post == Some(f) || h.pre == Some(f) {
        } else {
            assert(function_table(a).contains_key(f));
            assert(function_table(b)[f] == function_table(a)[f]);
            assert(i < code_of(function_table(a)[f]).len());
            assert(op_resolves(a, code_of(function_table(a)[f])[i]));
        }
    }
}

/// Installing a wrapper leaves every function of the module as it was, and
/// adds the wrapper.
pub proof fn hook_extends(
    a: Module,
    tracee: FunctionId,
    name: Seq<char>,
    pre: bool,
    post: bool,
    h: Hook,
    b: Module,
)
    requires
        hook_installed(a, tracee, name, pre, post, h, b),
    ensures
        forall|f: FunctionId| #[trigger]
            function_table(a).contains_key(f) ==> function_table(b).contains_key(f)
                && function_table(b)[f] == function_table(a)[f],
        !function_table(a).contains_key(h.wrapper),
        function_table(b).contains_key(h.wrapper),
        function_table(b)[h.wrapper] == wrapper_view(
            tracee,
            name,
            function_table(a)[tracee].signature,
            h,
        ),
{
    let added = hook_functions(h);
    assert(added[added.len() - 1] == h.wrapper);
    assert forall|f: FunctionId| #[trigger] function_table(a).contains_key(f) implies function_table(
        b,
    ).contains_key(f) && function_table(b)[f] == function_table(a)[f] by {
        if h.pre == Some(f) {
            assert(added[0] == f);
        }
        if h.post == Some(f) {
            assert(added[added.len() - 2] == f);
        }
    }
}

/// A wrapper is made of calls of its hooks and of the function it wraps, of
/// reads and writes of its own locals, and of a return.
pub proof fn wrapper_calls(
    tracee: FunctionId,
    args: Seq<LocalId>,
    saved: Seq<LocalId>,
    pre: Option<FunctionId>,
    post: Option<FunctionId>,
    i: int,
)
    requires
        0 <= i < wrapper_code(tracee, args, saved, pre, post).len(),
    ensures
        match wrapper_code(tracee, args, saved, pre, post)[i] {
            Op::Call(g) => g == tracee || pre == Some(g) || post == Some(g),
            Op::LocalGet(l) => (args + saved).contains(l),
            Op::LocalSet(l) => (args + saved).contains(l),
            Op::Return => true,
            Op::Other => false,
        },
{
    let code = wrapper_code(tracee, args, saved, pre, post);
    let all = args + saved;
    assert forall|k: int| 0 <= k < args.len() implies all.contains(#[trigger] args[k]) by {
        assert(all[k] == args[k]);
    }
    assert forall|k: int| 0 <= k < saved.len() implies all.contains(#[trigger] saved[k]) by {
        assert(all[args.len() + k] == saved[k]);
    }
    assert forall|k: int| 0 <= k < saved.len() implies all.contains(
        #[trigger] saved.reverse()[k],
    ) by {
        assert(saved.reverse()[k] == saved[saved.len() - 1 - k]);
    }
}

} // verus!
