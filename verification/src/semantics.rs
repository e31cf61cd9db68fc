//! What a wrapper does when it runs.
//!
//! A small model of execution for the instructions that a wrapper is made
//! of: an operand stack, locals, and calls whose outcome the host decides.
//! Over this model the wrapper is shown to hand its arguments to the
//! pre-hook, to return what the wrapped function returns, to hand arguments
//! and results to the post-hook, and to trap where the wrapped function traps.

use crate::hook::{load, post_code, pre_code, store, wrapper_code};
use crate::wasm::{FunctionView, Op};
use vstd::prelude::*;
use walrus::{FunctionId, LocalId};

verus! {

/// A value on the operand stack or in a local, bit for bit.
pub struct Value {
    pub bits: int,
}

/// One call that a running body made.
pub struct CallEvent {
    pub callee: FunctionId,
    pub args: Seq<Value>,
}

/// What a body runs against: the functions it may call, and what a call of
/// each returns for given arguments, `None` where the call traps.
pub struct Host {
    pub functions: Map<FunctionId, FunctionView>,
    pub respond: spec_fn(FunctionId, Seq<Value>) -> Option<Seq<Value>>,
}

/// The state of a running body.
pub struct Frame {
    pub stack: Seq<Value>,
    pub locals: Map<LocalId, Value>,
    /// The calls made so far, in order.
    pub calls: Seq<CallEvent>,
}

/// How far a body has come.
pub enum Run {
    /// Still running.
    Going(Frame),
    /// Returned `results` to its caller.
    Returned { results: Seq<Value>, calls: Seq<CallEvent> },
    /// A call trapped; `calls` ends with that call.
    Trapped { calls: Seq<CallEvent> },
    /// An instruction could not run: an operand or a local was missing, a
    /// callee was unknown or returned the wrong number of values, or the
    /// instruction is none of those modelled.
    Stuck,
}

/// The effect of one instruction on a frame of a function with `arity`
/// results.
pub open spec fn step_frame(host: Host, arity: nat, op: Op, frame: Frame) -> Run {
    match op {
        Op::LocalGet(l) => if frame.locals.contains_key(l) {
            Run::Going(
                Frame {
                    stack: frame.stack.push(frame.locals[l]),
                    locals: frame.locals,
                    calls: frame.calls,
                },
            )
        } else {
            Run::Stuck
        },
        Op::LocalSet(l) => if frame.stack.len() > 0 {
            Run::Going(
                Frame {
                    stack: frame.stack.drop_last(),
                    locals: frame.locals.insert(l, frame.stack.last()),
                    calls: frame.calls,
                },
            )
        } else {
            Run::Stuck
        },
        Op::Call(f) => if host.functions.contains_key(f) && frame.stack.len()
            >= host.functions[f].signature.params.len() {
            let n = host.functions[f].signature.params.len();
            let args = frame.stack.skip(frame.stack.len() - n);
            let calls = frame.calls.push(CallEvent { callee: f, args });
            match (host.respond)(f, args) {
                Some(results) => if results.len() == host.functions[f].signature.results.len() {
                    Run::Going(
                        Frame {
                            stack: frame.stack.take(frame.stack.len() - n) + results,
                            locals: frame.locals,
                            calls,
                        },
                    )
                } else {
                    Run::Stuck
                },
                None => Run::Trapped { calls },
            }
        } else {
            Run::Stuck
        },
        Op::Return => if frame.stack.len() >= arity {
            Run::Returned {
                results: frame.stack.skip(frame.stack.len() - arity),
                calls: frame.calls,
            }
        } else {
            Run::Stuck
        },
        Op::Other => Run::Stuck,
    }
}

/// The effect of one instruction on a run; none once the run is over.
pub open spec fn step(host: Host, arity: nat, op: Op, run: Run) -> Run {
    match run {
        Run::Going(frame) => step_frame(host, arity, op, frame),
        _ => run,
    }
}

/// The effect of a straight sequence of instructions on a run.
pub open spec fn exec(host: Host, arity: nat, code: Seq<Op>, run: Run) -> Run
    decreases code.len(),
{
    if code.len() == 0 {
        run
    } else {
        step(host, arity, code.last(), exec(host, arity, code.drop_last(), run))
    }
}

/// The frame in which a function starts: its arguments in the locals bound
/// to its parameters, and nothing on the stack.
pub open spec fn entry(params: Seq<LocalId>, args: Seq<Value>) -> Frame {
    Frame {
        stack: Seq::empty(),
        locals: Map::new(
            |l: LocalId| params.contains(l),
            |l: LocalId| args[params.index_of(l)],
        ),
        calls: Seq::empty(),
    }
}

/// The locals after `targets` were set from the top of a stack that ended in
/// `values`: the first target holds the last value.
pub open spec fn stored(
    locals: Map<LocalId, Value>,
    targets: Seq<LocalId>,
    values: Seq<Value>,
) -> Map<LocalId, Value>
    decreases targets.len(),
{
    if targets.len() == 0 || values.len() == 0 {
        locals
    } else {
        stored(locals, targets.drop_last(), values.drop_first()).insert(targets.last(), values[0])
    }
}

/// The values of `sources` in `locals`, in order.
pub open spec fn loaded(locals: Map<LocalId, Value>, sources: Seq<LocalId>) -> Seq<Value> {
    Seq::new(sources.len(), |i: int| locals[sources[i]])
}

pub proof fn exec_push(host: Host, arity: nat, code: Seq<Op>, op: Op, run: Run)
    ensures
        exec(host, arity, code.push(op), run) == step(host, arity, op, exec(host, arity, code, run)),
{
    assert(code.push(op).drop_last() =~= code);
}

pub proof fn exec_concat(host: Host, arity: nat, first: Seq<Op>, second: Seq<Op>, run: Run)
    ensures
        exec(host, arity, first + second, run) == exec(
            host,
            arity,
            second,
            exec(host, arity, first, run),
        ),
    decreases second.len(),
{
    if second.len() == 0 {
        assert(first + second =~= first);
    } else {
        assert((first + second).drop_last() =~= first + second.drop_last());
        exec_concat(host, arity, first, second.drop_last(), run);
    }
}

/// Once a run is over, further instructions leave it as it is.
pub proof fn exec_over(host: Host, arity: nat, code: Seq<Op>, run: Run)
    requires
        !(run is Going),
    ensures
        exec(host, arity, code, run) == run,
    decreases code.len(),
{
    if code.len() > 0 {
        exec_over(host, arity, code.drop_last(), run);
    }
}

/// Loading locals pushes their values, in order.
pub proof fn exec_load(host: Host, arity: nat, sources: Seq<LocalId>, frame: Frame)
    requires
        forall|i: int| 0 <= i < sources.len() ==> frame.locals.contains_key(#[trigger] sources[i]),
    ensures
        exec(host, arity, load(sources), Run::Going(frame)) == Run::Going(
            Frame {
                stack: frame.stack + loaded(frame.locals, sources),
                locals: frame.locals,
                calls: frame.calls,
            },
        ),
    decreases sources.len(),
{
    if sources.len() == 0 {
        assert(frame.stack + loaded(frame.locals, sources) =~= frame.stack);
    } else {
        let rest = sources.drop_last();
        assert forall|i: int| 0 <= i < rest.len() implies frame.locals.contains_key(
            #[trigger] rest[i],
        ) by {
            assert(rest[i] == sources[i]);
        }
        exec_load(host, arity, rest, frame);
        assert(load(sources).drop_last() =~= load(rest));
        assert(load(sources).last() == Op::LocalGet(sources.last()));
        assert(frame.locals.contains_key(sources[sources.len() - 1]));
        assert((frame.stack + loaded(frame.locals, rest)).push(frame.locals[sources.last()])
            =~= frame.stack + loaded(frame.locals, sources));
    }
}

/// Storing into locals pops the values from the top of the stack.
pub proof fn exec_store(
    host: Host,
    arity: nat,
    targets: Seq<LocalId>,
    frame: Frame,
    below: Seq<Value>,
    values: Seq<Value>,
)
    requires
        frame.stack == below + values,
        values.len() == targets.len(),
    ensures
        exec(host, arity, store(targets), Run::Going(frame)) == Run::Going(
            Frame {
                stack: below,
                locals: stored(frame.locals, targets, values),
                calls: frame.calls,
            },
        ),
    decreases targets.len(),
{
    if targets.len() == 0 {
        assert(below + values =~= below);
    } else {
        let rest = targets.drop_last();
        assert(frame.stack =~= below.push(values[0]) + values.drop_first());
        exec_store(host, arity, rest, frame, below.push(values[0]), values.drop_first());
        assert(store(targets).drop_last() =~= store(rest));
        assert(store(targets).last() == Op::LocalSet(targets.last()));
        assert(below.push(values[0]).drop_last() =~= below);
    }
}

/// What `stored` holds: a target holds the value that was as far from the top
/// as the target is from the start; every other local is as it was.
pub proof fn stored_holds(
    locals: Map<LocalId, Value>,
    targets: Seq<LocalId>,
    values: Seq<Value>,
)
    requires
        values.len() == targets.len(),
        targets.no_duplicates(),
    ensures
        forall|j: int|
            0 <= j < targets.len() ==> stored(locals, targets, values).contains_key(
                #[trigger] targets[j],
            ) && stored(locals, targets, values)[targets[j]] == values[targets.len() - 1 - j],
        forall|l: LocalId|
            !targets.contains(l) ==> (#[trigger] stored(locals, targets, values).contains_key(l)
                <==> locals.contains_key(l)),
        forall|l: LocalId|
            !targets.contains(l) && locals.contains_key(l) ==> #[trigger] stored(
                locals,
                targets,
                values,
            )[l] == locals[l],
    decreases targets.len(),
{
    if targets.len() > 0 {
        let rest = targets.drop_last();
        let tail = values.drop_first();
        stored_holds(locals, rest, tail);
        let inner = stored(locals, rest, tail);
        assert forall|j: int| 0 <= j < targets.len() implies stored(
            locals,
            targets,
            values,
        ).contains_key(#[trigger] targets[j]) && stored(locals, targets, values)[targets[j]]
            == values[targets.len() - 1 - j] by {
            if j < targets.len() - 1 {
                assert(rest[j] == targets[j]);
                assert(targets[j] != targets[targets.len() - 1]);
                assert(inner[rest[j]] == tail[rest.len() - 1 - j]);
            }
        }
        assert forall|l: LocalId| !targets.contains(l) implies (#[trigger] stored(
            locals,
            targets,
            values,
        ).contains_key(l) <==> locals.contains_key(l)) by {
            assert(targets[targets.len() - 1] != l);
            if rest.contains(l) {
                let i = choose|i: int| 0 <= i < rest.len() && rest[i] == l;
                assert(targets[i] == l);
            }
        }
        assert forall|l: LocalId| !targets.contains(l) && locals.contains_key(l) implies #[trigger] stored(
            locals,
            targets,
            values,
        )[l] == locals[l] by {
            assert(targets[targets.len() - 1] != l);
            if rest.contains(l) {
                let i = choose|i: int| 0 <= i < rest.len() && rest[i] == l;
                assert(targets[i] == l);
            }
        }
    }
}

/// The calls that a wrapper makes before it calls the wrapped function.
pub open spec fn pre_calls(pre: Option<FunctionId>, args: Seq<Value>) -> Seq<CallEvent> {
    match pre {
        Some(hook) => seq![CallEvent { callee: hook, args }],
        None => Seq::empty(),
    }
}

/// The calls that a wrapper makes after the wrapped function has returned.
pub open spec fn post_calls(
    post: Option<FunctionId>,
    args: Seq<Value>,
    results: Seq<Value>,
) -> Seq<CallEvent> {
    match post {
        Some(hook) => seq![CallEvent { callee: hook, args: args + results }],
        None => Seq::empty(),
    }
}

/// Whether a hook, where there is one, traps when called with `given`.
pub open spec fn hook_traps(host: Host, hook: Option<FunctionId>, given: Seq<Value>) -> bool {
    match hook {
        Some(f) => (host.respond)(f, given) is None,
        None => false,
    }
}

/// What a call of the wrapper of `tracee` comes to, given what the calls of
/// the hooks and of `tracee` come to: the pre-hook is called with the
/// arguments, then `tracee` with the arguments, then the post-hook with the
/// arguments and the results, and the results are returned; the wrapper traps
/// at the first of these calls that traps, and makes no call after it.
pub open spec fn wrapped_outcome(
    host: Host,
    tracee: FunctionId,
    pre: Option<FunctionId>,
    post: Option<FunctionId>,
    args: Seq<Value>,
) -> Run {
    let call = CallEvent { callee: tracee, args };
    if hook_traps(host, pre, args) {
        Run::Trapped { calls: pre_calls(pre, args) }
    } else {
        match (host.respond)(tracee, args) {
            Some(results) => if hook_traps(host, post, args + results) {
                Run::Trapped {
                    calls: pre_calls(pre, args).push(call) + post_calls(post, args, results),
                }
            } else {
                Run::Returned {
                    results,
                    calls: pre_calls(pre, args).push(call) + post_calls(post, args, results),
                }
            },
            None => Run::Trapped { calls: pre_calls(pre, args).push(call) },
        }
    }
}

/// Whether `f` is a function of the host that, where it returns, returns as
/// many values as its signature says.
pub open spec fn conforms(host: Host, f: FunctionId) -> bool {
    &&& host.functions.contains_key(f)
    &&& forall|given: Seq<Value>|
        (#[trigger] (host.respond)(f, given)) matches Some(results) ==> results.len()
            == host.functions[f].signature.results.len()
}

/// Whether `hook` is a function of the host that takes `params` values and
/// returns none.
pub open spec fn observes(host: Host, hook: FunctionId, params: nat) -> bool {
    &&& conforms(host, hook)
    &&& host.functions[hook].signature.params.len() == params
    &&& host.functions[hook].signature.results.len() == 0
}

/// What the law of the wrapper asks of its surroundings: the locals of the
/// wrapper are distinct; the wrapped function takes as many parameters as the
/// wrapper has arguments; the hooks take the arguments, and the results, and
/// return nothing; every function returns as many values as its signature
/// says.
pub open spec fn wrapper_fits(
    host: Host,
    tracee: FunctionId,
    params: Seq<LocalId>,
    saved: Seq<LocalId>,
    pre: Option<FunctionId>,
    post: Option<FunctionId>,
) -> bool {
    &&& (params + saved).no_duplicates()
    &&& conforms(host, tracee)
    &&& host.functions[tracee].signature.params.len() == params.len()
    &&& pre matches Some(hook) ==> observes(host, hook, params.len())
    &&& post matches Some(hook) ==> saved.len() == host.functions[tracee].signature.results.len()
        && observes(host, hook, params.len() + saved.len())
}

/// A call of the wrapper with `args` comes to `wrapped_outcome`.
pub proof fn wrapper_runs(
    host: Host,
    tracee: FunctionId,
    params: Seq<LocalId>,
    saved: Seq<LocalId>,
    pre: Option<FunctionId>,
    post: Option<FunctionId>,
    args: Seq<Value>,
)
    requires
        wrapper_fits(host, tracee, params, saved, pre, post),
        args.len() == params.len(),
    ensures
        exec(
            host,
            host.functions[tracee].signature.results.len(),
            wrapper_code(tracee, params, saved, pre, post),
            Run::Going(entry(params, args)),
        ) == wrapped_outcome(host, tracee, pre, post, args),
{
    let arity = host.functions[tracee].signature.results.len();
    let start = entry(params, args);
    let first = pre_code(params, pre);
    let second = load(params).push(Op::Call(tracee));
    let third = post_code(params, saved, post);
    let call = CallEvent { callee: tracee, args };

    assert forall|i: int| 0 <= i < params.len() implies start.locals.contains_key(
        #[trigger] params[i],
    ) && start.locals[params[i]] == args[i] by {
        assert((params + saved)[i] == params[i]);
        assert(params.contains(params[i]));
        let k = params.index_of(params[i]);
        assert((params + saved)[k] == params[k]);
        assert(k == i);
    }
    assert(loaded(start.locals, params) =~= args);
    exec_concat(host, arity, first, second, Run::Going(start));
    exec_concat(host, arity, first + second, third, Run::Going(start));
    exec_push(host, arity, first + second + third, Op::Return, Run::Going(start));

    // The pre-hook.
    let after_pre = Frame { stack: Seq::empty(), locals: start.locals, calls: pre_calls(pre, args) };
    let stopped = Run::Trapped { calls: pre_calls(pre, args) };
    assert(exec(host, arity, first, Run::Going(start)) == if hook_traps(host, pre, args) {
        stopped
    } else {
        Run::Going(after_pre)
    }) by {
        match pre {
            Some(hook) => {
                exec_load(host, arity, params, start);
                exec_push(host, arity, load(params), Op::Call(hook), Run::Going(start));
                let loaded_frame = Frame {
                    stack: start.stack + args,
                    locals: start.locals,
                    calls: start.calls,
                };
                assert(loaded_frame.stack =~= args);
                assert(loaded_frame.stack.skip(loaded_frame.stack.len() - args.len()) =~= args);
                assert(start.calls.push(CallEvent { callee: hook, args }) =~= pre_calls(pre, args));
                match (host.respond)(hook, args) {
                    Some(nothing) => {
                        assert(loaded_frame.stack.take(loaded_frame.stack.len() - args.len())
                            + nothing =~= Seq::<Value>::empty());
                    },
                    None => {},
                }
            },
            None => {},
        }
    }
    if hook_traps(host, pre, args) {
        exec_over(host, arity, second, stopped);
        exec_over(host, arity, third, stopped);
    } else {
        // The wrapped function.

        exec_load(host, arity, params, after_pre);
        exec_push(host, arity, load(params), Op::Call(tracee), Run::Going(after_pre));
        let ready = Frame {
            stack: after_pre.stack + args,
            locals: after_pre.locals,
            calls: after_pre.calls,
        };
        assert(ready.stack =~= args);
        assert(ready.stack.skip(ready.stack.len() - args.len()) =~= args);

        match (host.respond)(tracee, args) {
            None => {
                let trapped = Run::Trapped { calls: pre_calls(pre, args).push(call) };
                assert(exec(host, arity, second, Run::Going(after_pre)) == trapped);
                exec_over(host, arity, third, trapped);
            },
            Some(results) => {
                assert(results.len() == arity);
                let called = Frame {
                    stack: results,
                    locals: start.locals,
                    calls: pre_calls(pre, args).push(call),
                };
                assert(ready.stack.take(ready.stack.len() - args.len()) + results =~= results);
                assert(exec(host, arity, second, Run::Going(after_pre)) == Run::Going(called));
                let done = Frame {
                    stack: results,
                    locals: match post {
                        Some(hook) => stored(start.locals, saved, results),
                        None => start.locals,
                    },
                    calls: called.calls + post_calls(post, args, results),
                };
                assert(exec(host, arity, third, Run::Going(called)) == if hook_traps(
                    host,
                    post,
                    args + results,
                ) {
                    Run::Trapped { calls: called.calls + post_calls(post, args, results) }
                } else {
                    Run::Going(done)
                }) by {
                    match post {
                        Some(hook) => {
                            let back = saved.reverse();
                            assert forall|i: int, j: int|
                                0 <= i < saved.len() && 0 <= j < saved.len() && i != j implies saved[i]
                                != saved[j] by {
                                assert((params + saved)[params.len() + i] == saved[i]);
                                assert((params + saved)[params.len() + j] == saved[j]);
                            }
                            assert forall|i: int| 0 <= i < params.len() implies !saved.contains(
                                #[trigger] params[i],
                            ) by {
                                if saved.contains(params[i]) {
                                    let j = choose|j: int| 0 <= j < saved.len() && saved[j] == params[i];
                                    assert((params + saved)[params.len() + j] == saved[j]);
                                    assert((params + saved)[i] == params[i]);
                                }
                            }
                            stored_holds(start.locals, saved, results);
                            let kept = stored(start.locals, saved, results);
                            // Spill the results.
                            assert(called.stack =~= Seq::<Value>::empty() + results);
                            exec_store(host, arity, saved, called, Seq::empty(), results);
                            let spilled = Frame {
                                stack: Seq::empty(),
                                locals: kept,
                                calls: called.calls,
                            };
                            // Push arguments and results for the hook.
                            assert(loaded(kept, params) =~= args);
                            assert(loaded(kept, back) =~= results) by {
                                assert forall|i: int| 0 <= i < back.len() implies kept[back[i]]
                                    == results[i] by {
                                    assert(back[i] == saved[saved.len() - 1 - i]);
                                }
                            }
                            assert forall|i: int| 0 <= i < back.len() implies kept.contains_key(
                                #[trigger] back[i],
                            ) by {
                                assert(back[i] == saved[saved.len() - 1 - i]);
                            }
                            exec_load(host, arity, params, spilled);
                            let with_args = Frame {
                                stack: spilled.stack + args,
                                locals: kept,
                                calls: called.calls,
                            };
                            exec_load(host, arity, back, with_args);
                            let with_all = Frame {
                                stack: with_args.stack + results,
                                locals: kept,
                                calls: called.calls,
                            };
                            assert(with_all.stack =~= args + results);
                            exec_push(host, arity, load(back), Op::Call(hook), Run::Going(with_args));
                            assert(with_all.stack.skip(with_all.stack.len() - (args + results).len())
                                =~= args + results);
                            let observed = Frame {
                                stack: Seq::empty(),
                                locals: kept,
                                calls: called.calls.push(
                                    CallEvent { callee: hook, args: args + results },
                                ),
                            };
                            assert(observed.calls =~= called.calls + post_calls(post, args, results));
                            exec_concat(host, arity, store(saved), load(params), Run::Going(called));
                            exec_concat(
                                host,
                                arity,
                                store(saved) + load(params),
                                load(back).push(Op::Call(hook)),
                                Run::Going(called),
                            );
                            exec_concat(
                                host,
                                arity,
                                store(saved) + load(params) + load(back).push(Op::Call(hook)),
                                load(back),
                                Run::Going(called),
                            );
                            match (host.respond)(hook, args + results) {
                                Some(nothing) => {
                                    assert(with_all.stack.take(
                                        with_all.stack.len() - (args + results).len(),
                                    ) + nothing =~= observed.stack);
                                    assert(exec(
                                        host,
                                        arity,
                                        load(back).push(Op::Call(hook)),
                                        Run::Going(with_args),
                                    ) == Run::Going(observed));
                                    // Push the results again to return them.
                                    exec_load(host, arity, back, observed);
                                    assert(observed.stack + results =~= results);
                                },
                                None => {
                                    let trapped = Run::Trapped { calls: observed.calls };
                                    assert(exec(
                                        host,
                                        arity,
                                        load(back).push(Op::Call(hook)),
                                        Run::Going(with_args),
                                    ) == trapped);
                                    exec_over(host, arity, load(back), trapped);
                                },
                            }
                        },
                        None => {
                            assert(called.calls + post_calls(post, args, results) =~= called.calls);
                        },
                    }
                }
                assert(done.stack.skip(done.stack.len() - arity) =~= results);
            },
        }
    }
}

} // verus!
