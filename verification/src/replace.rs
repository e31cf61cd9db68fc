//! Redirecting the recorded uses of functions to their replacements.

use crate::call_graph::{is_use, CallGraph, FunctionUse};
use crate::wasm::{
    code_of, element_ids, element_kinds, element_table, export_ids, export_items, export_table, function_ids, function_table,
    function_types, interned, local_table, plain_types, op_resolves, others_resolve, redirect_calls, same_rest, redirect_code, redirect_op,
    references_resolve, same_id, set_element_function, set_export_function, type_table, typed,
    with_code, ElementView, ExportView, Op,
};
use vstd::prelude::*;
use walrus::{ElementId, ExportId, FunctionId, Module};

verus! {

/// Which function takes the place of which: each replaced function with its
/// replacement.
#[derive(Debug)]
pub struct ReplaceMap {
    entries: Vec<(FunctionId, FunctionId)>,
}

impl View for ReplaceMap {
    type V = Map<FunctionId, FunctionId>;

    closed spec fn view(&self) -> Map<FunctionId, FunctionId> {
        Map::new(|f: FunctionId| self.has_entry(f), |f: FunctionId| self.entries@[self.position(f)].1)
    }
}

impl ReplaceMap {
    /// No function is listed twice.
    pub closed spec fn well_formed(&self) -> bool {
        forall|i: int, j: int|
            0 <= i < j < self.entries@.len() ==> self.entries@[i].0 != self.entries@[j].0
    }

    spec fn has_entry(&self, f: FunctionId) -> bool {
        exists|i: int| 0 <= i < self.entries@.len() && (#[trigger] self.entries@[i]).0 == f
    }

    spec fn position(&self, f: FunctionId) -> int {
        choose|i: int| 0 <= i < self.entries@.len() && (#[trigger] self.entries@[i]).0 == f
    }

    proof fn entry_is_viewed(&self, i: int)
        requires
            self.well_formed(),
            0 <= i < self.entries@.len(),
        ensures
            self@.contains_key(self.entries@[i].0),
            self@[self.entries@[i].0] == self.entries@[i].1,
    {
        let f = self.entries@[i].0;
        assert(self.has_entry(f));
        assert(self.position(f) == i);
    }

    /// A map that replaces nothing.
    pub fn new() -> (map: ReplaceMap)
        ensures
            map.well_formed(),
            map@ == Map::<FunctionId, FunctionId>::empty(),
    {
        let map = ReplaceMap { entries: Vec::new() };
        assert(map@ =~= Map::<FunctionId, FunctionId>::empty());
        map
    }

    fn find(&self, replaced: FunctionId) -> (r: Option<usize>)
        ensures
            match r {
                Some(i) => i < self.entries@.len() && self.entries@[i as int].0 == replaced,
                None => !self.has_entry(replaced),
            },
    {
        let mut i: usize = 0;
        while i < self.entries.len()
            invariant
                i <= self.entries@.len(),
                forall|k: int| 0 <= k < i ==> self.entries@[k].0 != replaced,
            decreases self.entries@.len() - i,
        {
            if same_id(self.entries[i].0, replaced) {
                return Some(i);
            }
            i = i + 1;
        }
        None
    }

    /// The replacement of a function, if it has one.
    pub fn get(&self, replaced: FunctionId) -> (r: Option<FunctionId>)
        requires
            self.well_formed(),
        ensures
            r == if self@.contains_key(replaced) {
                Some(self@[replaced])
            } else {
                None
            },
    {
        match self.find(replaced) {
            Some(i) => {
                proof {
                    self.entry_is_viewed(i as int);
                }
                Some(self.entries[i].1)
            },
            None => None,
        }
    }

    /// Lets `replacement` take the place of `replaced`, whatever took it
    /// before.
    pub fn insert(&mut self, replaced: FunctionId, replacement: FunctionId)
        requires
            old(self).well_formed(),
        ensures
            final(self).well_formed(),
            final(self)@ == old(self)@.insert(replaced, replacement),
    {
        let ghost before = *self;
        match self.find(replaced) {
            Some(i) => {
                self.entries.remove(i);
                self.entries.insert(i, (replaced, replacement));
                proof {
                    assert(self.entries@ =~= before.entries@.update(
                        i as int,
                        (replaced, replacement),
                    ));
                }
            },
            None => {
                self.entries.push((replaced, replacement));
            },
        }
        proof {
            let after = *self;
            let expected = before@.insert(replaced, replacement);
            assert(after.well_formed());
            assert forall|f: FunctionId| after@.contains_key(f) <==> expected.contains_key(f) by {
                if after.has_entry(f) && f != replaced {
                    let p = after.position(f);
                    assert(before.entries@[p].0 == f);
                }
                if before.has_entry(f) {
                    let p = before.position(f);
                    assert(after.entries@[p].0 == f);
                }
                if f == replaced {
                    let p = if before.has_entry(f) {
                        before.position(f)
                    } else {
                        before.entries@.len() as int
                    };
                    assert(after.entries@[p].0 == f);
                }
            }
            assert forall|f: FunctionId| #[trigger] after@.contains_key(f) implies after@[f]
                == expected[f] by {
                let p = after.position(f);
                after.entry_is_viewed(p);
                if f != replaced {
                    before.entry_is_viewed(p);
                }
            }
            assert(after@ =~= expected);
        }
    }
}

/// The function that the site `s`, which referred to `t`, refers to after
/// redirection: the replacement of `t` where the site is selected.
pub open spec fn new_target(
    sel: spec_fn(FunctionUse, FunctionId) -> bool,
    map: Map<FunctionId, FunctionId>,
    s: FunctionUse,
    t: FunctionId,
) -> FunctionId {
    if sel(s, t) {
        map[t]
    } else {
        t
    }
}

pub open spec fn redirected_op(
    sel: spec_fn(FunctionUse, FunctionId) -> bool,
    map: Map<FunctionId, FunctionId>,
    f: FunctionId,
    op: Op,
) -> Op {
    match op {
        Op::Call(t) => Op::Call(new_target(sel, map, FunctionUse::Call { caller: f }, t)),
        _ => op,
    }
}

/// The body of `f` after redirection.
pub open spec fn redirected_body(
    sel: spec_fn(FunctionUse, FunctionId) -> bool,
    map: Map<FunctionId, FunctionId>,
    f: FunctionId,
    code: Seq<Op>,
) -> Seq<Op> {
    Seq::new(code.len(), |i: int| redirected_op(sel, map, f, code[i]))
}

/// The site that is slot `i` of the segment `e`.
pub open spec fn slot(e: ElementId, i: int) -> FunctionUse {
    FunctionUse::InElement { element: e, index: i as usize }
}

/// The segment `e` after redirection.
pub open spec fn redirected_segment(
    sel: spec_fn(FunctionUse, FunctionId) -> bool,
    map: Map<FunctionId, FunctionId>,
    e: ElementId,
    v: ElementView,
) -> ElementView {
    match v {
        ElementView::Functions(items) => ElementView::Functions(
            Seq::new(
                items.len(),
                |i: int|
                    if i <= usize::MAX {
                        new_target(sel, map, slot(e, i), items[i])
                    } else {
                        items[i]
                    },
            ),
        ),
        ElementView::Expressions => v,
    }
}

/// The export `x` after redirection.
pub open spec fn redirected_export(
    sel: spec_fn(FunctionUse, FunctionId) -> bool,
    map: Map<FunctionId, FunctionId>,
    x: ExportId,
    v: ExportView,
) -> ExportView {
    ExportView {
        name: v.name,
        function: match v.function {
            Some(t) => Some(new_target(sel, map, FunctionUse::Export { export: x }, t)),
            None => None,
        },
    }
}

/// Whether the export `x` is a selected site.
pub open spec fn export_selected(
    sel: spec_fn(FunctionUse, FunctionId) -> bool,
    x: ExportId,
    v: ExportView,
) -> bool {
    match v.function {
        Some(t) => sel(FunctionUse::Export { export: x }, t),
        None => false,
    }
}

/// `b` is `a` with every selected site redirected: a `call` in the body of a
/// function, a slot of an element segment or the target of an export that
/// referred to `t` refers to `map[t]` where `sel` holds of the site and `t`,
/// and to `t` as before where it does not. An export that is not selected
/// hands out the item that it handed out. Nothing else differs: the same
/// functions, segments and exports in the same order, with the same names,
/// signatures and lengths, and the same locals and types.
pub open spec fn redirected_where(
    a: Module,
    sel: spec_fn(FunctionUse, FunctionId) -> bool,
    map: Map<FunctionId, FunctionId>,
    b: Module,
) -> bool {
    &&& function_ids(b) == function_ids(a)
    &&& forall|f: FunctionId| #[trigger]
        function_table(b).contains_key(f) <==> function_table(a).contains_key(f)
    &&& forall|f: FunctionId|
        function_table(a).contains_key(f) ==> #[trigger] function_table(b)[f] == with_code(
            function_table(a)[f],
            redirected_body(sel, map, f, code_of(function_table(a)[f])),
        )
    &&& element_ids(b) == element_ids(a)
    &&& element_kinds(b) == element_kinds(a)
    &&& forall|e: ElementId| #[trigger]
        element_table(b).contains_key(e) <==> element_table(a).contains_key(e)
    &&& forall|e: ElementId|
        element_table(a).contains_key(e) ==> #[trigger] element_table(b)[e] == redirected_segment(
            sel,
            map,
            e,
            element_table(a)[e],
        )
    &&& same_rest(a, b)
    &&& export_ids(b) == export_ids(a)
    &&& forall|x: ExportId| #[trigger]
        export_table(b).contains_key(x) <==> export_table(a).contains_key(x)
    &&& forall|x: ExportId|
        export_table(a).contains_key(x) ==> #[trigger] export_table(b)[x] == redirected_export(
            sel,
            map,
            x,
            export_table(a)[x],
        )
    &&& export_items(b).dom() == export_items(a).dom()
    &&& forall|x: ExportId|
        !(export_table(a).contains_key(x) && export_selected(sel, x, export_table(a)[x]))
            ==> #[trigger] export_items(b)[x] == export_items(a)[x]
    &&& function_types(b) == function_types(a)
    &&& local_table(b) == local_table(a)
    &&& type_table(b) == type_table(a)
    &&& interned(b) == interned(a)
    &&& plain_types(b) == plain_types(a)
}

/// The sites that `replace_funcs` redirects: those that the graph records
/// for a function that the map replaces.
pub open spec fn recorded(graph: CallGraph, map: Map<FunctionId, FunctionId>) -> spec_fn(
    FunctionUse,
    FunctionId,
) -> bool {
    |s: FunctionUse, t: FunctionId| map.contains_key(t) && graph.uses(t).contains(s)
}

/// `b` is `a` with every site that `graph` records for a function that `map`
/// replaces redirected to the replacement.
pub open spec fn redirected(
    a: Module,
    graph: CallGraph,
    map: Map<FunctionId, FunctionId>,
    b: Module,
) -> bool {
    redirected_where(a, recorded(graph, map), map, b)
}

/// Every site that the graph records for a function that the map replaces
/// is a site of `m` that refers to that function.
pub open spec fn records_uses_of(graph: CallGraph, map: Map<FunctionId, FunctionId>, m: Module) -> bool {
    forall|f: FunctionId, u: FunctionUse|
        map.contains_key(f) && #[trigger] graph.uses(f).contains(u) ==> is_use(m, f, u)
}

/// No replacement is itself a replaced function for which the graph records
/// a use.
pub open spec fn no_chains(graph: CallGraph, map: Map<FunctionId, FunctionId>) -> bool {
    forall|f: FunctionId, s: FunctionUse|
        map.contains_key(f) && map.contains_key(map[f]) ==> !#[trigger] graph.uses(
            map[f],
        ).contains(s)
}

/// The sites redirected so far: all that are recorded for the first `k`
/// entries, and the first `j` of `uses` for entry `k`.
spec fn done(
    graph: CallGraph,
    entries: Seq<(FunctionId, FunctionId)>,
    k: int,
    uses: Seq<FunctionUse>,
    j: int,
) -> spec_fn(FunctionUse, FunctionId) -> bool {
    |s: FunctionUse, t: FunctionId|
        (exists|i: int| 0 <= i < k && (#[trigger] entries[i]).0 == t && graph.uses(t).contains(s))
            || (0 <= k < entries.len() && entries[k].0 == t && exists|l: int|
            0 <= l < j && #[trigger] uses[l] == s)
}

/// Whether two selections agree but for the site `s0` with the target `t0`,
/// which only the second selects.
spec fn one_more(
    sel: spec_fn(FunctionUse, FunctionId) -> bool,
    next: spec_fn(FunctionUse, FunctionId) -> bool,
    s0: FunctionUse,
    t0: FunctionId,
) -> bool {
    &&& !sel(s0, t0)
    &&& next(s0, t0)
    &&& forall|s: FunctionUse, t: FunctionId|
        !(s == s0 && t == t0) ==> #[trigger] next(s, t) == sel(s, t)
}

pub proof fn same_selection(
    a: Module,
    sel: spec_fn(FunctionUse, FunctionId) -> bool,
    next: spec_fn(FunctionUse, FunctionId) -> bool,
    map: Map<FunctionId, FunctionId>,
    b: Module,
)
    requires
        redirected_where(a, sel, map, b),
        forall|s: FunctionUse, t: FunctionId| #[trigger] next(s, t) == sel(s, t),
    ensures
        redirected_where(a, next, map, b),
{
    assert forall|f: FunctionId| function_table(a).contains_key(f) implies #[trigger] function_table(
        b,
    )[f] == with_code(
        function_table(a)[f],
        redirected_body(next, map, f, code_of(function_table(a)[f])),
    ) by {
        let code = code_of(function_table(a)[f]);
        assert(redirected_body(next, map, f, code) =~= redirected_body(sel, map, f, code));
    }
    assert forall|e: ElementId| element_table(a).contains_key(e) implies #[trigger] element_table(
        b,
    )[e] == redirected_segment(next, map, e, element_table(a)[e]) by {
        let v = element_table(a)[e];
        if v is Functions {
            assert(redirected_segment(next, map, e, v)->Functions_0 =~= redirected_segment(
                sel,
                map,
                e,
                v,
            )->Functions_0);
        }
    }
    assert forall|x: ExportId| export_table(a).contains_key(x) implies #[trigger] export_table(
        b,
    )[x] == redirected_export(next, map, x, export_table(a)[x]) by {}
    assert forall|x: ExportId|
        !(export_table(a).contains_key(x) && export_selected(next, x, export_table(a)[x]))
        implies #[trigger] export_items(b)[x] == export_items(a)[x] by {
        if export_table(a).contains_key(x) {
            match export_table(a)[x].function {
                Some(t) => {
                    assert(next(FunctionUse::Export { export: x }, t) == sel(
                        FunctionUse::Export { export: x },
                        t,
                    ));
                },
                None => {},
            }
        }
    }
}

/// Redirecting the calls to `from` in the body of `caller` selects one more
/// site.
proof fn calls_step(
    a: Module,
    sel: spec_fn(FunctionUse, FunctionId) -> bool,
    next: spec_fn(FunctionUse, FunctionId) -> bool,
    map: Map<FunctionId, FunctionId>,
    b: Module,
    c: Module,
    caller: FunctionId,
    from: FunctionId,
)
    requires
        redirected_where(a, sel, map, b),
        one_more(sel, next, FunctionUse::Call { caller }, from),
        map.contains_key(from),
        forall|s: FunctionUse, t: FunctionId| #[trigger] sel(s, t) ==> map.contains_key(t),
        forall|t: FunctionId| #[trigger] map.contains_key(t) ==> map[t] != from,
        function_table(a).contains_key(caller),
        function_table(a)[caller].body is Local,
        function_ids(c) == function_ids(b),
        function_table(c) == function_table(b).insert(
            caller,
            with_code(
                function_table(b)[caller],
                redirect_code(from, map[from], code_of(function_table(b)[caller])),
            ),
        ),
        function_types(c) == function_types(b),
        element_ids(c) == element_ids(b),
        element_kinds(c) == element_kinds(b),
        element_table(c) == element_table(b),
        same_rest(b, c),
        export_ids(c) == export_ids(b),
        export_items(c) == export_items(b),
        export_table(c) == export_table(b),
        local_table(c) == local_table(b),
        type_table(c) == type_table(b),
        interned(c) == interned(b),
        plain_types(c) == plain_types(b),
    ensures
        redirected_where(a, next, map, c),
{
    let site = FunctionUse::Call { caller };
    assert forall|f: FunctionId| function_table(a).contains_key(f) implies #[trigger] function_table(
        c,
    )[f] == with_code(
        function_table(a)[f],
        redirected_body(next, map, f, code_of(function_table(a)[f])),
    ) by {
        let code = code_of(function_table(a)[f]);
        assert(function_table(b)[f] == with_code(
            function_table(a)[f],
            redirected_body(sel, map, f, code),
        ));
        if f == caller {
            let mid = redirected_body(sel, map, f, code);
            assert(code_of(function_table(b)[f]) == mid);
            assert forall|i: int| 0 <= i < code.len() implies redirect_op(
                from,
                map[from],
                mid[i],
            ) == redirected_op(next, map, f, code[i]) by {
                match code[i] {
                    Op::Call(t) => {
                        if t == from {
                        } else {
                            assert(next(site, t) == sel(site, t));
                            if sel(site, t) {
                                assert(map.contains_key(t));
                                assert(map[t] != from);
                            }
                        }
                    },
                    _ => {},
                }
            }
            assert(redirect_code(from, map[from], mid) =~= redirected_body(next, map, f, code));
        } else {
            assert forall|i: int| 0 <= i < code.len() implies redirected_op(sel, map, f, code[i])
                == redirected_op(next, map, f, code[i]) by {
                match code[i] {
                    Op::Call(t) => {
                        assert(next(FunctionUse::Call { caller: f }, t) == sel(
                            FunctionUse::Call { caller: f },
                            t,
                        ));
                    },
                    _ => {},
                }
            }
            assert(redirected_body(next, map, f, code) =~= redirected_body(sel, map, f, code));
        }
    }
    assert forall|e: ElementId| element_table(a).contains_key(e) implies #[trigger] element_table(
        c,
    )[e] == redirected_segment(next, map, e, element_table(a)[e]) by {
        let v = element_table(a)[e];
        assert(element_table(b)[e] == redirected_segment(sel, map, e, v));
        if v is Functions {
            let items = v->Functions_0;
            assert forall|i: int| 0 <= i < items.len() implies next(slot(e, i), items[i]) == sel(
                slot(e, i),
                items[i],
            ) by {}
            assert(redirected_segment(next, map, e, v)->Functions_0 =~= redirected_segment(
                sel,
                map,
                e,
                v,
            )->Functions_0);
        }
    }
    assert forall|x: ExportId| export_table(a).contains_key(x) implies #[trigger] export_table(
        c,
    )[x] == redirected_export(next, map, x, export_table(a)[x]) by {
        assert(export_table(b)[x] == redirected_export(sel, map, x, export_table(a)[x]));
        match export_table(a)[x].function {
            Some(t) => {
                assert(next(FunctionUse::Export { export: x }, t) == sel(
                    FunctionUse::Export { export: x },
                    t,
                ));
            },
            None => {},
        }
    }
    assert forall|x: ExportId|
        !(export_table(a).contains_key(x) && export_selected(next, x, export_table(a)[x]))
        implies #[trigger] export_items(c)[x] == export_items(a)[x] by {
        if export_table(a).contains_key(x) {
            match export_table(a)[x].function {
                Some(t) => {
                    assert(next(FunctionUse::Export { export: x }, t) == sel(
                        FunctionUse::Export { export: x },
                        t,
                    ));
                },
                None => {},
            }
        }
        assert(export_items(b)[x] == export_items(a)[x]);
    }
}

/// Assigning the replacement to a slot that held `from` selects one more
/// site.
proof fn slot_step(
    a: Module,
    sel: spec_fn(FunctionUse, FunctionId) -> bool,
    next: spec_fn(FunctionUse, FunctionId) -> bool,
    map: Map<FunctionId, FunctionId>,
    b: Module,
    c: Module,
    element: ElementId,
    index: usize,
    from: FunctionId,
)
    requires
        redirected_where(a, sel, map, b),
        one_more(sel, next, FunctionUse::InElement { element, index }, from),
        is_use(a, from, FunctionUse::InElement { element, index }),
        function_ids(c) == function_ids(b),
        function_table(c) == function_table(b),
        function_types(c) == function_types(b),
        element_ids(c) == element_ids(b),
        element_kinds(c) == element_kinds(b),
        element_table(c) == element_table(b).insert(
            element,
            ElementView::Functions(
                element_table(b)[element]->Functions_0.update(index as int, map[from]),
            ),
        ),
        same_rest(b, c),
        export_ids(c) == export_ids(b),
        export_items(c) == export_items(b),
        export_table(c) == export_table(b),
        local_table(c) == local_table(b),
        type_table(c) == type_table(b),
        interned(c) == interned(b),
        plain_types(c) == plain_types(b),
    ensures
        redirected_where(a, next, map, c),
{
    let site = FunctionUse::InElement { element, index };
    assert forall|f: FunctionId| function_table(a).contains_key(f) implies #[trigger] function_table(
        c,
    )[f] == with_code(
        function_table(a)[f],
        redirected_body(next, map, f, code_of(function_table(a)[f])),
    ) by {
        let code = code_of(function_table(a)[f]);
        assert(function_table(b)[f] == with_code(
            function_table(a)[f],
            redirected_body(sel, map, f, code),
        ));
        assert forall|i: int| 0 <= i < code.len() implies redirected_op(sel, map, f, code[i])
            == redirected_op(next, map, f, code[i]) by {
            match code[i] {
                Op::Call(t) => {
                    assert(next(FunctionUse::Call { caller: f }, t) == sel(
                        FunctionUse::Call { caller: f },
                        t,
                    ));
                },
                _ => {},
            }
        }
        assert(redirected_body(next, map, f, code) =~= redirected_body(sel, map, f, code));
    }
    assert forall|e: ElementId| element_table(a).contains_key(e) implies #[trigger] element_table(
        c,
    )[e] == redirected_segment(next, map, e, element_table(a)[e]) by {
        let v = element_table(a)[e];
        assert(element_table(b)[e] == redirected_segment(sel, map, e, v));
        if v is Functions {
            let items = v->Functions_0;
            let was = redirected_segment(sel, map, e, v)->Functions_0;
            let now = redirected_segment(next, map, e, v)->Functions_0;
            if e == element {
                assert forall|i: int| 0 <= i < items.len() implies now[i] == was.update(
                    index as int,
                    map[from],
                )[i] by {
                    if i == index as int {
                        assert(slot(e, i) == site);
                    } else if i <= usize::MAX {
                        assert(slot(e, i) != site);
                        assert(next(slot(e, i), items[i]) == sel(slot(e, i), items[i]));
                    }
                }
                assert(now =~= was.update(index as int, map[from]));
            } else {
                assert forall|i: int| 0 <= i < items.len() implies now[i] == was[i] by {
                    if i <= usize::MAX {
                        assert(slot(e, i) != site);
                        assert(next(slot(e, i), items[i]) == sel(slot(e, i), items[i]));
                    }
                }
                assert(now =~= was);
            }
        }
    }
    assert forall|x: ExportId| export_table(a).contains_key(x) implies #[trigger] export_table(
        c,
    )[x] == redirected_export(next, map, x, export_table(a)[x]) by {
        assert(export_table(b)[x] == redirected_export(sel, map, x, export_table(a)[x]));
        match export_table(a)[x].function {
            Some(t) => {
                assert(next(FunctionUse::Export { export: x }, t) == sel(
                    FunctionUse::Export { export: x },
                    t,
                ));
            },
            None => {},
        }
    }
    assert forall|x: ExportId|
        !(export_table(a).contains_key(x) && export_selected(next, x, export_table(a)[x]))
        implies #[trigger] export_items(c)[x] == export_items(a)[x] by {
        if export_table(a).contains_key(x) {
            match export_table(a)[x].function {
                Some(t) => {
                    assert(next(FunctionUse::Export { export: x }, t) == sel(
                        FunctionUse::Export { export: x },
                        t,
                    ));
                },
                None => {},
            }
        }
        assert(export_items(b)[x] == export_items(a)[x]);
    }
}

/// Assigning the replacement to an export that targeted `from` selects one
/// more site.
proof fn export_step(
    a: Module,
    sel: spec_fn(FunctionUse, FunctionId) -> bool,
    next: spec_fn(FunctionUse, FunctionId) -> bool,
    map: Map<FunctionId, FunctionId>,
    b: Module,
    c: Module,
    export: ExportId,
    from: FunctionId,
)
    requires
        redirected_where(a, sel, map, b),
        one_more(sel, next, FunctionUse::Export { export }, from),
        is_use(a, from, FunctionUse::Export { export }),
        function_ids(c) == function_ids(b),
        function_table(c) == function_table(b),
        function_types(c) == function_types(b),
        element_ids(c) == element_ids(b),
        element_kinds(c) == element_kinds(b),
        element_table(c) == element_table(b),
        same_rest(b, c),
        export_ids(c) == export_ids(b),
        export_items(c).dom() == export_items(b).dom(),
        forall|y: ExportId| y != export ==> #[trigger] export_items(c)[y] == export_items(b)[y],
        export_table(c) == export_table(b).insert(
            export,
            ExportView { name: export_table(b)[export].name, function: Some(map[from]) },
        ),
        local_table(c) == local_table(b),
        type_table(c) == type_table(b),
        interned(c) == interned(b),
        plain_types(c) == plain_types(b),
    ensures
        redirected_where(a, next, map, c),
{
    let site = FunctionUse::Export { export };
    assert forall|f: FunctionId| function_table(a).contains_key(f) implies #[trigger] function_table(
        c,
    )[f] == with_code(
        function_table(a)[f],
        redirected_body(next, map, f, code_of(function_table(a)[f])),
    ) by {
        let code = code_of(function_table(a)[f]);
        assert(function_table(b)[f] == with_code(
            function_table(a)[f],
            redirected_body(sel, map, f, code),
        ));
        assert forall|i: int| 0 <= i < code.len() implies redirected_op(sel, map, f, code[i])
            == redirected_op(next, map, f, code[i]) by {
            match code[i] {
                Op::Call(t) => {
                    assert(next(FunctionUse::Call { caller: f }, t) == sel(
                        FunctionUse::Call { caller: f },
                        t,
                    ));
                },
                _ => {},
            }
        }
        assert(redirected_body(next, map, f, code) =~= redirected_body(sel, map, f, code));
    }
    assert forall|e: ElementId| element_table(a).contains_key(e) implies #[trigger] element_table(
        c,
    )[e] == redirected_segment(next, map, e, element_table(a)[e]) by {
        let v = element_table(a)[e];
        assert(element_table(b)[e] == redirected_segment(sel, map, e, v));
        if v is Functions {
            let items = v->Functions_0;
            assert forall|i: int| 0 <= i < items.len() implies next(slot(e, i), items[i]) == sel(
                slot(e, i),
                items[i],
            ) by {}
            assert(redirected_segment(next, map, e, v)->Functions_0 =~= redirected_segment(
                sel,
                map,
                e,
                v,
            )->Functions_0);
        }
    }
    assert forall|x: ExportId| export_table(a).contains_key(x) implies #[trigger] export_table(
        c,
    )[x] == redirected_export(next, map, x, export_table(a)[x]) by {
        assert(export_table(b)[x] == redirected_export(sel, map, x, export_table(a)[x]));
        if x != export {
            match export_table(a)[x].function {
                Some(t) => {
                    assert(next(FunctionUse::Export { export: x }, t) == sel(
                        FunctionUse::Export { export: x },
                        t,
                    ));
                },
                None => {},
            }
        }
    }
    assert forall|x: ExportId|
        !(export_table(a).contains_key(x) && export_selected(next, x, export_table(a)[x]))
        implies #[trigger] export_items(c)[x] == export_items(a)[x] by {
        if x == export {
            assert(export_table(a)[x].function == Some(from));
            assert(next(site, from));
        } else {
            if export_table(a).contains_key(x) {
                match export_table(a)[x].function {
                    Some(t) => {
                        assert(next(FunctionUse::Export { export: x }, t) == sel(
                            FunctionUse::Export { export: x },
                            t,
                        ));
                    },
                    None => {},
                }
            }
            assert(export_items(b)[x] == export_items(a)[x]);
            assert(export_items(c)[x] == export_items(b)[x]);
        }
    }
}

/// Redirects every use of a replaced function that the graph records to the
/// replacement: the `call` instructions in the bodies of the recorded
/// callers, the recorded element-segment slots and the recorded exports.
/// What the graph does not record stays as it is, so a wrapper that was added
/// after the graph was built keeps calling the function it wraps.
#[verifier::loop_isolation(false)]
pub fn replace_funcs(replace_map: &ReplaceMap, m: &mut Module, call_graph: &CallGraph)
    requires
        replace_map.well_formed(),
        call_graph.well_formed(),
        records_uses_of(*call_graph, replace_map@, *old(m)),
        no_chains(*call_graph, replace_map@),
    ensures
        redirected(*old(m), *call_graph, replace_map@, *final(m)),
        replace_map@.dom() =~= Set::<FunctionId>::empty() ==> *final(m) == *old(m),
        others_resolve(*old(m)) ==> others_resolve(*final(m)),
{
    let ghost start = *m;
    let ghost map = replace_map@;
    let ghost entries = replace_map.entries@;
    let ghost none = Seq::<FunctionUse>::empty();
    proof {
        start_is_redirected(start, done(*call_graph, entries, 0, none, 0), map);
        assert forall|i: int| 0 <= i < entries.len() implies map.contains_key(
            (#[trigger] entries[i]).0,
        ) && map[entries[i].0] == entries[i].1 by {
            replace_map.entry_is_viewed(i);
        }
    }
    let mut k: usize = 0;
    while k < replace_map.entries.len()
        invariant
            k <= entries.len(),
            entries == replace_map.entries@,
            redirected_where(start, done(*call_graph, entries, k as int, none, 0), map, *m),
            entries.len() == 0 ==> *m == start,
            others_resolve(start) ==> others_resolve(*m),
        decreases entries.len() - k,
    {
        let from = replace_map.entries[k].0;
        let to = replace_map.entries[k].1;
        let ghost mut seen = none;
        match call_graph.get_func_uses(&from) {
            None => {},
            Some(uses) => {
                proof {
                    seen = uses@;
                    same_selection(
                        start,
                        done(*call_graph, entries, k as int, none, 0),
                        done(*call_graph, entries, k as int, uses@, 0),
                        map,
                        *m,
                    );
                }
                let mut j: usize = 0;
                while j < uses.len()
                    invariant
                        j <= uses.len(),
                        others_resolve(start) ==> others_resolve(*m),
                        redirected_where(
                            start,
                            done(*call_graph, entries, k as int, uses@, j as int),
                            map,
                            *m,
                        ),
                    decreases uses.len() - j,
                {
                    let ghost sel = done(*call_graph, entries, k as int, uses@, j as int);
                    let ghost next = done(*call_graph, entries, k as int, uses@, j as int + 1);
                    let ghost before = *m;
                    let site = uses[j];
                    proof {
                        assert(uses@.to_set().contains(site));
                        assert(call_graph.uses(from).contains(site));
                        assert(is_use(start, from, site));
                        assert(!sel(site, from)) by {
                            if sel(site, from) {
                                if exists|i: int|
                                    0 <= i < k && (#[trigger] entries[i]).0 == from {
                                    let i = choose|i: int|
                                        0 <= i < k && (#[trigger] entries[i]).0 == from;
                                    assert(entries[i].0 == entries[k as int].0);
                                } else {
                                    let l = choose|l: int| 0 <= l < j && #[trigger] uses@[l] == site;
                                    assert(uses@[l] == uses@[j as int]);
                                }
                            }
                        }
                        assert(next(site, from)) by {
                            assert(uses@[j as int] == site);
                        }
                        assert forall|s: FunctionUse, t: FunctionId|
                            !(s == site && t == from) implies #[trigger] next(s, t) == sel(
                            s,
                            t,
                        ) by {
                            if next(s, t) && !sel(s, t) {
                                let l = choose|l: int|
                                    0 <= l < j + 1 && #[trigger] uses@[l] == s;
                                assert(l == j);
                            }
                            if sel(s, t) && !next(s, t) {
                                if entries[k as int].0 == t && exists|l: int|
                                    0 <= l < j && #[trigger] uses@[l] == s {
                                    let l = choose|l: int| 0 <= l < j && #[trigger] uses@[l] == s;
                                    assert(uses@[l] == s);
                                }
                            }
                        }
                        assert forall|s: FunctionUse, t: FunctionId| #[trigger]
                            sel(s, t) implies map.contains_key(t) by {
                            if exists|i: int|
                                0 <= i < k && (#[trigger] entries[i]).0 == t {
                                let i = choose|i: int| 0 <= i < k && (#[trigger] entries[i]).0 == t;
                                assert(map.contains_key(entries[i].0));
                            }
                        }
                    }
                    match site {
                        FunctionUse::Call { caller } => {
                            proof {
                                assert forall|t: FunctionId| #[trigger]
                                    map.contains_key(t) implies map[t] != from by {
                                    if map[t] == from {
                                        assert(!call_graph.uses(map[t]).contains(site));
                                    }
                                }
                            }
                            redirect_calls(m, caller, from, to);
                            proof {
                                calls_step(start, sel, next, map, before, *m, caller, from);
                            }
                        },
                        FunctionUse::InElement { element, index } => {
                            proof {
                                assert(element_table(before)[element] == redirected_segment(
                                    sel,
                                    map,
                                    element,
                                    element_table(start)[element],
                                ));
                            }
                            set_element_function(m, element, index, to);
                            proof {
                                slot_step(start, sel, next, map, before, *m, element, index, from);
                            }
                        },
                        FunctionUse::Export { export } => {
                            set_export_function(m, export, to);
                            proof {
                                export_step(start, sel, next, map, before, *m, export, from);
                            }
                        },
                    }
                    j = j + 1;
                }
            },
        }
        proof {
            let sel = done(*call_graph, entries, k as int, seen, seen.len() as int);
            let next = done(*call_graph, entries, k as int + 1, none, 0);
            assert forall|s: FunctionUse, t: FunctionId| #[trigger] next(s, t) == sel(s, t) by {
                if t == from {
                    if call_graph@.contains_key(from) {
                        assert(seen.to_set() == call_graph@[from]);
                        if seen.contains(s) {
                            let l = choose|l: int| 0 <= l < seen.len() && seen[l] == s;
                            assert(seen[l] == s);
                        }
                    }
                    if next(s, t) && !sel(s, t) {
                        let i = choose|i: int|
                            0 <= i < k + 1 && (#[trigger] entries[i]).0 == t && call_graph.uses(
                                t,
                            ).contains(s);
                        if i < k {
                            assert(entries[i].0 == t);
                        }
                    }
                    if sel(s, t) && !next(s, t) {
                        assert(entries[k as int].0 == t);
                        if exists|i: int|
                            0 <= i < k && (#[trigger] entries[i]).0 == t && call_graph.uses(
                                t,
                            ).contains(s) {
                            let i = choose|i: int|
                                0 <= i < k && (#[trigger] entries[i]).0 == t && call_graph.uses(
                                    t,
                                ).contains(s);
                            assert(entries[i].0 == t);
                        } else {
                            let l = choose|l: int| 0 <= l < seen.len() && #[trigger] seen[l] == s;
                            assert(seen.contains(s));
                        }
                    }
                } else {
                    if next(s, t) && !sel(s, t) {
                        let i = choose|i: int|
                            0 <= i < k + 1 && (#[trigger] entries[i]).0 == t && call_graph.uses(
                                t,
                            ).contains(s);
                        assert(i < k);
                        assert(entries[i].0 == t);
                    }
                    if sel(s, t) && !next(s, t) {
                        let i = choose|i: int|
                            0 <= i < k && (#[trigger] entries[i]).0 == t && call_graph.uses(
                                t,
                            ).contains(s);
                        assert(entries[i].0 == t);
                    }
                }
            }
            same_selection(start, sel, next, map, *m);
        }
        k = k + 1;
    }
    proof {
        let sel = done(*call_graph, entries, k as int, none, 0);
        let all = recorded(*call_graph, map);
        assert forall|s: FunctionUse, t: FunctionId| #[trigger] all(s, t) == sel(s, t) by {
            if all(s, t) {
                assert(replace_map.has_entry(t));
                let i = replace_map.position(t);
                assert(entries[i].0 == t);
            }
            if sel(s, t) {
                let i = choose|i: int|
                    0 <= i < k && (#[trigger] entries[i]).0 == t && call_graph.uses(t).contains(s);
                assert(map.contains_key(entries[i].0));
            }
        }
        same_selection(start, sel, all, map, *m);
        if map.dom() =~= Set::<FunctionId>::empty() {
            if entries.len() > 0 {
                assert(map.contains_key(entries[0].0));
                assert(map.dom().contains(entries[0].0));
            }
        }
    }
}

/// Redirecting to functions of the module keeps every reference resolved.
pub proof fn redirect_keeps_references(
    a: Module,
    sel: spec_fn(FunctionUse, FunctionId) -> bool,
    map: Map<FunctionId, FunctionId>,
    b: Module,
)
    requires
        redirected_where(a, sel, map, b),
        references_resolve(a),
        forall|s: FunctionUse, t: FunctionId| #[trigger] sel(s, t) ==> map.contains_key(t),
        forall|f: FunctionId| #[trigger]
            map.contains_key(f) ==> function_table(a).contains_key(map[f]),
    ensures
        references_resolve(b),
{
    assert forall|k: int| 0 <= k < function_ids(b).len() implies function_table(b).contains_key(
        #[trigger] function_ids(b)[k],
    ) by {
        assert(function_table(a).contains_key(function_ids(a)[k]));
    }
    assert forall|f: FunctionId| #[trigger] function_table(b).contains_key(f) implies typed(
        b,
        f,
    ) by {
        assert(function_table(a).contains_key(f));
        assert(typed(a, f));
        assert(function_table(b)[f] == with_code(
            function_table(a)[f],
            redirected_body(sel, map, f, code_of(function_table(a)[f])),
        ));
    }
    assert forall|f: FunctionId, i: int|
        function_table(b).contains_key(f) && 0 <= i < code_of(
            function_table(b)[f],
        ).len() implies op_resolves(b, #[trigger] code_of(function_table(b)[f])[i]) by {
        let code = code_of(function_table(a)[f]);
        assert(function_table(a).contains_key(f));
        assert(function_table(b)[f] == with_code(
            function_table(a)[f],
            redirected_body(sel, map, f, code),
        ));
        assert(i < code.len());
        assert(op_resolves(a, code[i]));
        match code[i] {
            Op::Call(t) => {
                assert(function_table(a).contains_key(t));
                if sel(FunctionUse::Call { caller: f }, t) {
                    assert(map.contains_key(t));
                }
            },
            _ => {},
        }
    }
    assert forall|e: ElementId, i: int|
        element_table(b).contains_key(e) && element_table(b)[e] is Functions && 0 <= i
            < element_table(b)[e]->Functions_0.len() implies function_table(b).contains_key(
        #[trigger] element_table(b)[e]->Functions_0[i],
    ) by {
        assert(element_table(a).contains_key(e));
        let v = element_table(a)[e];
        assert(element_table(b)[e] == redirected_segment(sel, map, e, v));
        let t = v->Functions_0[i];
        assert(function_table(a).contains_key(t));
        if i <= usize::MAX && sel(slot(e, i), t) {
            assert(map.contains_key(t));
        }
    }
    assert forall|x: ExportId| #[trigger] export_table(b).contains_key(x) implies match export_table(
        b,
    )[x].function {
        Some(g) => function_table(b).contains_key(g),
        None => true,
    } by {
        assert(export_table(a).contains_key(x));
        assert(export_table(b)[x] == redirected_export(sel, map, x, export_table(a)[x]));
        match export_table(a)[x].function {
            Some(t) => {
                assert(function_table(a).contains_key(t));
                if sel(FunctionUse::Export { export: x }, t) {
                    assert(map.contains_key(t));
                }
            },
            None => {},
        }
    }
}

/// A module is itself with nothing redirected.
pub proof fn start_is_redirected(
    a: Module,
    sel: spec_fn(FunctionUse, FunctionId) -> bool,
    map: Map<FunctionId, FunctionId>,
)
    requires
        forall|s: FunctionUse, t: FunctionId| !#[trigger] sel(s, t),
    ensures
        redirected_where(a, sel, map, a),
{
    assert forall|f: FunctionId| function_table(a).contains_key(f) implies #[trigger] function_table(
        a,
    )[f] == with_code(
        function_table(a)[f],
        redirected_body(sel, map, f, code_of(function_table(a)[f])),
    ) by {
        let code = code_of(function_table(a)[f]);
        assert forall|i: int| 0 <= i < code.len() implies redirected_op(sel, map, f, code[i])
            == code[i] by {
            match code[i] {
                Op::Call(t) => {
                    assert(!sel(FunctionUse::Call { caller: f }, t));
                },
                _ => {},
            }
        }
        assert(redirected_body(sel, map, f, code) =~= code);
    }
    assert forall|e: ElementId| element_table(a).contains_key(e) implies #[trigger] element_table(
        a,
    )[e] == redirected_segment(sel, map, e, element_table(a)[e]) by {
        let v = element_table(a)[e];
        if v is Functions {
            let items = v->Functions_0;
            assert forall|i: int| 0 <= i < items.len() implies !sel(slot(e, i), items[i]) by {}
            assert(redirected_segment(sel, map, e, v)->Functions_0 =~= items);
        }
    }
    assert forall|x: ExportId| export_table(a).contains_key(x) implies #[trigger] export_table(
        a,
    )[x] == redirected_export(sel, map, x, export_table(a)[x]) by {
        match export_table(a)[x].function {
            Some(t) => {
                assert(!sel(FunctionUse::Export { export: x }, t));
            },
            None => {},
        }
    }
}

} // verus!
