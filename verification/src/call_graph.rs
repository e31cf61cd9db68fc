//! Which sites of a module refer to which function.

use crate::error::InstrumentError;
use crate::wasm::{
    arena_index, call_target, call_targets, code_of, direct_calls, element_table, elements,
    export_table, exports, extends, function_index, function_table, functions,
    has_expression_segment, is_local,
    lists_element, lists_export, lists_function, op_resolves, references_resolve, same_id,
    ElementEntry, ExportEntry, FunctionEntry, Op,
};
use std::collections::HashMap;
use vstd::prelude::*;
use walrus::{ElementId, ExportId, FunctionId, Module};

verus! {

/// A site of a module that refers to a function by index.
#[derive(Debug, Hash, PartialEq, Eq, Clone, Copy)]
pub enum FunctionUse {
    /// At least one `call` instruction in the body of `caller`.
    Call { caller: FunctionId },
    /// The slot `index` of the element segment `element`.
    InElement { element: ElementId, index: usize },
    /// The function export `export`.
    Export { export: ExportId },
}

/// Whether `u` is a site of `m` that refers to `callee`.
pub open spec fn is_use(m: Module, callee: FunctionId, u: FunctionUse) -> bool {
    match u {
        FunctionUse::Call { caller } => is_local(m, caller) && call_targets(
            code_of(function_table(m)[caller]),
        ).contains(callee),
        FunctionUse::InElement { element, index } => {
            &&& element_table(m).contains_key(element)
            &&& element_table(m)[element] is Functions
            &&& index < element_table(m)[element]->Functions_0.len()
            &&& element_table(m)[element]->Functions_0[index as int] == callee
        },
        FunctionUse::Export { export } => export_table(m).contains_key(export) && export_table(
            m,
        )[export].function == Some(callee),
    }
}

/// Whether some site of `m` refers to `f`.
pub open spec fn referred_to(m: Module, f: FunctionId) -> bool {
    exists|u: FunctionUse| is_use(m, f, u)
}

/// The sites of `m` that refer to `callee`.
pub open spec fn uses_in(m: Module, callee: FunctionId) -> Set<FunctionUse> {
    Set::new(|u: FunctionUse| is_use(m, callee, u))
}

/// A site of `a` is a site of any module that holds the functions, the
/// element segments and the exports of `a` as they are.
pub proof fn use_is_kept(a: Module, b: Module, f: FunctionId, u: FunctionUse)
    requires
        is_use(a, f, u),
        extends(a, b),
    ensures
        is_use(b, f, u),
{
    match u {
        FunctionUse::Call { caller } => {
            assert(function_table(a).contains_key(caller));
        },
        _ => {},
    }
}

/// Where every reference of a module resolves, a function that one of its
/// sites refers to is a function of the module.
pub proof fn used_is_function(m: Module, f: FunctionId, u: FunctionUse)
    requires
        references_resolve(m),
        is_use(m, f, u),
    ensures
        function_table(m).contains_key(f),
{
    match u {
        FunctionUse::Call { caller } => {
            let code = code_of(function_table(m)[caller]);
            code.lemma_filter_map_contains(|op: Op| call_target(op), f);
            let op = choose|op: Op| #[trigger] code.contains(op) && call_target(op) == Some(f);
            let i = choose|i: int| 0 <= i < code.len() && code[i] == op;
            assert(op_resolves(m, code[i]));
        },
        FunctionUse::InElement { element, index } => {
            let items = element_table(m)[element]->Functions_0;
            assert(items[index as int] == f);
        },
        FunctionUse::Export { export } => {
            assert(export_table(m).contains_key(export));
        },
    }
}

/// Equality of use-sites.
pub fn same_use(a: &FunctionUse, b: &FunctionUse) -> (r: bool)
    ensures
        r == (*a == *b),
{
    match a {
        FunctionUse::Call { caller } => match b {
            FunctionUse::Call { caller: other } => same_id(*caller, *other),
            _ => false,
        },
        FunctionUse::InElement { element, index } => match b {
            FunctionUse::InElement { element: other, index: other_index } => same_id(
                *element,
                *other,
            ) && *index == *other_index,
            _ => false,
        },
        FunctionUse::Export { export } => match b {
            FunctionUse::Export { export: other } => same_id(*export, *other),
            _ => false,
        },
    }
}

fn contains_use(uses: &Vec<FunctionUse>, u: &FunctionUse) -> (r: bool)
    ensures
        r == uses@.contains(*u),
{
    let mut i: usize = 0;
    while i < uses.len()
        invariant
            i <= uses.len(),
            forall|k: int| 0 <= k < i ==> uses@[k] != *u,
        decreases uses.len() - i,
    {
        if same_use(&uses[i], u) {
            return true;
        }
        i = i + 1;
    }
    false
}

/// Whether `u` is a call site in one of the first `n` functions of `fs`.
spec fn call_recorded(
    m: Module,
    fs: Seq<FunctionEntry>,
    n: int,
    g: FunctionId,
    u: FunctionUse,
) -> bool {
    match u {
        FunctionUse::Call { caller } => exists|k: int|
            0 <= k < n && (#[trigger] fs[k]).id == caller && fs[k].local && call_targets(
                code_of(function_table(m)[caller]),
            ).contains(g),
        _ => false,
    }
}

/// Whether `u` is the call site in `caller`, given that `g` is among the
/// first `n` of its call targets.
spec fn call_seen(
    caller: FunctionId,
    targets: Seq<FunctionId>,
    n: int,
    g: FunctionId,
    u: FunctionUse,
) -> bool {
    u == (FunctionUse::Call { caller }) && exists|l: int| 0 <= l < n && #[trigger] targets[l] == g
}

/// Whether `u` is a slot of one of the first `n` segments of `es`.
spec fn element_recorded(es: Seq<ElementEntry>, n: int, g: FunctionId, u: FunctionUse) -> bool {
    match u {
        FunctionUse::InElement { element, index } => exists|k: int|
            0 <= k < n && (#[trigger] es[k]).id == element && slot_holds(
                es[k],
                index as int,
                index as int + 1,
                g,
            ),
        _ => false,
    }
}

/// Whether slot `index` of the segment `e` lies below `bound` and holds `g`.
spec fn slot_holds(e: ElementEntry, index: int, bound: int, g: FunctionId) -> bool {
    match e.functions {
        Some(items) => 0 <= index < items@.len() && index < bound && items@[index] == g,
        None => false,
    }
}

/// Whether `u` is one of the first `n` slots of the segment `e`.
spec fn slot_seen(e: ElementEntry, n: int, g: FunctionId, u: FunctionUse) -> bool {
    match u {
        FunctionUse::InElement { element, index } => element == e.id && slot_holds(
            e,
            index as int,
            n,
            g,
        ),
        _ => false,
    }
}

/// Whether `u` is one of the first `n` exports of `xs`.
spec fn export_recorded(xs: Seq<ExportEntry>, n: int, g: FunctionId, u: FunctionUse) -> bool {
    match u {
        FunctionUse::Export { export } => exists|k: int|
            0 <= k < n && (#[trigger] xs[k]).id == export && xs[k].function == Some(g),
        _ => false,
    }
}

proof fn call_recorded_step(
    m: Module,
    fs: Seq<FunctionEntry>,
    n: int,
    targets: Seq<FunctionId>,
    g: FunctionId,
    u: FunctionUse,
)
    requires
        0 <= n < fs.len(),
        fs[n].local ==> targets == call_targets(code_of(function_table(m)[fs[n].id])),
    ensures
        call_recorded(m, fs, n + 1, g, u) <==> call_recorded(m, fs, n, g, u) || (fs[n].local
            && call_seen(fs[n].id, targets, targets.len() as int, g, u)),
{
    if call_recorded(m, fs, n + 1, g, u) && !call_recorded(m, fs, n, g, u) {
        let caller = u->Call_caller;
        let k = choose|k: int|
            0 <= k < n + 1 && (#[trigger] fs[k]).id == caller && fs[k].local && call_targets(
                code_of(function_table(m)[caller]),
            ).contains(g);
        assert(k == n);
        let l = choose|l: int| 0 <= l < targets.len() && targets[l] == g;
        assert(targets[l] == g);
    }
    if fs[n].local && call_seen(fs[n].id, targets, targets.len() as int, g, u) {
        let l = choose|l: int| 0 <= l < targets.len() && #[trigger] targets[l] == g;
        assert(targets.contains(g));
        assert(fs[n].id == u->Call_caller);
    }
    if call_recorded(m, fs, n, g, u) {
        let caller = u->Call_caller;
        let k = choose|k: int|
            0 <= k < n && (#[trigger] fs[k]).id == caller && fs[k].local && call_targets(
                code_of(function_table(m)[caller]),
            ).contains(g);
        assert(fs[k].id == caller);
    }
}

proof fn element_recorded_step(es: Seq<ElementEntry>, n: int, g: FunctionId, u: FunctionUse)
    requires
        0 <= n < es.len(),
    ensures
        element_recorded(es, n + 1, g, u) <==> element_recorded(es, n, g, u) || slot_seen(
            es[n],
            match es[n].functions {
                Some(items) => items@.len() as int,
                None => 0,
            },
            g,
            u,
        ),
{
    if element_recorded(es, n + 1, g, u) && !element_recorded(es, n, g, u) {
        let element = u->InElement_element;
        let index = u->InElement_index;
        let k = choose|k: int|
            0 <= k < n + 1 && (#[trigger] es[k]).id == element && slot_holds(
                es[k],
                index as int,
                index as int + 1,
                g,
            );
        assert(k == n);
    }
    if element_recorded(es, n, g, u) {
        let element = u->InElement_element;
        let index = u->InElement_index;
        let k = choose|k: int|
            0 <= k < n && (#[trigger] es[k]).id == element && slot_holds(
                es[k],
                index as int,
                index as int + 1,
                g,
            );
        assert(es[k].id == element);
    }
    if slot_seen(
        es[n],
        match es[n].functions {
            Some(items) => items@.len() as int,
            None => 0,
        },
        g,
        u,
    ) {
        assert(es[n].id == u->InElement_element);
    }
}

proof fn export_recorded_step(xs: Seq<ExportEntry>, n: int, g: FunctionId, u: FunctionUse)
    requires
        0 <= n < xs.len(),
    ensures
        export_recorded(xs, n + 1, g, u) <==> export_recorded(xs, n, g, u) || (u == (
            FunctionUse::Export { export: xs[n].id }) && xs[n].function == Some(g)),
{
    if export_recorded(xs, n + 1, g, u) && !export_recorded(xs, n, g, u) {
        let export = u->Export_export;
        let k = choose|k: int|
            0 <= k < n + 1 && (#[trigger] xs[k]).id == export && xs[k].function == Some(g);
        assert(k == n);
    }
    if export_recorded(xs, n, g, u) {
        let export = u->Export_export;
        let k = choose|k: int|
            0 <= k < n && (#[trigger] xs[k]).id == export && xs[k].function == Some(g);
        assert(xs[k].id == export);
    }
    if u == (FunctionUse::Export { export: xs[n].id }) && xs[n].function == Some(g) {
        assert(xs[n].id == u->Export_export);
    }
}

/// What the three listings of a module record is what `is_use` says.
proof fn recorded_is_use(
    m: Module,
    fs: Seq<FunctionEntry>,
    es: Seq<ElementEntry>,
    xs: Seq<ExportEntry>,
    g: FunctionId,
    u: FunctionUse,
)
    requires
        forall|f: FunctionId| #[trigger]
            function_table(m).contains_key(f) <==> lists_function(fs, f),
        forall|i: int|
            0 <= i < fs.len() ==> (#[trigger] fs[i]).describes(function_table(m)[fs[i].id]),
        forall|e: ElementId| #[trigger] element_table(m).contains_key(e) <==> lists_element(es, e),
        forall|i: int|
            0 <= i < es.len() ==> (#[trigger] es[i]).describes(element_table(m)[es[i].id]),
        forall|x: ExportId| #[trigger] export_table(m).contains_key(x) <==> lists_export(xs, x),
        forall|i: int|
            0 <= i < xs.len() ==> (#[trigger] xs[i]).function == export_table(
                m,
            )[xs[i].id].function,
    ensures
        is_use(m, g, u) <==> call_recorded(m, fs, fs.len() as int, g, u) || element_recorded(
            es,
            es.len() as int,
            g,
            u,
        ) || export_recorded(xs, xs.len() as int, g, u),
{
    match u {
        FunctionUse::Call { caller } => {
            if is_use(m, g, u) {
                assert(lists_function(fs, caller));
                let k = choose|k: int| 0 <= k < fs.len() && (#[trigger] fs[k]).id == caller;
                assert(fs[k].describes(function_table(m)[fs[k].id]));
            }
            if call_recorded(m, fs, fs.len() as int, g, u) {
                let k = choose|k: int|
                    0 <= k < fs.len() && (#[trigger] fs[k]).id == caller && fs[k].local
                        && call_targets(code_of(function_table(m)[caller])).contains(g);
                assert(fs[k].describes(function_table(m)[fs[k].id]));
                assert(lists_function(fs, caller));
            }
        },
        FunctionUse::InElement { element, index } => {
            if is_use(m, g, u) {
                assert(lists_element(es, element));
                let k = choose|k: int| 0 <= k < es.len() && (#[trigger] es[k]).id == element;
                assert(es[k].describes(element_table(m)[es[k].id]));
                assert(slot_holds(es[k], index as int, index as int + 1, g));
            }
            if element_recorded(es, es.len() as int, g, u) {
                let k = choose|k: int|
                    0 <= k < es.len() && (#[trigger] es[k]).id == element && slot_holds(
                        es[k],
                        index as int,
                        index as int + 1,
                        g,
                    );
                assert(es[k].describes(element_table(m)[es[k].id]));
                assert(lists_element(es, element));
            }
        },
        FunctionUse::Export { export } => {
            if is_use(m, g, u) {
                assert(lists_export(xs, export));
                let k = choose|k: int| 0 <= k < xs.len() && (#[trigger] xs[k]).id == export;
                assert(xs[k].function == export_table(m)[xs[k].id].function);
            }
            if export_recorded(xs, xs.len() as int, g, u) {
                let k = choose|k: int|
                    0 <= k < xs.len() && (#[trigger] xs[k]).id == export && xs[k].function
                        == Some(g);
                assert(xs[k].function == export_table(m)[xs[k].id].function);
                assert(lists_export(xs, export));
            }
        },
    }
}

/// The sites that refer to one function.
#[derive(Debug)]
pub struct CalleeUses {
    callee: FunctionId,
    uses: Vec<FunctionUse>,
}

/// For each function, the set of sites that refer to it.
///
/// The entries are kept in buckets by the arena index of the function, so
/// that an entry is found without a walk over all of them.
#[derive(Debug)]
pub struct CallGraph {
    callee_to_uses: HashMap<usize, Vec<CalleeUses>>,
}

impl View for CallGraph {
    type V = Map<FunctionId, Set<FunctionUse>>;

    closed spec fn view(&self) -> Map<FunctionId, Set<FunctionUse>> {
        Map::new(
            |f: FunctionId| self.has_entry(f),
            |f: FunctionId| self.bucket(f)[self.position(f)].uses@.to_set(),
        )
    }
}

impl Default for CallGraph {
    fn default() -> (graph: CallGraph)
        ensures
            graph.well_formed(),
            graph@ == Map::<FunctionId, Set<FunctionUse>>::empty(),
    {
        let graph = CallGraph { callee_to_uses: HashMap::new() };
        assert(graph@ =~= Map::<FunctionId, Set<FunctionUse>>::empty());
        graph
    }
}

/// Whether the entries of a bucket are for distinct functions, all of the
/// arena index `key`, and each lists at least one site and none twice.
spec fn bucket_well_formed(key: usize, bucket: Seq<CalleeUses>) -> bool {
    &&& forall|i: int, j: int| 0 <= i < j < bucket.len() ==> bucket[i].callee != bucket[j].callee
    &&& forall|i: int|
        0 <= i < bucket.len() ==> arena_index((#[trigger] bucket[i]).callee) == key
            && bucket[i].uses@.no_duplicates() && bucket[i].uses@.len() > 0
}

/// Whether a bucket has an entry for `f`.
spec fn bucket_has(bucket: Seq<CalleeUses>, f: FunctionId) -> bool {
    exists|i: int| 0 <= i < bucket.len() && (#[trigger] bucket[i]).callee == f
}

/// Where the entry for `f` stands in a bucket that has one.
spec fn bucket_position(bucket: Seq<CalleeUses>, f: FunctionId) -> int {
    choose|i: int| 0 <= i < bucket.len() && (#[trigger] bucket[i]).callee == f
}

/// The sites that a bucket lists for `f`.
spec fn bucket_uses(bucket: Seq<CalleeUses>, f: FunctionId) -> Set<FunctionUse> {
    if bucket_has(bucket, f) {
        bucket[bucket_position(bucket, f)].uses@.to_set()
    } else {
        Set::empty()
    }
}

proof fn bucket_entry(key: usize, bucket: Seq<CalleeUses>, i: int)
    requires
        bucket_well_formed(key, bucket),
        0 <= i < bucket.len(),
    ensures
        bucket_has(bucket, bucket[i].callee),
        bucket_position(bucket, bucket[i].callee) == i,
        bucket_uses(bucket, bucket[i].callee) == bucket[i].uses@.to_set(),
{
    let f = bucket[i].callee;
    assert(bucket_has(bucket, f));
    assert(bucket_position(bucket, f) == i);
}

fn find_in_bucket(bucket: &Vec<CalleeUses>, callee: FunctionId) -> (r: Option<usize>)
    ensures
        match r {
            Some(i) => i < bucket@.len() && bucket@[i as int].callee == callee,
            None => !bucket_has(bucket@, callee),
        },
{
    let mut i: usize = 0;
    while i < bucket.len()
        invariant
            i <= bucket@.len(),
            forall|k: int| 0 <= k < i ==> bucket@[k].callee != callee,
        decreases bucket@.len() - i,
    {
        if same_id(bucket[i].callee, callee) {
            return Some(i);
        }
        i = i + 1;
    }
    None
}

/// Adds a site to the entry of a bucket for `callee`, or an entry with that
/// site where the bucket has none.
fn add_to_bucket(bucket: &mut Vec<CalleeUses>, callee: FunctionId, use_entry: FunctionUse)
    requires
        bucket_well_formed(arena_index(callee), old(bucket)@),
    ensures
        bucket_well_formed(arena_index(callee), final(bucket)@),
        bucket_has(final(bucket)@, callee),
        bucket_uses(final(bucket)@, callee) == bucket_uses(old(bucket)@, callee).insert(use_entry),
        forall|f: FunctionId|
            f != callee ==> (#[trigger] bucket_has(final(bucket)@, f) <==> bucket_has(
                old(bucket)@,
                f,
            )),
        forall|f: FunctionId|
            f != callee ==> #[trigger] bucket_uses(final(bucket)@, f) == bucket_uses(
                old(bucket)@,
                f,
            ),
{
    let ghost key = arena_index(callee);
    let ghost before = bucket@;
    match find_in_bucket(bucket, callee) {
        Some(i) => {
            proof {
                bucket_entry(key, before, i as int);
            }
            if !contains_use(&bucket[i].uses, &use_entry) {
                let mut entry = bucket.remove(i);
                entry.uses.push(use_entry);
                bucket.insert(i, entry);
                proof {
                    assert(bucket@ =~= before.update(i as int, bucket@[i as int]));
                    before[i as int].uses@.lemma_push_to_set_commute(use_entry);
                }
            } else {
                assert(bucket_uses(before, callee).insert(use_entry) =~= bucket_uses(
                    before,
                    callee,
                ));
            }
            proof {
                assert(bucket@.len() == before.len());
                assert forall|k: int| 0 <= k < bucket@.len() implies (#[trigger] bucket@[k]).callee
                    == before[k].callee by {}
                assert(bucket_well_formed(key, bucket@));
                bucket_entry(key, bucket@, i as int);
            }
        },
        None => {
            let mut uses: Vec<FunctionUse> = Vec::new();
            uses.push(use_entry);
            proof {
                Seq::<FunctionUse>::empty().lemma_push_to_set_commute(use_entry);
                assert(Seq::<FunctionUse>::empty().to_set() =~= Set::<FunctionUse>::empty());
                assert(uses@ =~= Seq::<FunctionUse>::empty().push(use_entry));
            }
            bucket.push(CalleeUses { callee, uses });
            proof {
                assert forall|k: int| 0 <= k < before.len() implies (#[trigger] bucket@[k])
                    == before[k] by {}
                assert(bucket_well_formed(key, bucket@));
                bucket_entry(key, bucket@, before.len() as int);
            }
        },
    }
    proof {
        let after = bucket@;
        assert forall|f: FunctionId| f != callee implies (#[trigger] bucket_has(after, f)
            <==> bucket_has(before, f)) && bucket_uses(after, f) == bucket_uses(before, f) by {
            if bucket_has(after, f) {
                let p = bucket_position(after, f);
                assert(p < before.len());
                assert(before[p].callee == f);
                bucket_entry(key, before, p);
                bucket_entry(key, after, p);
                assert(after[p].uses == before[p].uses);
            }
            if bucket_has(before, f) {
                let p = bucket_position(before, f);
                assert(after[p].callee == f);
            }
        }
    }
}

impl CallGraph {
    /// No function has two entries, and every entry lists at least one site
    /// and none twice.
    pub closed spec fn well_formed(&self) -> bool {
        forall|key: usize| #[trigger]
            self.callee_to_uses@.contains_key(key) ==> bucket_well_formed(
                key,
                self.callee_to_uses@[key]@,
            )
    }

    /// The bucket in which the entry for `f` stands, if there is one.
    spec fn bucket(&self, f: FunctionId) -> Seq<CalleeUses> {
        if self.callee_to_uses@.contains_key(arena_index(f)) {
            self.callee_to_uses@[arena_index(f)]@
        } else {
            Seq::empty()
        }
    }

    spec fn has_entry(&self, f: FunctionId) -> bool {
        bucket_has(self.bucket(f), f)
    }

    spec fn position(&self, f: FunctionId) -> int {
        bucket_position(self.bucket(f), f)
    }

    /// The sites recorded for `f`; none where the graph has no entry for it.
    pub open spec fn uses(&self, f: FunctionId) -> Set<FunctionUse> {
        if self@.contains_key(f) {
            self@[f]
        } else {
            Set::empty()
        }
    }

    proof fn uses_are_bucket_uses(&self, f: FunctionId)
        ensures
            self@.contains_key(f) <==> bucket_has(self.bucket(f), f),
            self.uses(f) == bucket_uses(self.bucket(f), f),
    {
    }

    /// The sites recorded for a function, each once and at least one, or
    /// `None` where none is recorded.
    pub fn get_func_uses(&self, func_id: &FunctionId) -> (r: Option<&Vec<FunctionUse>>)
        requires
            self.well_formed(),
        ensures
            match r {
                Some(uses) => self@.contains_key(*func_id) && uses@.to_set() == self@[*func_id]
                    && uses@.no_duplicates() && uses@.len() > 0,
                None => !self@.contains_key(*func_id),
            },
    {
        let key = function_index(*func_id);
        match self.callee_to_uses.get(&key) {
            Some(bucket) => {
                match find_in_bucket(bucket, *func_id) {
                    Some(i) => {
                        proof {
                            bucket_entry(key, bucket@, i as int);
                        }
                        Some(&bucket[i].uses)
                    },
                    None => None,
                }
            },
            None => {
                assert(!bucket_has(Seq::<CalleeUses>::empty(), *func_id));
                None
            },
        }
    }

    /// Records that `use_entry` refers to `callee`.
    pub fn add_use(&mut self, callee: FunctionId, use_entry: FunctionUse)
        requires
            old(self).well_formed(),
        ensures
            final(self).well_formed(),
            final(self)@ == old(self)@.insert(callee, old(self).uses(callee).insert(use_entry)),
    {
        let ghost before = *self;
        let key = function_index(callee);
        let mut bucket = match self.callee_to_uses.remove(&key) {
            Some(bucket) => bucket,
            None => Vec::new(),
        };
        proof {
            assert(bucket@ =~= before.bucket(callee));
            assert(!bucket_has(Seq::<CalleeUses>::empty(), callee));
        }
        let ghost taken = bucket@;
        add_to_bucket(&mut bucket, callee, use_entry);
        let ghost grown = bucket@;
        self.callee_to_uses.insert(key, bucket);
        proof {
            let after = *self;
            let expected = before@.insert(callee, before.uses(callee).insert(use_entry));
            assert(after.callee_to_uses@ =~= before.callee_to_uses@.insert(
                key,
                after.callee_to_uses@[key],
            ));
            assert(after.well_formed());
            assert forall|f: FunctionId|
                after@.contains_key(f) == expected.contains_key(f) && (after@.contains_key(f)
                    ==> after@[f] == expected[f]) by {
                before.uses_are_bucket_uses(f);
                after.uses_are_bucket_uses(f);
                if arena_index(f) == key {
                    assert(after.bucket(f) == grown);
                    assert(before.bucket(f) == taken);
                } else {
                    assert(after.bucket(f) == before.bucket(f));
                }
            }
            assert(after@ =~= expected);
        }
    }

    /// Whether the graph records, for every function, exactly the sites of
    /// `m` that refer to it, and has an entry for exactly the functions that
    /// some site of `m` refers to.
    pub open spec fn describes(&self, m: Module) -> bool {
        &&& forall|f: FunctionId| #[trigger] self.uses(f) == uses_in(m, f)
        &&& forall|f: FunctionId| #[trigger] self@.contains_key(f) <==> referred_to(m, f)
    }

    /// An entry of the graph lists at least one site.
    pub proof fn entry_has_site(&self, f: FunctionId)
        requires
            self.well_formed(),
            self@.contains_key(f),
        ensures
            exists|u: FunctionUse| self@[f].contains(u),
    {
        let bucket = self.bucket(f);
        assert(bucket_has(bucket, f));
        let p = self.position(f);
        assert(0 <= p < bucket.len() && bucket[p].callee == f);
        assert(self.callee_to_uses@.contains_key(arena_index(f)));
        assert(bucket_well_formed(arena_index(f), bucket));
        bucket_entry(arena_index(f), bucket, p);
        assert(bucket[p].uses@.len() > 0);
        let u = bucket[p].uses@[0];
        assert(bucket[p].uses@.to_set().contains(u));
        assert(self@[f] == bucket[p].uses@.to_set());
        assert(self@[f].contains(u));
    }

    /// The call graph of a module: for every function, the functions whose
    /// bodies call it, the element-segment slots that hold it and the exports
    /// that target it. Fails on a module with an element segment of
    /// constant expressions.
    #[verifier::loop_isolation(false)]
    pub fn build_from(module: &Module) -> (r: Result<CallGraph, InstrumentError>)
        ensures
            match r {
                Ok(graph) => !has_expression_segment(*module) && graph.well_formed()
                    && graph.describes(*module),
                Err(e) => e == InstrumentError::UnsupportedElementForm && has_expression_segment(
                    *module,
                ),
            },
    {
        let mut graph = CallGraph::default();
        let fs = functions(module);
        let mut i: usize = 0;
        while i < fs.len()
            invariant
                i <= fs.len(),
                graph.well_formed(),
                forall|g: FunctionId, u: FunctionUse|
                    #[trigger] graph.uses(g).contains(u) <==> call_recorded(
                        *module,
                        fs@,
                        i as int,
                        g,
                        u,
                    ),
            decreases fs.len() - i,
        {
            let caller = fs[i].id;
            let ghost mut targets_seen = Seq::<FunctionId>::empty();
            if fs[i].local {
                assert(lists_function(fs@, caller));
                let targets = direct_calls(module, caller);
                proof {
                    targets_seen = targets@;
                }
                let mut j: usize = 0;
                while j < targets.len()
                    invariant
                        j <= targets.len(),
                        graph.well_formed(),
                        forall|g: FunctionId, u: FunctionUse|
                            #[trigger] graph.uses(g).contains(u) <==> call_recorded(
                                *module,
                                fs@,
                                i as int,
                                g,
                                u,
                            ) || call_seen(caller, targets@, j as int, g, u),
                    decreases targets.len() - j,
                {
                    let ghost before = graph;
                    graph.add_use(targets[j], FunctionUse::Call { caller });
                    proof {
                        assert forall|g: FunctionId, u: FunctionUse|
                            #[trigger] graph.uses(g).contains(u) <==> call_recorded(
                                *module,
                                fs@,
                                i as int,
                                g,
                                u,
                            ) || call_seen(caller, targets@, j as int + 1, g, u) by {
                            assert(before.uses(g).contains(u) <==> call_recorded(
                                *module,
                                fs@,
                                i as int,
                                g,
                                u,
                            ) || call_seen(caller, targets@, j as int, g, u));
                            if call_seen(caller, targets@, j as int + 1, g, u) && !call_seen(
                                caller,
                                targets@,
                                j as int,
                                g,
                                u,
                            ) {
                                let l = choose|l: int|
                                    0 <= l < j as int + 1 && #[trigger] targets@[l] == g;
                                assert(l == j);
                            }
                            if call_seen(caller, targets@, j as int, g, u) {
                                let l = choose|l: int| 0 <= l < j as int && #[trigger] targets@[l] == g;
                                assert(targets@[l] == g);
                            }
                            if g == targets@[j as int] && u == (FunctionUse::Call { caller }) {
                                assert(targets@[j as int] == g);
                            }
                        }
                    }
                    j = j + 1;
                }
            }
            proof {
                assert forall|g: FunctionId, u: FunctionUse|
                    #[trigger] graph.uses(g).contains(u) <==> call_recorded(
                        *module,
                        fs@,
                        i as int + 1,
                        g,
                        u,
                    ) by {
                    call_recorded_step(*module, fs@, i as int, targets_seen, g, u);
                }
            }
            i = i + 1;
        }
        let es = elements(module);
        let mut i: usize = 0;
        while i < es.len()
            invariant
                i <= es.len(),
                graph.well_formed(),
                forall|k: int| 0 <= k < i ==> (#[trigger] es@[k]).functions is Some,
                forall|g: FunctionId, u: FunctionUse|
                    #[trigger] graph.uses(g).contains(u) <==> call_recorded(
                        *module,
                        fs@,
                        fs@.len() as int,
                        g,
                        u,
                    ) || element_recorded(es@, i as int, g, u),
            decreases es.len() - i,
        {
            let element = es[i].id;
            match &es[i].functions {
                None => {
                    proof {
                        assert(lists_element(es@, element));
                        assert(es@[i as int].describes(element_table(*module)[element]));
                        assert(es@[i as int].functions is None);
                        assert(element_table(*module).contains_key(element));
                        assert(element_table(*module)[element] is Expressions);
                    }
                    return Err(InstrumentError::UnsupportedElementForm);
                },
                Some(items) => {
                    let mut index: usize = 0;
                    while index < items.len()
                        invariant
                            index <= items.len(),
                            graph.well_formed(),
                            forall|g: FunctionId, u: FunctionUse|
                                #[trigger] graph.uses(g).contains(u) <==> call_recorded(
                                    *module,
                                    fs@,
                                    fs@.len() as int,
                                    g,
                                    u,
                                ) || element_recorded(es@, i as int, g, u) || slot_seen(
                                    es@[i as int],
                                    index as int,
                                    g,
                                    u,
                                ),
                        decreases items.len() - index,
                    {
                        let ghost before = graph;
                        graph.add_use(items[index], FunctionUse::InElement { element, index });
                        proof {
                            assert forall|g: FunctionId, u: FunctionUse|
                                #[trigger] graph.uses(g).contains(u) <==> call_recorded(
                                    *module,
                                    fs@,
                                    fs@.len() as int,
                                    g,
                                    u,
                                ) || element_recorded(es@, i as int, g, u) || slot_seen(
                                    es@[i as int],
                                    index as int + 1,
                                    g,
                                    u,
                                ) by {
                                assert(before.uses(g).contains(u) <==> call_recorded(
                                    *module,
                                    fs@,
                                    fs@.len() as int,
                                    g,
                                    u,
                                ) || element_recorded(es@, i as int, g, u) || slot_seen(
                                    es@[i as int],
                                    index as int,
                                    g,
                                    u,
                                ));
                            }
                        }
                        index = index + 1;
                    }
                },
            }
            proof {
                assert forall|g: FunctionId, u: FunctionUse|
                    #[trigger] graph.uses(g).contains(u) <==> call_recorded(
                        *module,
                        fs@,
                        fs@.len() as int,
                        g,
                        u,
                    ) || element_recorded(es@, i as int + 1, g, u) by {
                    element_recorded_step(es@, i as int, g, u);
                }
            }
            i = i + 1;
        }
        let xs = exports(module);
        let mut i: usize = 0;
        while i < xs.len()
            invariant
                i <= xs.len(),
                graph.well_formed(),
                forall|g: FunctionId, u: FunctionUse|
                    #[trigger] graph.uses(g).contains(u) <==> call_recorded(
                        *module,
                        fs@,
                        fs@.len() as int,
                        g,
                        u,
                    ) || element_recorded(es@, es@.len() as int, g, u) || export_recorded(
                        xs@,
                        i as int,
                        g,
                        u,
                    ),
            decreases xs.len() - i,
        {
            let export = xs[i].id;
            let ghost before = graph;
            match xs[i].function {
                Some(func) => {
                    graph.add_use(func, FunctionUse::Export { export });
                },
                None => {},
            }
            proof {
                assert forall|g: FunctionId, u: FunctionUse|
                    #[trigger] graph.uses(g).contains(u) <==> call_recorded(
                        *module,
                        fs@,
                        fs@.len() as int,
                        g,
                        u,
                    ) || element_recorded(es@, es@.len() as int, g, u) || export_recorded(
                        xs@,
                        i as int + 1,
                        g,
                        u,
                    ) by {
                    assert(before.uses(g).contains(u) <==> call_recorded(
                        *module,
                        fs@,
                        fs@.len() as int,
                        g,
                        u,
                    ) || element_recorded(es@, es@.len() as int, g, u) || export_recorded(
                        xs@,
                        i as int,
                        g,
                        u,
                    ));
                    export_recorded_step(xs@, i as int, g, u);
                }
            }
            i = i + 1;
        }
        proof {
            assert forall|f: FunctionId| #[trigger] graph.uses(f) == uses_in(*module, f) by {
                assert forall|u: FunctionUse|
                    graph.uses(f).contains(u) <==> uses_in(*module, f).contains(u) by {
                    recorded_is_use(*module, fs@, es@, xs@, f, u);
                }
                assert(graph.uses(f) =~= uses_in(*module, f));
            }
            assert forall|f: FunctionId| #[trigger]
                graph@.contains_key(f) <==> referred_to(*module, f) by {
                assert(graph.uses(f) == uses_in(*module, f));
                if graph@.contains_key(f) {
                    graph.entry_has_site(f);
                    let u = choose|u: FunctionUse| graph@[f].contains(u);
                    assert(uses_in(*module, f).contains(u));
                    assert(is_use(*module, f, u));
                }
                if referred_to(*module, f) {
                    let u = choose|u: FunctionUse| is_use(*module, f, u);
                    assert(uses_in(*module, f).contains(u));
                    assert(graph.uses(f).contains(u));
                }
            }
            if has_expression_segment(*module) {
                let e = choose|e: ElementId| #[trigger]
                    element_table(*module).contains_key(e) && element_table(*module)[e]
                        is Expressions;
                assert(lists_element(es@, e));
                let k = choose|k: int| 0 <= k < es@.len() && (#[trigger] es@[k]).id == e;
                assert(es@[k].describes(element_table(*module)[es@[k].id]));
            }
        }
        Ok(graph)
    }
}

} // verus!
