//! The boundary to `walrus`.
//!
//! A `walrus::Module` is opaque to the verifier. This file says what the rest
//! of the library may assume of one: which tables it holds (the functions, the
//! element segments, the exports, the locals, the types), and what each
//! `walrus` call that the library makes reads from them or does to them.
//! Nothing in this file is proved; everything outside it is proved from it.

use vstd::prelude::*;
use walrus::ir::Call;
use walrus::{
    ElementId, ElementKind, ExportId, ExportItem, FunctionBuilder, FunctionId, LocalId, Module, ModuleData,
    ModuleGlobals, ModuleMemories, ModuleTables, TypeId, ValType,
};

verus! {

/// A module, as walrus holds it in memory.
#[verifier::external_type_specification]
#[verifier::external_body]
pub struct ExModule(walrus::Module);

/// The handle of an item in an arena: of a function, an element segment, an
/// export, a local or a type of a module. It stays the same while the module
/// is changed.
#[verifier::external_type_specification]
#[verifier::external_body]
#[verifier::reject_recursive_types(T)]
pub struct ExId<T>(id_arena::Id<T>);

/// A function of a module; only its handle is used.
#[verifier::external_type_specification]
#[verifier::external_body]
pub struct ExFunction(walrus::Function);

/// An element segment of a module; only its handle is used.
#[verifier::external_type_specification]
#[verifier::external_body]
pub struct ExElement(walrus::Element);

/// Where an element segment is placed: passive, declared, or active in a
/// table at an offset. Values of it are only compared.
#[verifier::external_type_specification]
#[verifier::external_body]
pub struct ExElementKind(walrus::ElementKind);

/// What an export hands out: a function, a table, a memory, a global or a
/// tag. Values of it are only compared.
#[verifier::external_type_specification]
#[verifier::external_body]
pub struct ExExportItem(walrus::ExportItem);

/// The tables of a module. Values of it are only compared.
#[verifier::external_type_specification]
#[verifier::external_body]
pub struct ExModuleTables(walrus::ModuleTables);

/// The memories of a module. Values of it are only compared.
#[verifier::external_type_specification]
#[verifier::external_body]
pub struct ExModuleMemories(walrus::ModuleMemories);

/// The globals of a module. Values of it are only compared.
#[verifier::external_type_specification]
#[verifier::external_body]
pub struct ExModuleGlobals(walrus::ModuleGlobals);

/// The data segments of a module. Values of it are only compared.
#[verifier::external_type_specification]
#[verifier::external_body]
pub struct ExModuleData(walrus::ModuleData);

/// An export of a module; only its handle is used.
#[verifier::external_type_specification]
#[verifier::external_body]
pub struct ExExport(walrus::Export);

/// A local of a module; only its handle is used.
#[verifier::external_type_specification]
#[verifier::external_body]
pub struct ExLocal(walrus::ir::Local);

/// A type of a module; only its handle is used.
#[verifier::external_type_specification]
#[verifier::external_body]
pub struct ExType(walrus::Type);

/// The type of a value; values of it are only copied.
#[verifier::external_type_specification]
#[verifier::external_body]
pub struct ExValType(walrus::ValType);

/// A local function under construction.
#[verifier::external_type_specification]
#[verifier::external_body]
pub struct ExFunctionBuilder(walrus::FunctionBuilder);

/// A `call` instruction, as a traversal hands it to a visitor.
#[verifier::external_type_specification]
#[verifier::external_body]
pub struct ExCall(walrus::ir::Call);

/// The error that walrus reports.
#[verifier::external_type_specification]
#[verifier::external_body]
pub struct ExError(anyhow::Error);

/// An instruction, as far as this library tells instructions apart: the four
/// that a wrapper is made of, and `Other` for every other one.
#[derive(Clone, Copy, Debug)]
pub enum Op {
    LocalGet(LocalId),
    LocalSet(LocalId),
    Call(FunctionId),
    Return,
    Other,
}

/// Parameter and result types of a function, in declared order.
pub struct Signature {
    pub params: Seq<ValType>,
    pub results: Seq<ValType>,
}

/// Where a function's behaviour comes from.
pub enum FunctionBody {
    /// Supplied by the host under `module`.`field`.
    Import { module: Seq<char>, field: Seq<char> },
    /// Defined in the module. `args` are the locals bound to the parameters;
    /// `code` lists every instruction of the body in the order in which
    /// walrus's in-order traversal from the entry block visits them.
    Local { args: Seq<LocalId>, code: Seq<Op> },
}

/// One entry of a module's function table.
pub struct FunctionView {
    /// The name from the name section, if the function has one.
    pub name: Option<Seq<char>>,
    pub signature: Signature,
    pub body: FunctionBody,
}

/// The items of one element segment.
pub enum ElementView {
    /// A list of function indices.
    Functions(Seq<FunctionId>),
    /// A list of constant expressions.
    Expressions,
}

/// One entry of a module's export table.
pub struct ExportView {
    pub name: Seq<char>,
    /// The exported function, or `None` for an export of another kind.
    pub function: Option<FunctionId>,
}

/// The live functions of a module, in the order of its function arena.
pub uninterp spec fn function_ids(m: Module) -> Seq<FunctionId>;

/// What each live function of a module is.
pub uninterp spec fn function_table(m: Module) -> Map<FunctionId, FunctionView>;

/// The live element segments of a module, in arena order.
pub uninterp spec fn element_ids(m: Module) -> Seq<ElementId>;

/// The items of each live element segment.
pub uninterp spec fn element_table(m: Module) -> Map<ElementId, ElementView>;

/// Where each live element segment is placed.
pub uninterp spec fn element_kinds(m: Module) -> Map<ElementId, ElementKind>;

/// The live exports of a module, in arena order.
pub uninterp spec fn export_ids(m: Module) -> Seq<ExportId>;

/// Name and target of each live export.
pub uninterp spec fn export_table(m: Module) -> Map<ExportId, ExportView>;

/// The item of each live export.
pub uninterp spec fn export_items(m: Module) -> Map<ExportId, ExportItem>;

/// The locals allocated in a module, each with its type.
pub uninterp spec fn local_table(m: Module) -> Map<LocalId, ValType>;

/// The live function types of a module, but for those that stand for the
/// entry of a function body, which are never emitted.
pub uninterp spec fn type_table(m: Module) -> Map<TypeId, Signature>;

/// The type under which the module has registered each signature for reuse:
/// a final function type without a supertype that is not for an entry.
pub uninterp spec fn interned(m: Module) -> Map<Signature, TypeId>;

/// The function types of `type_table` that are final and have no supertype:
/// the types that can be registered for reuse.
pub uninterp spec fn plain_types(m: Module) -> Set<TypeId>;

/// The type that each live function of a module refers to.
pub uninterp spec fn function_types(m: Module) -> Map<FunctionId, TypeId>;

/// The fields `tables`, `memories`, `globals` and `data` of a module.
pub uninterp spec fn rest_of(m: Module) -> (
    ModuleTables,
    ModuleMemories,
    ModuleGlobals,
    ModuleData,
);

/// The function that a builder holds so far. Its `args` stay empty until the
/// builder is finished.
pub uninterp spec fn builder_function(b: FunctionBuilder) -> FunctionView;

/// The type that a builder was made with, which its function will refer to.
pub uninterp spec fn builder_type(b: FunctionBuilder) -> TypeId;

/// The function that a `call` instruction invokes.
pub uninterp spec fn call_target_of(c: Call) -> FunctionId;

/// Whether `m` is a module that the decoder gives for `input`. The ids of
/// a decoded module come from a counter of the process, so one input has
/// many such modules; they differ in nothing but their ids.
pub uninterp spec fn decodes(input: Seq<u8>, m: Module) -> bool;

/// Whether `bytes` is an encoding that the encoder gives for `m`. It is a
/// relation, not a function of the module: which encoding is given can
/// depend on the order in which the encoder walks a set of ids.
pub uninterp spec fn encodes(m: Module, bytes: Seq<u8>) -> bool;

/// Whether everything but functions, locals and the types of functions that
/// `m` refers to is an item of `m`: the globals, tables, memories, tags, data
/// and element segments and types that its instructions, exports, imports,
/// segment placements and types name, and its start function.
pub uninterp spec fn others_resolve(m: Module) -> bool;

/// Whether walrus parses and validates `input` as a module.
pub open spec fn accepts(input: Seq<u8>) -> bool {
    exists|m: Module| decodes(input, m)
}

/// Whether some element segment of `m` lists constant expressions.
pub open spec fn has_expression_segment(m: Module) -> bool {
    exists|e: ElementId| #[trigger]
        element_table(m).contains_key(e) && element_table(m)[e] is Expressions
}

/// Whether `input` is a module with an element segment of constant
/// expressions.
pub open spec fn lists_expressions(input: Seq<u8>) -> bool {
    exists|m: Module| decodes(input, m) && has_expression_segment(m)
}

/// The position that a function id names in the function arena it comes
/// from.
pub uninterp spec fn arena_index(f: FunctionId) -> usize;

pub open spec fn same_functions(a: Module, b: Module) -> bool {
    &&& function_ids(a) == function_ids(b)
    &&& function_table(a) == function_table(b)
    &&& function_types(a) == function_types(b)
}

pub open spec fn same_elements(a: Module, b: Module) -> bool {
    &&& element_ids(a) == element_ids(b)
    &&& element_table(a) == element_table(b)
    &&& element_kinds(a) == element_kinds(b)
}

/// The two modules have the same tables, memories, globals and data
/// segments.
pub open spec fn same_rest(a: Module, b: Module) -> bool {
    rest_of(a) == rest_of(b)
}

pub open spec fn same_exports(a: Module, b: Module) -> bool {
    &&& export_ids(a) == export_ids(b)
    &&& export_table(a) == export_table(b)
    &&& export_items(a) == export_items(b)
}

/// `b` holds every function of `a` as it is in `a`, and the element segments
/// and exports of `a` and no others.
pub open spec fn extends(a: Module, b: Module) -> bool {
    &&& forall|f: FunctionId| #[trigger]
        function_table(a).contains_key(f) ==> function_table(b).contains_key(f)
            && function_table(b)[f] == function_table(a)[f]
    &&& same_elements(a, b)
    &&& same_exports(a, b)
    &&& same_rest(a, b)
}

/// Whether the registered signatures name types of the table of those
/// signatures, and every plain type of the table has its signature
/// registered. A decoded module is so; a module whose types were edited in
/// place or deleted may not be.
pub open spec fn sound(
    types: Map<TypeId, Signature>,
    registered: Map<Signature, TypeId>,
    plain: Set<TypeId>,
) -> bool {
    &&& forall|s: Signature| #[trigger]
        registered.contains_key(s) ==> types.contains_key(registered[s]) && types[registered[s]]
            == s && plain.contains(registered[s])
    &&& forall|t: TypeId|
        plain.contains(t) && #[trigger] types.contains_key(t) ==> registered.contains_key(types[t])
}

/// Whether the types of `m` are registered as `sound` says.
pub open spec fn types_sound(m: Module) -> bool {
    sound(type_table(m), interned(m), plain_types(m))
}

/// What interning `sig` does: where the signature is registered, `t` is the
/// type registered for it and nothing changes; else `t` is a type that the
/// table did not have, which is added as a plain type and registered.
pub open spec fn interning(
    types: Map<TypeId, Signature>,
    registered: Map<Signature, TypeId>,
    plain: Set<TypeId>,
    types_after: Map<TypeId, Signature>,
    registered_after: Map<Signature, TypeId>,
    plain_after: Set<TypeId>,
    sig: Signature,
    t: TypeId,
) -> bool {
    if registered.contains_key(sig) {
        &&& t == registered[sig]
        &&& types_after == types
        &&& registered_after == registered
        &&& plain_after == plain
    } else {
        &&& !types.contains_key(t)
        &&& types_after == types.insert(t, sig)
        &&& registered_after == registered.insert(sig, t)
        &&& plain_after == plain.insert(t)
    }
}

/// Interning in a module whose types are soundly registered adds the type to
/// the table and the registry, which changes nothing where the signature was
/// registered, and leaves the types soundly registered.
pub proof fn interning_is_sound(
    types: Map<TypeId, Signature>,
    registered: Map<Signature, TypeId>,
    plain: Set<TypeId>,
    types_after: Map<TypeId, Signature>,
    registered_after: Map<Signature, TypeId>,
    plain_after: Set<TypeId>,
    sig: Signature,
    t: TypeId,
)
    requires
        sound(types, registered, plain),
        interning(types, registered, plain, types_after, registered_after, plain_after, sig, t),
    ensures
        sound(types_after, registered_after, plain_after),
        types_after == types.insert(t, sig),
        registered_after == registered.insert(sig, t),
        reused_or_new(types, registered, sig, t),
        plain_after == plain.insert(t),
{
    if registered.contains_key(sig) {
        assert(types.insert(t, sig) =~= types);
        assert(registered.insert(sig, t) =~= registered);
        assert(plain.insert(t) =~= plain);
    } else {
        assert forall|s: Signature| #[trigger] registered_after.contains_key(s) implies
            types_after.contains_key(registered_after[s]) && types_after[registered_after[s]] == s
            && plain_after.contains(registered_after[s]) by {
            if s != sig {
                assert(registered.contains_key(s));
            }
        }
        assert forall|u: TypeId|
            plain_after.contains(u) && #[trigger] types_after.contains_key(
                u,
            ) implies registered_after.contains_key(types_after[u]) by {
            if u != t {
                assert(types.contains_key(u));
            }
        }
    }
}

/// Whether `t` is the type that interning `sig` gives: the registered one
/// where one is registered, else a type that the module did not have.
pub open spec fn reused_or_new(
    types: Map<TypeId, Signature>,
    registered: Map<Signature, TypeId>,
    sig: Signature,
    t: TypeId,
) -> bool {
    if registered.contains_key(sig) {
        t == registered[sig] && types.contains_key(t) && types[t] == sig
    } else {
        !types.contains_key(t)
    }
}

/// Every type of `a` is a type of `b`, with the same signature.
pub open spec fn types_kept(a: Module, b: Module) -> bool {
    forall|t: TypeId| #[trigger]
        type_table(a).contains_key(t) ==> type_table(b).contains_key(t) && type_table(b)[t]
            == type_table(a)[t]
}

/// Whether `f` is a function of `m` that refers to a function type of `m`,
/// which is its signature.
pub open spec fn typed(m: Module, f: FunctionId) -> bool {
    &&& function_table(m).contains_key(f)
    &&& function_types(m).contains_key(f)
    &&& type_table(m).contains_key(function_types(m)[f])
    &&& type_table(m)[function_types(m)[f]] == function_table(m)[f].signature
}

/// Whether `f` is a function of `m` with a body of its own.
pub open spec fn is_local(m: Module, f: FunctionId) -> bool {
    function_table(m).contains_key(f) && function_table(m)[f].body is Local
}

/// The instructions of a local function; empty for an import.
pub open spec fn code_of(v: FunctionView) -> Seq<Op> {
    match v.body {
        FunctionBody::Local { args, code } => code,
        FunctionBody::Import { .. } => Seq::empty(),
    }
}

pub open spec fn call_target(op: Op) -> Option<FunctionId> {
    match op {
        Op::Call(g) => Some(g),
        _ => None,
    }
}

/// The targets of the `call` instructions of `code`, in order.
pub open spec fn call_targets(code: Seq<Op>) -> Seq<FunctionId> {
    code.filter_map(|op: Op| call_target(op))
}

/// `op`, with a call to `from` turned into a call to `to`.
pub open spec fn redirect_op(from: FunctionId, to: FunctionId, op: Op) -> Op {
    match op {
        Op::Call(g) => if g == from {
            Op::Call(to)
        } else {
            op
        },
        _ => op,
    }
}

pub open spec fn redirect_code(from: FunctionId, to: FunctionId, code: Seq<Op>) -> Seq<Op> {
    Seq::new(code.len(), |i: int| redirect_op(from, to, code[i]))
}

pub open spec fn with_code(v: FunctionView, code: Seq<Op>) -> FunctionView {
    match v.body {
        FunctionBody::Local { args, code: _ } => FunctionView {
            name: v.name,
            signature: v.signature,
            body: FunctionBody::Local { args, code },
        },
        FunctionBody::Import { .. } => v,
    }
}

/// Whether an instruction refers to nothing but functions and locals of `m`.
pub open spec fn op_resolves(m: Module, op: Op) -> bool {
    match op {
        Op::Call(g) => function_table(m).contains_key(g),
        Op::LocalGet(l) => local_table(m).contains_key(l),
        Op::LocalSet(l) => local_table(m).contains_key(l),
        _ => true,
    }
}

/// Whether every id that the module lists is a function of its table.
pub open spec fn ids_listed(m: Module) -> bool {
    forall|k: int|
        0 <= k < function_ids(m).len() ==> function_table(m).contains_key(
            #[trigger] function_ids(m)[k],
        )
}

/// Every function, local and type that `m` refers to is one of `m`: the
/// functions that it lists, and those that are called, held by an element
/// segment or exported; the locals that the bodies read and write; the type
/// of every function, which is a function type that gives its signature.
pub open spec fn references_resolve(m: Module) -> bool {
    &&& ids_listed(m)
    &&& forall|f: FunctionId| #[trigger] function_table(m).contains_key(f) ==> typed(m, f)
    &&& forall|f: FunctionId, i: int|
        #![trigger code_of(function_table(m)[f])[i]]
        function_table(m).contains_key(f) && 0 <= i < code_of(function_table(m)[f]).len()
            ==> op_resolves(m, code_of(function_table(m)[f])[i])
    &&& forall|e: ElementId, i: int|
        #![trigger element_table(m)[e]->Functions_0[i]]
        element_table(m).contains_key(e) && element_table(m)[e] is Functions && 0 <= i
            < element_table(m)[e]->Functions_0.len() ==> function_table(m).contains_key(
            element_table(m)[e]->Functions_0[i],
        )
    &&& forall|x: ExportId| #[trigger]
        export_table(m).contains_key(x) ==> match export_table(m)[x].function {
            Some(g) => function_table(m).contains_key(g),
            None => true,
        }
}

/// One function of a module, as `functions` hands it out.
pub struct FunctionEntry {
    pub id: FunctionId,
    pub name: Option<String>,
    pub local: bool,
}

impl FunctionEntry {
    pub open spec fn describes(&self, v: FunctionView) -> bool {
        &&& v.name == match self.name {
            Some(n) => Some(n@),
            None => None,
        }
        &&& self.local == (v.body is Local)
    }
}

/// One element segment of a module, as `elements` hands it out.
pub struct ElementEntry {
    pub id: ElementId,
    /// The segment's function indices, or `None` where it holds expressions.
    pub functions: Option<Vec<FunctionId>>,
}

impl ElementEntry {
    pub open spec fn describes(&self, v: ElementView) -> bool {
        match self.functions {
            Some(items) => v == ElementView::Functions(items@),
            None => v is Expressions,
        }
    }
}

/// One export of a module, as `exports` hands it out.
pub struct ExportEntry {
    pub id: ExportId,
    pub function: Option<FunctionId>,
}

pub open spec fn lists_function(entries: Seq<FunctionEntry>, f: FunctionId) -> bool {
    exists|i: int| 0 <= i < entries.len() && (#[trigger] entries[i]).id == f
}

pub open spec fn lists_element(entries: Seq<ElementEntry>, e: ElementId) -> bool {
    exists|i: int| 0 <= i < entries.len() && (#[trigger] entries[i]).id == e
}

pub open spec fn lists_export(entries: Seq<ExportEntry>, x: ExportId) -> bool {
    exists|i: int| 0 <= i < entries.len() && (#[trigger] entries[i]).id == x
}

/// `walrus::Module::from_buffer_with_config`, with a default configuration in
/// which only the name-section flag is set. Whether the call succeeds, and
/// whether the module it gives has an element segment of expressions, depends
/// on the input alone. In a parsed module every index has been resolved to an
/// item of that module, and the module has been validated, or the parse had
/// failed; the functions that it lists are those that it holds, and every
/// type is registered under its own value.
#[verifier::external_body]
pub(crate) fn parse_module(input: &[u8], keep_names: bool) -> (r: Result<Module, anyhow::Error>)
    ensures
        r is Ok <==> accepts(input@),
        r matches Ok(m) ==> decodes(input@, m),
        r matches Ok(m) ==> (has_expression_segment(m) <==> lists_expressions(input@)),
        r matches Ok(m) ==> references_resolve(m) && others_resolve(m) && types_sound(m),
{
    let mut config = walrus::ModuleConfig::default();
    config.generate_name_section(keep_names);
    Module::from_buffer_with_config(input, &config)
}

/// The eight bytes with which the encoding of every module begins: the
/// magic number `\0asm` and the version 1.
pub open spec fn module_header() -> Seq<u8> {
    seq![0x00u8, 0x61u8, 0x73u8, 0x6du8, 0x01u8, 0x00u8, 0x00u8, 0x00u8]
}

/// `walrus::Module::emit_wasm`, which starts from the header that
/// `wasm_encoder::Module::new` writes and appends one section after the
/// other. Nothing is claimed of the module afterwards. Emission looks up the
/// index of every item that is referred to and the name of every local that a
/// body uses, and panics on one that the module does not hold.
#[verifier::external_body]
pub(crate) fn emit_module(m: &mut Module) -> (bytes: Vec<u8>)
    requires
        references_resolve(*old(m)),
        others_resolve(*old(m)),
    ensures
        encodes(*old(m), bytes@),
        module_header().is_prefix_of(bytes@),
{
    m.emit_wasm()
}

/// The `Display` rendering of an `anyhow::Error` with its chain of causes.
/// Nothing is claimed of the text.
#[verifier::external_body]
pub(crate) fn error_message(e: &anyhow::Error) -> (msg: String) {
    format!("{:#}", e)
}

/// `PartialEq` of `id_arena::Id`, which compares the arena and the index: two
/// ids are equal exactly when they are the same id.
#[verifier::external_body]
pub(crate) fn same_id<T>(a: id_arena::Id<T>, b: id_arena::Id<T>) -> (r: bool)
    ensures
        r == (a == b),
{
    a == b
}

/// `id_arena::Id::index`, which depends on nothing but the id.
#[verifier::external_body]
pub(crate) fn function_index(f: FunctionId) -> (i: usize)
    ensures
        i == arena_index(f),
{
    f.index()
}

/// `ModuleFunctions::iter`: every live function, in arena order, with its id,
/// its name and whether it is `FunctionKind::Local`. The function table holds
/// the listed functions and no others.
#[verifier::external_body]
pub(crate) fn functions(m: &Module) -> (r: Vec<FunctionEntry>)
    ensures
        r@.len() == function_ids(*m).len(),
        forall|f: FunctionId| #[trigger]
            function_table(*m).contains_key(f) <==> lists_function(r@, f),
        forall|i: int|
            0 <= i < r@.len() ==> (#[trigger] r@[i]).id == function_ids(*m)[i] && r@[i].describes(
                function_table(*m)[r@[i].id],
            ),
{
    m.funcs.iter().map(
        |f|
            FunctionEntry {
                id: f.id(),
                name: f.name.clone(),
                local: matches!(f.kind, walrus::FunctionKind::Local(_)),
            },
    ).collect()
}

/// Whether the function, found by `ModuleFunctions::get`, which panics on an
/// id that is not live, is `FunctionKind::Local`.
#[verifier::external_body]
pub(crate) fn has_body(m: &Module, f: FunctionId) -> (r: bool)
    requires
        function_table(*m).contains_key(f),
    ensures
        r == is_local(*m, f),
{
    matches!(m.funcs.get(f).kind, walrus::FunctionKind::Local(_))
}

/// `ModuleTypes::params` and `ModuleTypes::results` of the type of a function,
/// found by `ModuleFunctions::get`. Each lookup panics on an id that is not
/// live, and the two on a type that is no function type.
#[verifier::external_body]
pub(crate) fn signature(m: &Module, f: FunctionId) -> (r: (Vec<ValType>, Vec<ValType>))
    requires
        typed(*m, f),
    ensures
        r.0@ == function_table(*m)[f].signature.params,
        r.1@ == function_table(*m)[f].signature.results,
{
    let ty = m.funcs.get(f).ty();
    (m.types.params(ty).to_vec(), m.types.results(ty).to_vec())
}

/// Gathers the targets of the `call` instructions that a traversal meets.
pub struct CallCollector {
    pub targets: Vec<FunctionId>,
}

impl<'instr> walrus::ir::Visitor<'instr> for CallCollector {
    fn visit_call(&mut self, instr: &Call)
        ensures
            final(self).targets@ == old(self).targets@.push(call_target_of(*instr)),
    {
        self.targets.push(target_of_call(instr));
    }
}

/// Turns each call to `from` that a traversal meets into a call to `to`.
pub struct CallRedirector {
    pub from: FunctionId,
    pub to: FunctionId,
}

impl walrus::ir::VisitorMut for CallRedirector {
    fn visit_call_mut(&mut self, instr: &mut Call)
        ensures
            *final(self) == *old(self),
            Op::Call(call_target_of(*final(instr))) == redirect_op(
                old(self).from,
                old(self).to,
                Op::Call(call_target_of(*old(instr))),
            ),
    {
        if same_id(target_of_call(instr), self.from) {
            set_target_of_call(instr, self.to);
        }
    }
}

/// The field `func` of `walrus::ir::Call`.
#[verifier::external_body]
fn target_of_call(c: &Call) -> (f: FunctionId)
    ensures
        f == call_target_of(*c),
{
    c.func
}

/// Assigns the field `func` of `walrus::ir::Call`, its only field.
#[verifier::external_body]
fn set_target_of_call(c: &mut Call, f: FunctionId)
    ensures
        call_target_of(*final(c)) == f,
{
    c.func = f;
}

/// `walrus::ir::dfs_in_order` over the body of a local function, from its
/// entry block, with a `CallCollector`: the traversal calls `visit_call` once
/// for each `call` instruction, in the order of the body. `unwrap_local`
/// panics on an import.
#[verifier::external_body]
pub(crate) fn direct_calls(m: &Module, f: FunctionId) -> (r: Vec<FunctionId>)
    requires
        is_local(*m, f),
    ensures
        r@ == call_targets(code_of(function_table(*m)[f])),
{
    let mut collector = CallCollector { targets: Vec::new() };
    let func = m.funcs.get(f).kind.unwrap_local();
    walrus::ir::dfs_in_order(&mut collector, func, func.entry_block());
    collector.targets
}

/// `ModuleElements::iter`: every live element segment, in arena order, with its
/// id and, for `ElementItems::Functions`, a copy of its function indices. The
/// element table holds the listed segments and no others.
#[verifier::external_body]
pub(crate) fn elements(m: &Module) -> (r: Vec<ElementEntry>)
    ensures
        r@.len() == element_ids(*m).len(),
        forall|e: ElementId| #[trigger]
            element_table(*m).contains_key(e) <==> lists_element(r@, e),
        forall|i: int|
            0 <= i < r@.len() ==> (#[trigger] r@[i]).id == element_ids(*m)[i] && r@[i].describes(
                element_table(*m)[r@[i].id],
            ),
{
    m.elements.iter().map(
        |e|
            ElementEntry {
                id: e.id(),
                functions: match &e.items {
                    walrus::ElementItems::Functions(items) => Some(items.clone()),
                    walrus::ElementItems::Expressions(..) => None,
                },
            },
    ).collect()
}

/// `ModuleExports::iter`: every live export, in arena order, with its id and,
/// for `ExportItem::Function`, the exported function. The export table holds
/// the listed exports and no others.
#[verifier::external_body]
pub(crate) fn exports(m: &Module) -> (r: Vec<ExportEntry>)
    ensures
        r@.len() == export_ids(*m).len(),
        forall|x: ExportId| #[trigger]
            export_table(*m).contains_key(x) <==> lists_export(r@, x),
        forall|i: int|
            0 <= i < r@.len() ==> (#[trigger] r@[i]).id == export_ids(*m)[i] && r@[i].function
                == export_table(*m)[r@[i].id].function,
{
    m.exports.iter().map(
        |x|
            ExportEntry {
                id: x.id(),
                function: match x.item {
                    walrus::ExportItem::Function(f) => Some(f),
                    _ => None,
                },
            },
    ).collect()
}

/// `ModuleLocals::add`: allocates a local of the given type under an id that
/// no local of the module had, and touches nothing else.
#[verifier::external_body]
pub(crate) fn add_local(m: &mut Module, ty: ValType) -> (l: LocalId)
    ensures
        !local_table(*old(m)).contains_key(l),
        local_table(*final(m)) == local_table(*old(m)).insert(l, ty),
        same_functions(*old(m), *final(m)),
        same_elements(*old(m), *final(m)),
        same_exports(*old(m), *final(m)),
        rest_of(*final(m)) == rest_of(*old(m)),
        type_table(*final(m)) == type_table(*old(m)),
        interned(*final(m)) == interned(*old(m)),
        plain_types(*final(m)) == plain_types(*old(m)),
        others_resolve(*old(m)) ==> others_resolve(*final(m)),
{
    m.locals.add(ty)
}

/// `ModuleTypes::add`: interns the function type `params -> results` and
/// returns its id, which is that of the type registered for an equal type
/// where there is one, and else that of a type it adds and registers. The
/// registered type is not read: what signature it has is not claimed here.
#[verifier::external_body]
pub(crate) fn add_type(m: &mut Module, params: &Vec<ValType>, results: &Vec<ValType>) -> (t: TypeId)
    ensures
        interning(
            type_table(*old(m)),
            interned(*old(m)),
            plain_types(*old(m)),
            type_table(*final(m)),
            interned(*final(m)),
            plain_types(*final(m)),
            Signature { params: params@, results: results@ },
            t,
        ),
        types_kept(*old(m), *final(m)),
        same_functions(*old(m), *final(m)),
        same_elements(*old(m), *final(m)),
        same_exports(*old(m), *final(m)),
        rest_of(*final(m)) == rest_of(*old(m)),
        local_table(*final(m)) == local_table(*old(m)),
        others_resolve(*old(m)) ==> others_resolve(*final(m)),
{
    m.types.add(params, results)
}

/// `Module::add_import_func`: appends to the function arena an unnamed
/// function of type `ty` that is imported from `module`.`field`. Its id is new.
/// Emission panics on a function whose type the module does not hold.
#[verifier::external_body]
pub(crate) fn add_import_function(m: &mut Module, module: &str, field: &str, ty: TypeId) -> (f:
    FunctionId)
    requires
        type_table(*old(m)).contains_key(ty),
    ensures
        !function_table(*old(m)).contains_key(f),
        function_ids(*final(m)) == function_ids(*old(m)).push(f),
        function_table(*final(m)) == function_table(*old(m)).insert(
            f,
            FunctionView {
                name: None,
                signature: type_table(*old(m))[ty],
                body: FunctionBody::Import { module: module@, field: field@ },
            },
        ),
        function_types(*final(m)) == function_types(*old(m)).insert(f, ty),
        same_elements(*old(m), *final(m)),
        same_exports(*old(m), *final(m)),
        rest_of(*final(m)) == rest_of(*old(m)),
        local_table(*final(m)) == local_table(*old(m)),
        type_table(*final(m)) == type_table(*old(m)),
        interned(*final(m)) == interned(*old(m)),
        plain_types(*final(m)) == plain_types(*old(m)),
        others_resolve(*old(m)) ==> others_resolve(*final(m)),
{
    m.add_import_func(module, field, ty).0
}

/// Assigns one slot of the `ElementItems::Functions` list of a segment, found
/// by `ModuleElements::get_mut`, which panics on an id that is not live. The
/// segment stays where it is placed.
#[verifier::external_body]
pub(crate) fn set_element_function(m: &mut Module, e: ElementId, index: usize, f: FunctionId)
    requires
        element_table(*old(m)).contains_key(e),
        element_table(*old(m))[e] is Functions,
        index < element_table(*old(m))[e]->Functions_0.len(),
    ensures
        element_ids(*final(m)) == element_ids(*old(m)),
        element_kinds(*final(m)) == element_kinds(*old(m)),
        element_table(*final(m)) == element_table(*old(m)).insert(
            e,
            ElementView::Functions(
                element_table(*old(m))[e]->Functions_0.update(index as int, f),
            ),
        ),
        same_functions(*old(m), *final(m)),
        same_exports(*old(m), *final(m)),
        rest_of(*final(m)) == rest_of(*old(m)),
        local_table(*final(m)) == local_table(*old(m)),
        type_table(*final(m)) == type_table(*old(m)),
        interned(*final(m)) == interned(*old(m)),
        plain_types(*final(m)) == plain_types(*old(m)),
        others_resolve(*old(m)) ==> others_resolve(*final(m)),
{
    match &mut m.elements.get_mut(e).items {
        walrus::ElementItems::Functions(items) => items[index] = f,
        walrus::ElementItems::Expressions(..) => {},
    }
}

/// Assigns the field `item` of an export, found by `ModuleExports::get_mut`,
/// which panics on an id that is not live. The export keeps its name, and
/// every other export its item.
#[verifier::external_body]
pub(crate) fn set_export_function(m: &mut Module, x: ExportId, f: FunctionId)
    requires
        export_table(*old(m)).contains_key(x),
    ensures
        export_ids(*final(m)) == export_ids(*old(m)),
        rest_of(*final(m)) == rest_of(*old(m)),
        export_table(*final(m)) == export_table(*old(m)).insert(
            x,
            ExportView { name: export_table(*old(m))[x].name, function: Some(f) },
        ),
        export_items(*final(m)).dom() == export_items(*old(m)).dom(),
        forall|y: ExportId|
            y != x ==> #[trigger] export_items(*final(m))[y] == export_items(*old(m))[y],
        same_functions(*old(m), *final(m)),
        same_elements(*old(m), *final(m)),
        local_table(*final(m)) == local_table(*old(m)),
        type_table(*final(m)) == type_table(*old(m)),
        interned(*final(m)) == interned(*old(m)),
        plain_types(*final(m)) == plain_types(*old(m)),
        others_resolve(*old(m)) ==> others_resolve(*final(m)),
{
    m.exports.get_mut(x).item = walrus::ExportItem::Function(f);
}

/// `walrus::ir::dfs_pre_order_mut` over the body of a local function, from its
/// entry block, with a `CallRedirector`: the traversal calls `visit_call_mut`
/// once for each `call` instruction of the body, so every call to `from`
/// becomes a call to `to` and no other instruction changes.
#[verifier::external_body]
pub(crate) fn redirect_calls(m: &mut Module, caller: FunctionId, from: FunctionId, to: FunctionId)
    requires
        is_local(*old(m), caller),
    ensures
        function_ids(*final(m)) == function_ids(*old(m)),
        function_table(*final(m)) == function_table(*old(m)).insert(
            caller,
            with_code(
                function_table(*old(m))[caller],
                redirect_code(from, to, code_of(function_table(*old(m))[caller])),
            ),
        ),
        function_types(*final(m)) == function_types(*old(m)),
        same_elements(*old(m), *final(m)),
        same_exports(*old(m), *final(m)),
        rest_of(*final(m)) == rest_of(*old(m)),
        local_table(*final(m)) == local_table(*old(m)),
        type_table(*final(m)) == type_table(*old(m)),
        interned(*final(m)) == interned(*old(m)),
        plain_types(*final(m)) == plain_types(*old(m)),
        others_resolve(*old(m)) ==> others_resolve(*final(m)),
{
    let mut redirector = CallRedirector { from, to };
    let func = m.funcs.get_mut(caller).kind.unwrap_local_mut();
    let entry = func.entry_block();
    walrus::ir::dfs_pre_order_mut(&mut redirector, func, entry);
}

/// `FunctionBuilder::new`: an unnamed function with an empty body, of the
/// type that interning the signature gives. The call also interns the type
/// of the body and touches nothing else. Interning takes the type that is
/// registered for the signature without reading it, so the function has the
/// given signature only where the registered types are sound.
#[verifier::external_body]
pub(crate) fn new_builder(m: &mut Module, params: &Vec<ValType>, results: &Vec<ValType>) -> (b:
    FunctionBuilder)
    requires
        types_sound(*old(m)),
    ensures
        builder_function(b) == (FunctionView {
            name: None,
            signature: Signature { params: params@, results: results@ },
            body: FunctionBody::Local { args: Seq::empty(), code: Seq::empty() },
        }),
        interning(
            type_table(*old(m)),
            interned(*old(m)),
            plain_types(*old(m)),
            type_table(*final(m)),
            interned(*final(m)),
            plain_types(*final(m)),
            Signature { params: params@, results: results@ },
            builder_type(b),
        ),
        types_kept(*old(m), *final(m)),
        same_functions(*old(m), *final(m)),
        same_elements(*old(m), *final(m)),
        same_exports(*old(m), *final(m)),
        rest_of(*final(m)) == rest_of(*old(m)),
        local_table(*final(m)) == local_table(*old(m)),
        others_resolve(*old(m)) ==> others_resolve(*final(m)),
{
    FunctionBuilder::new(&mut m.types, params, results)
}

/// `FunctionBuilder::name`.
#[verifier::external_body]
pub(crate) fn name_builder(b: &mut FunctionBuilder, name: String)
    ensures
        builder_function(*final(b)) == (FunctionView {
            name: Some(name@),
            signature: builder_function(*old(b)).signature,
            body: builder_function(*old(b)).body,
        }),
        builder_type(*final(b)) == builder_type(*old(b)),
{
    b.name(name);
}

/// `InstrSeqBuilder::local_get` on the function body: appends `local.get`.
#[verifier::external_body]
pub(crate) fn push_local_get(b: &mut FunctionBuilder, l: LocalId)
    ensures
        builder_function(*final(b)) == with_code(
            builder_function(*old(b)),
            code_of(builder_function(*old(b))).push(Op::LocalGet(l)),
        ),
        builder_type(*final(b)) == builder_type(*old(b)),
{
    b.func_body().local_get(l);
}

/// `InstrSeqBuilder::local_set` on the function body: appends `local.set`.
#[verifier::external_body]
pub(crate) fn push_local_set(b: &mut FunctionBuilder, l: LocalId)
    ensures
        builder_function(*final(b)) == with_code(
            builder_function(*old(b)),
            code_of(builder_function(*old(b))).push(Op::LocalSet(l)),
        ),
        builder_type(*final(b)) == builder_type(*old(b)),
{
    b.func_body().local_set(l);
}

/// `InstrSeqBuilder::call` on the function body: appends `call`.
#[verifier::external_body]
pub(crate) fn push_call(b: &mut FunctionBuilder, f: FunctionId)
    ensures
        builder_function(*final(b)) == with_code(
            builder_function(*old(b)),
            code_of(builder_function(*old(b))).push(Op::Call(f)),
        ),
        builder_type(*final(b)) == builder_type(*old(b)),
{
    b.func_body().call(f);
}

/// `InstrSeqBuilder::return_` on the function body: appends `return`.
#[verifier::external_body]
pub(crate) fn push_return(b: &mut FunctionBuilder)
    ensures
        builder_function(*final(b)) == with_code(
            builder_function(*old(b)),
            code_of(builder_function(*old(b))).push(Op::Return),
        ),
        builder_type(*final(b)) == builder_type(*old(b)),
{
    b.func_body().return_();
}

/// `FunctionBuilder::finish`: appends the built function to the function arena
/// as a local function of the builder's type whose parameters are bound to
/// `args`. Its id is new. A body of calls, reads and writes of locals and
/// returns refers to nothing but functions and locals.
#[verifier::external_body]
pub(crate) fn finish_builder(b: FunctionBuilder, args: Vec<LocalId>, m: &mut Module) -> (f:
    FunctionId)
    requires
        forall|i: int|
            0 <= i < code_of(builder_function(b)).len() ==> !(#[trigger] code_of(
                builder_function(b),
            )[i] is Other),
    ensures
        !function_table(*old(m)).contains_key(f),
        function_ids(*final(m)) == function_ids(*old(m)).push(f),
        function_table(*final(m)) == function_table(*old(m)).insert(
            f,
            FunctionView {
                name: builder_function(b).name,
                signature: builder_function(b).signature,
                body: FunctionBody::Local { args: args@, code: code_of(builder_function(b)) },
            },
        ),
        function_types(*final(m)) == function_types(*old(m)).insert(f, builder_type(b)),
        same_elements(*old(m), *final(m)),
        same_exports(*old(m), *final(m)),
        rest_of(*final(m)) == rest_of(*old(m)),
        local_table(*final(m)) == local_table(*old(m)),
        type_table(*final(m)) == type_table(*old(m)),
        interned(*final(m)) == interned(*old(m)),
        plain_types(*final(m)) == plain_types(*old(m)),
        others_resolve(*old(m)) ==> others_resolve(*final(m)),
{
    b.finish(args, &mut m.funcs)
}

} // verus!
