//! The interface model: the in-memory form of an interface description.
//!
//! An `Interface` is a named set of functions together with the named type
//! definitions those functions use.  It is produced by a front end and is
//! read-only for the rest of the generator.  Names and generated source are
//! byte strings throughout.
use vstd::prelude::*;

verus! {

/// A reference to a type: either a primitive, or a named type definition
/// identified by its index in the interface's type table.
#[derive(Clone, Copy, PartialEq, Eq, Structural, Debug)]
pub enum Type {
    Bool,
    U8,
    U16,
    U32,
    U64,
    S8,
    S16,
    S32,
    S64,
    F32,
    F64,
    Char,
    Str,
    Id(usize),
}

/// Whether a handle passed across the boundary transfers ownership or only
/// lends the resource for the duration of the call.
#[derive(Clone, Copy, PartialEq, Eq, Structural, Debug)]
pub enum HandleMode {
    Owned,
    Borrowed,
}

/// A named field of a record.
#[derive(Clone, Debug)]
pub struct Field {
    pub name: Vec<u8>,
    pub ty: Type,
}

/// A named case of a variant, with an optional payload type.
#[derive(Clone, Debug)]
pub struct Case {
    pub name: Vec<u8>,
    pub payload: Option<Type>,
}

/// The shape of a named type definition.
#[derive(Clone, Debug)]
pub enum TypeDefKind {
    /// Ordered named fields, stored inline by value.
    Record(Vec<Field>),
    /// A tagged union: exactly one case is active at a time.
    Variant(Vec<Case>),
    /// Named bit positions packed into one machine word.
    Flags(Vec<Vec<u8>>),
    /// A dynamically sized sequence of one element type.
    List(Type),
    /// An opaque resource reference.
    Handle(HandleMode),
}

/// A named type definition.
#[derive(Clone, Debug)]
pub struct TypeDef {
    pub name: Vec<u8>,
    pub kind: TypeDefKind,
}

/// A named, typed parameter or result of a function.
#[derive(Clone, Debug)]
pub struct Param {
    pub name: Vec<u8>,
    pub ty: Type,
}

/// A function exported by an interface.
#[derive(Clone, Debug)]
pub struct Function {
    pub name: Vec<u8>,
    pub params: Vec<Param>,
    pub results: Vec<Param>,
}

/// An interface: a named collection of functions and the type definitions
/// they reference.
#[derive(Clone, Debug)]
pub struct Interface {
    pub name: Vec<u8>,
    pub types: Vec<TypeDef>,
    pub functions: Vec<Function>,
}

/// Which role the generated code plays: `Import` bindings are the caller
/// side that marshals into a loaded module; `Export` bindings are the callee
/// trampoline a module registers for its counterpart.
#[derive(Clone, Copy, PartialEq, Eq, Structural, Debug)]
pub enum Direction {
    Import,
    Export,
}

/// Options for one generation run.  Unset options take the documented
/// defaults; `format` asks the embedding to re-format the emitted text
/// afterwards and does not change what is generated.
#[derive(Clone, Copy, PartialEq, Eq, Structural, Debug)]
pub struct Options {
    pub format: bool,
}

impl Default for Options {
    /// By default no post-generation formatting is requested.
    fn default() -> (r: Options)
        ensures
            r.format == false,
    {
        Options { format: false }
    }
}

/// A fatal generation error.  A run either fully succeeds or reports one of
/// these and produces nothing.
#[derive(Clone, Debug)]
pub enum GenError {
    /// The interface model is malformed: an unresolved type reference or an
    /// illegal cycle through by-value containment.
    Model { detail: Vec<u8> },
    /// A type definition has no representation in the target ABI; names the
    /// offending type.
    UnsupportedType { ty_name: Vec<u8> },
    /// Two generated items would share one identity in the same bundle;
    /// names both sources.
    NameCollision { first: Vec<u8>, second: Vec<u8> },
}

/// A variant case is well formed when its payload type, if any, resolves.
pub open spec fn case_wf(c: Case, n: nat) -> bool {
    match c.payload {
        Some(t) => ty_wf(t, n),
        None => true,
    }
}

/// A type reference is well formed when any named index stays inside the
/// type table.
pub open spec fn ty_wf(t: Type, n: nat) -> bool {
    match t {
        Type::Id(i) => i < n,
        _ => true,
    }
}

/// Well-formedness of one type definition's shape against a table of `n`
/// type definitions.
pub open spec fn kind_wf(k: TypeDefKind, n: nat) -> bool {
    match k {
        TypeDefKind::Record(fs) => forall|j: int| 0 <= j < fs.len() ==> ty_wf(fs[j].ty, n),
        TypeDefKind::Variant(cs) => cs.len() >= 1 && cs.len() <= u32::MAX && forall|j: int|
            0 <= j < cs.len() ==> case_wf(#[trigger] cs[j], n),
        TypeDefKind::Flags(names) => true,
        TypeDefKind::List(t) => ty_wf(t, n),
        TypeDefKind::Handle(m) => true,
    }
}

/// All names in a sequence are pairwise distinct.
pub open spec fn names_unique(s: Seq<Seq<u8>>) -> bool {
    forall|i: int, j: int| 0 <= i < j < s.len() ==> s[i] != s[j]
}

/// The names of a function's parameters.
pub open spec fn param_names(ps: Seq<Param>) -> Seq<Seq<u8>> {
    ps.map_values(|p: Param| p.name@)
}

/// Well-formedness of one function: every referenced type resolves and the
/// parameter and result names are unique within the function.
pub open spec fn fn_wf(f: Function, n: nat) -> bool {
    &&& forall|j: int| 0 <= j < f.params.len() ==> ty_wf(f.params[j].ty, n)
    &&& forall|j: int| 0 <= j < f.results.len() ==> ty_wf(f.results[j].ty, n)
    &&& names_unique(param_names(f.params@))
    &&& names_unique(param_names(f.results@))
}

/// The names of an interface's functions.
pub open spec fn function_names(fs: Seq<Function>) -> Seq<Seq<u8>> {
    fs.map_values(|f: Function| f.name@)
}

/// Shallow well-formedness of an interface: every type reference resolves
/// and function names are unique.  Freedom from by-value cycles is the ABI
/// classifier's concern and is stated there.
pub open spec fn iface_wf(i: Interface) -> bool {
    &&& forall|k: int| 0 <= k < i.types.len() ==> kind_wf(i.types[k].kind, i.types.len() as nat)
    &&& forall|k: int| 0 <= k < i.functions.len() ==> fn_wf(i.functions[k], i.types.len() as nat)
    &&& names_unique(function_names(i.functions@))
}

} // verus!
