//! Generation entry points and output assembly.
//!
//! One generation run classifies every type once, checks that no two
//! functions generate items with the same identity, emits one binding unit
//! per function, and collects the text into a single-entry output bundle.
//! A run either fully succeeds or reports one fatal error and produces
//! nothing.
use vstd::prelude::*;
use crate::model::{
    Type, TypeDef, TypeDefKind, HandleMode, Field, Case, Function, Interface, Direction, Options,
    Param, GenError,
};
use crate::abi::{
    AbiType, AbiSpec, AbiErr, CoreKind, classify_all, classify_gen_err, classify_prim, td_abi,
    ty_abi, types_ok, copy_bytes,
};
use crate::emit::{
    lit, push_lit, push_name, ty_text, emit_ty, params_text, emit_params, lower_stmt_text,
    emit_lower_stmt, lift_stmt_text, emit_lift_stmt, cleanup_stmt_text, emit_cleanup_stmt,
    release_stmt_text, emit_release_stmt, AbiSpecLike, abi_shape,
};

verus! {

/// One ASCII byte folded to lower case: generated item identities are
/// case-insensitive, so two names differing only by case collide.
pub open spec fn fold_byte(b: u8) -> u8 {
    if 65 <= b <= 90 {
        (b + 32) as u8
    } else {
        b
    }
}

/// A name folded to its generated identity.
pub open spec fn fold_name(s: Seq<u8>) -> Seq<u8> {
    s.map_values(|b: u8| fold_byte(b))
}

/// Folds a name to the identity its generated item will carry.
pub fn fold_name_exec(s: &Vec<u8>) -> (r: Vec<u8>)
    ensures
        r@ == fold_name(s@),
{
    let mut v: Vec<u8> = Vec::new();
    let mut i: usize = 0;
    while i < s.len()
        invariant
            i <= s@.len(),
            v@ == fold_name(s@).subrange(0, i as int),
        decreases s@.len() - i,
    {
        let b = s[i];
        if 65 <= b && b <= 90 {
            v.push(b + 32);
        } else {
            v.push(b);
        }
        i = i + 1;
        proof {
            assert(v@ =~= fold_name(s@).subrange(0, i as int));
        }
    }
    proof {
        assert(v@ =~= fold_name(s@));
    }
    v
}

/// Byte-string equality.
pub fn bytes_eq(a: &Vec<u8>, b: &Vec<u8>) -> (r: bool)
    ensures
        r == (a@ == b@),
{
    if a.len() != b.len() {
        proof {
            assert(a@.len() != b@.len());
        }
        return false;
    }
    let mut i: usize = 0;
    while i < a.len()
        invariant
            i <= a@.len(),
            a@.len() == b@.len(),
            forall|j: int| 0 <= j < i ==> a@[j] == b@[j],
        decreases a@.len() - i,
    {
        if a[i] != b[i] {
            return false;
        }
        i = i + 1;
    }
    proof {
        assert(a@ =~= b@);
    }
    true
}

/// Whether a type reference resolves in a table of `n` definitions.
fn ty_ok(t: Type, n: usize) -> (r: bool)
    ensures
        r == crate::model::ty_wf(t, n as nat),
{
    match t {
        Type::Id(i) => i < n,
        _ => true,
    }
}

/// Whether the names of a parameter list are pairwise distinct.
fn param_names_distinct(ps: &Vec<Param>) -> (r: bool)
    ensures
        r == crate::model::names_unique(crate::model::param_names(ps@)),
{
    let ghost ids = crate::model::param_names(ps@);
    let mut i: usize = 0;
    while i < ps.len()
        invariant
            i <= ps@.len(),
            ids == crate::model::param_names(ps@),
            forall|p: int, q: int| 0 <= p < q < ps@.len() && p < i ==> ids[p] != ids[q],
        decreases ps@.len() - i,
    {
        let mut j: usize = i + 1;
        while j < ps.len()
            invariant
                i < j <= ps@.len(),
                i < ps@.len(),
                ids == crate::model::param_names(ps@),
                forall|q: int| i < q < j ==> ids[i as int] != ids[q],
            decreases ps@.len() - j,
        {
            if bytes_eq(&ps[i].name, &ps[j].name) {
                proof {
                    assert(ids[i as int] == ids[j as int]);
                }
                return false;
            }
            j = j + 1;
        }
        i = i + 1;
    }
    proof {
        assert forall|p: int, q: int| 0 <= p < q < ids.len() implies ids[p] != ids[q] by {
            assert(0 <= p < q < ps@.len() && p < i);
        }
    }
    true
}

/// Whether one type definition's shape is well formed against `n`
/// definitions.
fn kind_ok(k: &TypeDefKind, n: usize) -> (r: bool)
    ensures
        r == crate::model::kind_wf(*k, n as nat),
{
    match k {
        TypeDefKind::Record(fs) => {
            let mut j: usize = 0;
            while j < fs.len()
                invariant
                    j <= fs@.len(),
                    *k == TypeDefKind::Record(*fs),
                    forall|p: int| 0 <= p < j ==> crate::model::ty_wf(fs@[p].ty, n as nat),
                decreases fs@.len() - j,
            {
                if !ty_ok(fs[j].ty, n) {
                    return false;
                }
                j = j + 1;
            }
            true
        },
        TypeDefKind::Variant(cs) => {
            if cs.len() < 1 || cs.len() as u64 > u32::MAX as u64 {
                return false;
            }
            let mut j: usize = 0;
            while j < cs.len()
                invariant
                    j <= cs@.len(),
                    *k == TypeDefKind::Variant(*cs),
                    1 <= cs@.len() <= u32::MAX,
                    forall|p: int| 0 <= p < j ==> crate::model::case_wf(#[trigger] cs@[p], n as nat),
                decreases cs@.len() - j,
            {
                let ok = match &cs[j].payload {
                    Some(t) => ty_ok(*t, n),
                    None => true,
                };
                if !ok {
                    return false;
                }
                j = j + 1;
            }
            true
        },
        TypeDefKind::Flags(names) => true,
        TypeDefKind::List(t) => ty_ok(*t, n),
        TypeDefKind::Handle(m) => true,
    }
}

/// Whether one function is well formed against `n` definitions.
fn fn_ok(f: &Function, n: usize) -> (r: bool)
    ensures
        r == crate::model::fn_wf(*f, n as nat),
{
    let mut j: usize = 0;
    while j < f.params.len()
        invariant
            j <= f.params@.len(),
            forall|p: int| 0 <= p < j ==> crate::model::ty_wf(f.params@[p].ty, n as nat),
        decreases f.params@.len() - j,
    {
        if !ty_ok(f.params[j].ty, n) {
            return false;
        }
        j = j + 1;
    }
    let mut j2: usize = 0;
    while j2 < f.results.len()
        invariant
            j2 <= f.results@.len(),
            forall|p: int| 0 <= p < j2 ==> crate::model::ty_wf(f.results@[p].ty, n as nat),
        decreases f.results@.len() - j2,
    {
        if !ty_ok(f.results[j2].ty, n) {
            return false;
        }
        j2 = j2 + 1;
    }
    if !param_names_distinct(&f.params) {
        return false;
    }
    if !param_names_distinct(&f.results) {
        return false;
    }
    true
}

/// Whether an interface satisfies the model invariants the generator
/// trusts: every type reference resolves and names are unique.  A front
/// end, or an embedding that received a model from elsewhere, can run this
/// once to discharge the entry points' precondition.
pub fn check_interface(iface: &Interface) -> (r: bool)
    ensures
        r == crate::model::iface_wf(*iface),
{
    let n = iface.types.len();
    let mut k: usize = 0;
    while k < iface.types.len()
        invariant
            k <= iface.types@.len(),
            n == iface.types@.len(),
            forall|p: int|
                0 <= p < k ==> crate::model::kind_wf(
                    (#[trigger] iface.types@[p]).kind,
                    iface.types@.len() as nat,
                ),
        decreases iface.types@.len() - k,
    {
        if !kind_ok(&iface.types[k].kind, n) {
            return false;
        }
        k = k + 1;
    }
    let mut k2: usize = 0;
    while k2 < iface.functions.len()
        invariant
            k2 <= iface.functions@.len(),
            n == iface.types@.len(),
            forall|p: int|
                0 <= p < k2 ==> crate::model::fn_wf(
                    #[trigger] iface.functions@[p],
                    iface.types@.len() as nat,
                ),
        decreases iface.functions@.len() - k2,
    {
        if !fn_ok(&iface.functions[k2], n) {
            return false;
        }
        k2 = k2 + 1;
    }
    let ghost ids = crate::model::function_names(iface.functions@);
    let mut a: usize = 0;
    while a < iface.functions.len()
        invariant
            a <= iface.functions@.len(),
            ids == crate::model::function_names(iface.functions@),
            n == iface.types@.len(),
            forall|p: int|
                0 <= p < iface.functions@.len() ==> crate::model::fn_wf(
                    #[trigger] iface.functions@[p],
                    iface.types@.len() as nat,
                ),
            forall|k3: int|
                0 <= k3 < iface.types@.len() ==> crate::model::kind_wf(
                    (#[trigger] iface.types@[k3]).kind,
                    iface.types@.len() as nat,
                ),
            forall|p: int, q: int|
                0 <= p < q < iface.functions@.len() && p < a ==> ids[p] != ids[q],
        decreases iface.functions@.len() - a,
    {
        let mut b: usize = a + 1;
        while b < iface.functions.len()
            invariant
                a < b <= iface.functions@.len(),
                a < iface.functions@.len(),
                ids == crate::model::function_names(iface.functions@),
                forall|q: int| a < q < b ==> ids[a as int] != ids[q],
            decreases iface.functions@.len() - b,
        {
            if bytes_eq(&iface.functions[a].name, &iface.functions[b].name) {
                proof {
                    assert(ids[a as int] == ids[b as int]);
                }
                return false;
            }
            b = b + 1;
        }
        a = a + 1;
    }
    proof {
        assert forall|p: int, q: int| 0 <= p < q < ids.len() implies ids[p] != ids[q] by {
            assert(0 <= p < q < iface.functions@.len() && p < a);
        }
    }
    true
}

/// The identities of an interface's functions: the case-folded function
/// names.
pub open spec fn fn_idents(fs: Seq<Function>) -> Seq<Seq<u8>> {
    fs.map_values(|f: Function| fold_name(f.name@))
}

/// No two functions of the sequence generate items with the same identity.
pub open spec fn no_collision(ids: Seq<Seq<u8>>) -> bool {
    forall|i: int, j: int| 0 <= i < j < ids.len() ==> ids[i] != ids[j]
}

/// Finds the first pair of names with the same generated identity.
pub fn find_collision(names: &Vec<Vec<u8>>) -> (r: Option<(usize, usize)>)
    ensures
        match r {
            Some((i, j)) => 0 <= i < j < names@.len() && fold_name(names@[i as int]@) == fold_name(
                names@[j as int]@,
            ),
            None => no_collision(names@.map_values(|n: Vec<u8>| fold_name(n@))),
        },
{
    let ghost ids = names@.map_values(|n: Vec<u8>| fold_name(n@));
    let mut folded: Vec<Vec<u8>> = Vec::new();
    let mut k: usize = 0;
    while k < names.len()
        invariant
            k <= names@.len(),
            folded@.len() == k,
            ids == names@.map_values(|n: Vec<u8>| fold_name(n@)),
            forall|j: int| 0 <= j < k ==> folded@[j]@ == ids[j],
        decreases names@.len() - k,
    {
        let f = fold_name_exec(&names[k]);
        folded.push(f);
        k = k + 1;
    }
    let mut i: usize = 0;
    while i < folded.len()
        invariant
            i <= folded@.len(),
            folded@.len() == names@.len(),
            ids == names@.map_values(|n: Vec<u8>| fold_name(n@)),
            forall|j: int| 0 <= j < folded@.len() ==> folded@[j]@ == ids[j],
            forall|p: int, q: int| 0 <= p < q < folded@.len() && p < i ==> ids[p] != ids[q],
        decreases folded@.len() - i,
    {
        let mut j: usize = i + 1;
        while j < folded.len()
            invariant
                i < j <= folded@.len(),
                i < folded@.len(),
                folded@.len() == names@.len(),
                ids == names@.map_values(|n: Vec<u8>| fold_name(n@)),
                forall|jj: int| 0 <= jj < folded@.len() ==> folded@[jj]@ == ids[jj],
                forall|q: int| i < q < j ==> ids[i as int] != ids[q],
            decreases folded@.len() - j,
        {
            if bytes_eq(&folded[i], &folded[j]) {
                proof {
                    assert(ids[i as int] == fold_name(names@[i as int]@));
                    assert(ids[j as int] == fold_name(names@[j as int]@));
                }
                return Some((i, j));
            }
            j = j + 1;
        }
        i = i + 1;
    }
    proof {
        assert forall|p: int, q: int| 0 <= p < q < ids.len() implies ids[p] != ids[q] by {
            assert(0 <= p < q < folded@.len() && p < i);
        }
    }
    None
}

/// A finished bundle: the map from logical output name to generated source
/// bytes for one run.
pub struct OutputBundle {
    pub entries: Vec<(Vec<u8>, Vec<u8>)>,
}

impl OutputBundle {
    /// An empty bundle holds no fragments at all.
    pub fn new() -> (r: OutputBundle)
        ensures
            r.entries@.len() == 0,
    {
        OutputBundle { entries: Vec::new() }
    }

    /// How many named outputs the run produced.
    pub fn len(&self) -> (r: usize)
        ensures
            r == self.entries@.len(),
    {
        self.entries.len()
    }
}

/// The classification of one type reference under a run's cache, as an
/// executable lookup: named types come from the cache, primitives are
/// rebuilt directly.
pub fn abi_for(ts: &Vec<TypeDef>, cache: &Vec<AbiType>, t: Type) -> (r: AbiType)
    requires
        cache@.len() == ts@.len(),
        forall|k: int|
            0 <= k < ts@.len() ==> td_abi(ts@, k) == Ok::<AbiSpec, AbiErr>((#[trigger] cache@[k])@),
        match t {
            Type::Id(i) => i < ts@.len(),
            _ => true,
        },
    ensures
        Ok::<AbiSpec, AbiErr>(r@) == ty_abi(ts@, t),
{
    match t {
        Type::Id(i) => {
            let a = &cache[i];
            let flat = match &a.flat {
                Some(ks) => {
                    let mut v: Vec<CoreKind> = Vec::new();
                    let mut p: usize = 0;
                    while p < ks.len()
                        invariant
                            p <= ks@.len(),
                            v@ == ks@.subrange(0, p as int),
                        decreases ks@.len() - p,
                    {
                        v.push(ks[p]);
                        p = p + 1;
                        proof {
                            assert(v@ =~= ks@.subrange(0, p as int));
                        }
                    }
                    proof {
                        assert(v@ =~= ks@);
                    }
                    Some(v)
                },
                None => None,
            };
            AbiType { flat, size: a.size, align: a.align }
        },
        _ => classify_prim(t),
    }
}

/// The comma-separated list of parameter names.
pub open spec fn names_text(ps: Seq<Param>, i: nat) -> Seq<u8>
    decreases i,
{
    if i == 0 {
        Seq::empty()
    } else if i == 1 {
        ps[0].name@
    } else {
        names_text(ps, (i - 1) as nat) + lit(", ") + ps[i - 1].name@
    }
}

/// Writes the comma-separated list of parameter names.
#[verifier::rlimit(100)]
pub fn emit_names(out: &mut Vec<u8>, ps: &Vec<Param>)
    ensures
        final(out)@ == old(out)@ + names_text(ps@, ps@.len()),
{
    let mut i: usize = 0;
    while i < ps.len()
        invariant
            i <= ps@.len(),
            out@ == old(out)@ + names_text(ps@, i as nat),
        decreases ps@.len() - i,
    {
        if i > 0 {
            push_lit(out, ", ");
        }
        push_name(out, &ps[i].name);
        i = i + 1;
        proof {
            assert(out@ =~= old(out)@ + names_text(ps@, i as nat));
        }
    }
}

/// The comma-separated list of result types, as the high-level signature
/// shows them.
pub open spec fn result_tys_text(ts: Seq<TypeDef>, rs: Seq<Param>, i: nat) -> Seq<u8>
    decreases i,
{
    if i == 0 {
        Seq::empty()
    } else if i == 1 {
        ty_text(ts, rs[0].ty)
    } else {
        result_tys_text(ts, rs, (i - 1) as nat) + lit(", ") + ty_text(ts, rs[i - 1].ty)
    }
}

/// Writes the comma-separated list of result types.
#[verifier::rlimit(100)]
pub fn emit_result_tys(out: &mut Vec<u8>, ts: &Vec<TypeDef>, rs: &Vec<Param>)
    ensures
        final(out)@ == old(out)@ + result_tys_text(ts@, rs@, rs@.len()),
{
    let mut i: usize = 0;
    while i < rs.len()
        invariant
            i <= rs@.len(),
            out@ == old(out)@ + result_tys_text(ts@, rs@, i as nat),
        decreases rs@.len() - i,
    {
        if i > 0 {
            push_lit(out, ", ");
        }
        emit_ty(out, ts, rs[i].ty);
        i = i + 1;
        proof {
            assert(out@ =~= old(out)@ + result_tys_text(ts@, rs@, i as nat));
        }
    }
}

/// The flattened-call argument list: one lowered name per flattened
/// parameter, a pointer and length per indirect one.
pub open spec fn call_args_text(ts: Seq<TypeDef>, ps: Seq<Param>, i: nat) -> Seq<u8>
    decreases i,
{
    if i == 0 {
        Seq::empty()
    } else {
        let head = if i == 1 {
            Seq::<u8>::empty()
        } else {
            call_args_text(ts, ps, (i - 1) as nat) + lit(", ")
        };
        head + match shape_of(ts, ps[i - 1].ty) {
            AbiSpecLike::Flat(n) => lit("lowered_") + ps[i - 1].name@,
            AbiSpecLike::Indirect => lit("ptr_") + ps[i - 1].name@ + lit(", len_") + ps[i
                - 1].name@,
        }
    }
}

/// The emitter's shape for one type under the canonical classification.
pub open spec fn shape_of(ts: Seq<TypeDef>, t: Type) -> AbiSpecLike {
    match ty_abi(ts, t) {
        Ok(a) => match a.flat {
            Some(ks) => AbiSpecLike::Flat(ks.len()),
            None => AbiSpecLike::Indirect,
        },
        Err(e) => AbiSpecLike::Indirect,
    }
}

/// Writes the flattened-call argument list.
#[verifier::rlimit(100)]
#[verifier::spinoff_prover]
pub fn emit_call_args(out: &mut Vec<u8>, ts: &Vec<TypeDef>, cache: &Vec<AbiType>, ps: &Vec<Param>)
    requires
        cache@.len() == ts@.len(),
        forall|k: int|
            0 <= k < ts@.len() ==> td_abi(ts@, k) == Ok::<AbiSpec, AbiErr>((#[trigger] cache@[k])@),
        forall|j: int|
            0 <= j < ps@.len() ==> match (#[trigger] ps@[j].ty) {
                Type::Id(i) => i < ts@.len(),
                _ => true,
            },
    ensures
        final(out)@ == old(out)@ + call_args_text(ts@, ps@, ps@.len()),
{
    let mut i: usize = 0;
    while i < ps.len()
        invariant
            i <= ps@.len(),
            cache@.len() == ts@.len(),
            forall|k: int|
                0 <= k < ts@.len() ==> td_abi(ts@, k) == Ok::<AbiSpec, AbiErr>(
                    (#[trigger] cache@[k])@,
                ),
            forall|j: int|
                0 <= j < ps@.len() ==> match (#[trigger] ps@[j].ty) {
                    Type::Id(i2) => i2 < ts@.len(),
                    _ => true,
                },
            out@ == old(out)@ + call_args_text(ts@, ps@, i as nat),
        decreases ps@.len() - i,
    {
        if i > 0 {
            push_lit(out, ", ");
        }
        let a = abi_for(ts, cache, ps[i].ty);
        match &a.flat {
            Some(_) => {
                push_lit(out, "lowered_");
                push_name(out, &ps[i].name);
            },
            None => {
                push_lit(out, "ptr_");
                push_name(out, &ps[i].name);
                push_lit(out, ", len_");
                push_name(out, &ps[i].name);
            },
        }
        i = i + 1;
        proof {
            assert(out@ =~= old(out)@ + call_args_text(ts@, ps@, i as nat));
        }
    }
}

/// The block of lowering statements for the first `i` parameters.
pub open spec fn lower_block_text(ts: Seq<TypeDef>, ps: Seq<Param>, i: nat) -> Seq<u8>
    decreases i,
{
    if i == 0 {
        Seq::empty()
    } else {
        lower_block_text(ts, ps, (i - 1) as nat) + lower_stmt_text(
            ts,
            ps[i - 1],
            shape_of(ts, ps[i - 1].ty),
        )
    }
}

/// The block of lifting statements for the first `i` results.
pub open spec fn lift_block_text(ts: Seq<TypeDef>, ps: Seq<Param>, i: nat) -> Seq<u8>
    decreases i,
{
    if i == 0 {
        Seq::empty()
    } else {
        lift_block_text(ts, ps, (i - 1) as nat) + lift_stmt_text(
            ts,
            ps[i - 1],
            shape_of(ts, ps[i - 1].ty),
        )
    }
}

/// The block of cleanup statements for the first `i` parameters.
pub open spec fn cleanup_block_text(ts: Seq<TypeDef>, ps: Seq<Param>, i: nat) -> Seq<u8>
    decreases i,
{
    if i == 0 {
        Seq::empty()
    } else {
        cleanup_block_text(ts, ps, (i - 1) as nat) + cleanup_stmt_text(
            ps[i - 1],
            shape_of(ts, ps[i - 1].ty),
        )
    }
}

/// Writes the block of lowering statements for all given parameters.
#[verifier::rlimit(100)]
pub fn emit_lower_block(
    out: &mut Vec<u8>,
    ts: &Vec<TypeDef>,
    cache: &Vec<AbiType>,
    ps: &Vec<Param>,
)
    requires
        cache@.len() == ts@.len(),
        forall|k: int|
            0 <= k < ts@.len() ==> td_abi(ts@, k) == Ok::<AbiSpec, AbiErr>((#[trigger] cache@[k])@),
        forall|j: int|
            0 <= j < ps@.len() ==> match (#[trigger] ps@[j].ty) {
                Type::Id(i) => i < ts@.len(),
                _ => true,
            },
    ensures
        final(out)@ == old(out)@ + lower_block_text(ts@, ps@, ps@.len()),
{
    let mut i: usize = 0;
    while i < ps.len()
        invariant
            i <= ps@.len(),
            cache@.len() == ts@.len(),
            forall|k: int|
                0 <= k < ts@.len() ==> td_abi(ts@, k) == Ok::<AbiSpec, AbiErr>(
                    (#[trigger] cache@[k])@,
                ),
            forall|j: int|
                0 <= j < ps@.len() ==> match (#[trigger] ps@[j].ty) {
                    Type::Id(i2) => i2 < ts@.len(),
                    _ => true,
                },
            out@ == old(out)@ + lower_block_text(ts@, ps@, i as nat),
        decreases ps@.len() - i,
    {
        let a = abi_for(ts, cache, ps[i].ty);
        emit_lower_stmt(out, ts, &ps[i], &a);
        i = i + 1;
        proof {
            assert(abi_shape(a) == shape_of(ts@, ps@[i - 1].ty));
            assert(out@ =~= old(out)@ + lower_block_text(ts@, ps@, i as nat));
        }
    }
}

/// Writes the block of lifting statements for all given results.
#[verifier::rlimit(100)]
pub fn emit_lift_block(out: &mut Vec<u8>, ts: &Vec<TypeDef>, cache: &Vec<AbiType>, ps: &Vec<Param>)
    requires
        cache@.len() == ts@.len(),
        forall|k: int|
            0 <= k < ts@.len() ==> td_abi(ts@, k) == Ok::<AbiSpec, AbiErr>((#[trigger] cache@[k])@),
        forall|j: int|
            0 <= j < ps@.len() ==> match (#[trigger] ps@[j].ty) {
                Type::Id(i) => i < ts@.len(),
                _ => true,
            },
    ensures
        final(out)@ == old(out)@ + lift_block_text(ts@, ps@, ps@.len()),
{
    let mut i: usize = 0;
    while i < ps.len()
        invariant
            i <= ps@.len(),
            cache@.len() == ts@.len(),
            forall|k: int|
                0 <= k < ts@.len() ==> td_abi(ts@, k) == Ok::<AbiSpec, AbiErr>(
                    (#[trigger] cache@[k])@,
                ),
            forall|j: int|
                0 <= j < ps@.len() ==> match (#[trigger] ps@[j].ty) {
                    Type::Id(i2) => i2 < ts@.len(),
                    _ => true,
                },
            out@ == old(out)@ + lift_block_text(ts@, ps@, i as nat),
        decreases ps@.len() - i,
    {
        let a = abi_for(ts, cache, ps[i].ty);
        emit_lift_stmt(out, ts, &ps[i], &a);
        i = i + 1;
        proof {
            assert(abi_shape(a) == shape_of(ts@, ps@[i - 1].ty));
            assert(out@ =~= old(out)@ + lift_block_text(ts@, ps@, i as nat));
        }
    }
}

/// Writes the block of cleanup statements for all given parameters.
#[verifier::rlimit(100)]
pub fn emit_cleanup_block(
    out: &mut Vec<u8>,
    ts: &Vec<TypeDef>,
    cache: &Vec<AbiType>,
    ps: &Vec<Param>,
)
    requires
        cache@.len() == ts@.len(),
        forall|k: int|
            0 <= k < ts@.len() ==> td_abi(ts@, k) == Ok::<AbiSpec, AbiErr>((#[trigger] cache@[k])@),
        forall|j: int|
            0 <= j < ps@.len() ==> match (#[trigger] ps@[j].ty) {
                Type::Id(i) => i < ts@.len(),
                _ => true,
            },
    ensures
        final(out)@ == old(out)@ + cleanup_block_text(ts@, ps@, ps@.len()),
{
    let mut i: usize = 0;
    while i < ps.len()
        invariant
            i <= ps@.len(),
            cache@.len() == ts@.len(),
            forall|k: int|
                0 <= k < ts@.len() ==> td_abi(ts@, k) == Ok::<AbiSpec, AbiErr>(
                    (#[trigger] cache@[k])@,
                ),
            forall|j: int|
                0 <= j < ps@.len() ==> match (#[trigger] ps@[j].ty) {
                    Type::Id(i2) => i2 < ts@.len(),
                    _ => true,
                },
            out@ == old(out)@ + cleanup_block_text(ts@, ps@, i as nat),
        decreases ps@.len() - i,
    {
        let a = abi_for(ts, cache, ps[i].ty);
        emit_cleanup_stmt(out, &ps[i], &a);
        i = i + 1;
        proof {
            assert(abi_shape(a) == shape_of(ts@, ps@[i - 1].ty));
            assert(out@ =~= old(out)@ + cleanup_block_text(ts@, ps@, i as nat));
        }
    }
}

/// Whether a type reference is a handle whose ownership transfers across
/// the boundary.  A borrowed handle stays with its owner and needs no
/// cleanup; an owned one moves, so the side that lowered it retires its
/// table entry after the call.
pub open spec fn owned_handle(ts: Seq<TypeDef>, t: Type) -> bool {
    match t {
        Type::Id(i) => i < ts.len() && ts[i as int].kind == TypeDefKind::Handle(HandleMode::Owned),
        _ => false,
    }
}

/// The block of handle-release statements for the first `i` lowered
/// values: one release per owned handle, nothing for borrows or other
/// types.
pub open spec fn release_block_text(ts: Seq<TypeDef>, ps: Seq<Param>, i: nat) -> Seq<u8>
    decreases i,
{
    if i == 0 {
        Seq::empty()
    } else {
        release_block_text(ts, ps, (i - 1) as nat) + release_stmt_text(
            ps[i - 1],
            owned_handle(ts, ps[i - 1].ty),
        )
    }
}

/// Writes the block of handle-release statements for all given lowered
/// values.
#[verifier::rlimit(100)]
pub fn emit_release_block(out: &mut Vec<u8>, ts: &Vec<TypeDef>, ps: &Vec<Param>)
    ensures
        final(out)@ == old(out)@ + release_block_text(ts@, ps@, ps@.len()),
{
    let mut i: usize = 0;
    while i < ps.len()
        invariant
            i <= ps@.len(),
            out@ == old(out)@ + release_block_text(ts@, ps@, i as nat),
        decreases ps@.len() - i,
    {
        let owned = match ps[i].ty {
            Type::Id(ix) => {
                if ix < ts.len() {
                    match &ts[ix].kind {
                        TypeDefKind::Handle(m) => match m {
                            HandleMode::Owned => true,
                            HandleMode::Borrowed => false,
                        },
                        _ => false,
                    }
                } else {
                    false
                }
            },
            _ => false,
        };
        proof {
            assert(owned == owned_handle(ts@, ps@[i as int].ty));
        }
        emit_release_stmt(out, &ps[i], owned);
        i = i + 1;
        proof {
            assert(out@ =~= old(out)@ + release_block_text(ts@, ps@, i as nat));
        }
    }
}

/// The high-level signature line of one binding.
///
/// The Import binding is the caller the embedding invokes; the Export
/// binding is the trampoline a runtime registers, so it takes the raw core
/// values and the shared memory.
pub open spec fn sig_text(ts: Seq<TypeDef>, f: Function, dir: Direction) -> Seq<u8> {
    match dir {
        Direction::Import => lit("pub fn ") + f.name@ + lit("(&self") + (if f.params@.len() > 0 {
            lit(", ") + params_text(ts, f.params@, f.params@.len())
        } else {
            Seq::<u8>::empty()
        }) + lit(") -> Result<(") + result_tys_text(ts, f.results@, f.results@.len()) + lit(
            "), Trap> {\n    let mut memory = self.instance.memory();\n",
        ),
        Direction::Export => lit("pub fn ") + f.name@ + lit(
            "_trampoline(host: &mut Host, memory: &mut Memory, raw_args: &[CoreValue]) -> Result<Vec<CoreValue>, Trap> {\n",
        ),
    }
}

/// The line that crosses the boundary: the flattened core call on the
/// Import side, the invocation of the user-supplied implementation on the
/// Export side.
pub open spec fn call_text(ts: Seq<TypeDef>, f: Function, dir: Direction) -> Seq<u8> {
    match dir {
        Direction::Import => lit("    let raw = call_core(&self.instance, \"") + f.name@ + lit(
            "\", &[",
        ) + call_args_text(ts, f.params@, f.params@.len()) + lit("])?;\n"),
        Direction::Export => lit("    let (") + names_text(f.results@, f.results@.len()) + lit(
            ") = host.",
        ) + f.name@ + lit("(") + names_text(f.params@, f.params@.len()) + lit(")?;\n"),
    }
}

/// The closing line of one binding: what it hands back to its caller.
pub open spec fn ret_text(ts: Seq<TypeDef>, f: Function, dir: Direction) -> Seq<u8> {
    match dir {
        Direction::Import => lit("    Ok((") + names_text(f.results@, f.results@.len()) + lit(
            "))\n}\n\n",
        ),
        Direction::Export => lit("    Ok(vec![") + call_args_text(ts, f.results@, f.results@.len())
            + lit("])\n}\n\n"),
    }
}

/// The full binding unit for one function in one direction.
///
/// The Import binding is the caller: it lowers its arguments, performs the
/// flattened call against the loaded module, and lifts the results.  The
/// Export binding is the callee trampoline: it lifts the arguments the
/// caller wrote, invokes the user-supplied implementation, and lowers its
/// results back.  Cleanup follows ownership, each resource retired exactly
/// once: a buffer lowered into linear memory belongs to the side that
/// lifts it, so the Import binding frees the result buffers it lifted and
/// the Export trampoline frees the argument buffers it lifted — never both
/// sides, never neither.  An owned handle moves with the call, so the side
/// that lowered it releases its own table entry — the Import binding for
/// owned-handle arguments, the Export trampoline for owned-handle results
/// — while borrowed handles stay with their owner and get no cleanup.
#[verifier::opaque]
pub open spec fn binding_text(ts: Seq<TypeDef>, f: Function, dir: Direction) -> Seq<u8> {
    match dir {
        Direction::Import => sig_text(ts, f, dir) + lower_block_text(ts, f.params@, f.params@.len())
            + call_text(ts, f, dir) + lift_block_text(ts, f.results@, f.results@.len())
            + release_block_text(ts, f.params@, f.params@.len()) + cleanup_block_text(
            ts,
            f.results@,
            f.results@.len(),
        ) + ret_text(ts, f, dir),
        Direction::Export => sig_text(ts, f, dir) + lift_block_text(ts, f.params@, f.params@.len())
            + call_text(ts, f, dir) + lower_block_text(ts, f.results@, f.results@.len())
            + cleanup_block_text(ts, f.params@, f.params@.len()) + release_block_text(
            ts,
            f.results@,
            f.results@.len(),
        ) + ret_text(ts, f, dir),
    }
}

/// Writes the signature line of one binding.
#[verifier::rlimit(100)]
pub fn emit_sig(out: &mut Vec<u8>, ts: &Vec<TypeDef>, f: &Function, dir: Direction)
    ensures
        final(out)@ == old(out)@ + sig_text(ts@, *f, dir),
{
    match dir {
        Direction::Import => {
            push_lit(out, "pub fn ");
            push_name(out, &f.name);
            push_lit(out, "(&self");
            if f.params.len() > 0 {
                push_lit(out, ", ");
                emit_params(out, ts, &f.params);
            }
            push_lit(out, ") -> Result<(");
            emit_result_tys(out, ts, &f.results);
            push_lit(out, "), Trap> {\n    let mut memory = self.instance.memory();\n");
            proof {
                assert(out@ =~= old(out)@ + sig_text(ts@, *f, dir));
            }
        },
        Direction::Export => {
            push_lit(out, "pub fn ");
            push_name(out, &f.name);
            push_lit(
                out,
                "_trampoline(host: &mut Host, memory: &mut Memory, raw_args: &[CoreValue]) -> Result<Vec<CoreValue>, Trap> {\n",
            );
            proof {
                assert(out@ =~= old(out)@ + sig_text(ts@, *f, dir));
            }
        },
    }
}

/// Writes the line that crosses the boundary.
#[verifier::rlimit(100)]
pub fn emit_call_line(
    out: &mut Vec<u8>,
    ts: &Vec<TypeDef>,
    cache: &Vec<AbiType>,
    f: &Function,
    dir: Direction,
)
    requires
        cache@.len() == ts@.len(),
        forall|k: int|
            0 <= k < ts@.len() ==> td_abi(ts@, k) == Ok::<AbiSpec, AbiErr>((#[trigger] cache@[k])@),
        forall|j: int|
            0 <= j < f.params@.len() ==> match (#[trigger] f.params@[j].ty) {
                Type::Id(i) => i < ts@.len(),
                _ => true,
            },
    ensures
        final(out)@ == old(out)@ + call_text(ts@, *f, dir),
{
    match dir {
        Direction::Import => {
            push_lit(out, "    let raw = call_core(&self.instance, \"");
            push_name(out, &f.name);
            push_lit(out, "\", &[");
            emit_call_args(out, ts, cache, &f.params);
            push_lit(out, "])?;\n");
            proof {
                assert(out@ =~= old(out)@ + call_text(ts@, *f, dir));
            }
        },
        Direction::Export => {
            push_lit(out, "    let (");
            emit_names(out, &f.results);
            push_lit(out, ") = host.");
            push_name(out, &f.name);
            push_lit(out, "(");
            emit_names(out, &f.params);
            push_lit(out, ")?;\n");
            proof {
                assert(out@ =~= old(out)@ + call_text(ts@, *f, dir));
            }
        },
    }
}

/// Writes the closing line of one binding.
#[verifier::rlimit(100)]
pub fn emit_ret(
    out: &mut Vec<u8>,
    ts: &Vec<TypeDef>,
    cache: &Vec<AbiType>,
    f: &Function,
    dir: Direction,
)
    requires
        cache@.len() == ts@.len(),
        forall|k: int|
            0 <= k < ts@.len() ==> td_abi(ts@, k) == Ok::<AbiSpec, AbiErr>((#[trigger] cache@[k])@),
        forall|j: int|
            0 <= j < f.results@.len() ==> match (#[trigger] f.results@[j].ty) {
                Type::Id(i) => i < ts@.len(),
                _ => true,
            },
    ensures
        final(out)@ == old(out)@ + ret_text(ts@, *f, dir),
{
    match dir {
        Direction::Import => {
            push_lit(out, "    Ok((");
            emit_names(out, &f.results);
            push_lit(out, "))\n}\n\n");
            proof {
                assert(out@ =~= old(out)@ + ret_text(ts@, *f, dir));
            }
        },
        Direction::Export => {
            push_lit(out, "    Ok(vec![");
            emit_call_args(out, ts, cache, &f.results);
            push_lit(out, "])\n}\n\n");
            proof {
                assert(out@ =~= old(out)@ + ret_text(ts@, *f, dir));
            }
        },
    }
}

/// Writes the full binding unit for one function.
#[verifier::rlimit(100)]
pub fn emit_binding(
    out: &mut Vec<u8>,
    ts: &Vec<TypeDef>,
    cache: &Vec<AbiType>,
    f: &Function,
    dir: Direction,
)
    requires
        cache@.len() == ts@.len(),
        forall|k: int|
            0 <= k < ts@.len() ==> td_abi(ts@, k) == Ok::<AbiSpec, AbiErr>((#[trigger] cache@[k])@),
        forall|j: int|
            0 <= j < f.params@.len() ==> match (#[trigger] f.params@[j].ty) {
                Type::Id(i) => i < ts@.len(),
                _ => true,
            },
        forall|j: int|
            0 <= j < f.results@.len() ==> match (#[trigger] f.results@[j].ty) {
                Type::Id(i) => i < ts@.len(),
                _ => true,
            },
    ensures
        final(out)@ == old(out)@ + binding_text(ts@, *f, dir),
{
    emit_sig(out, ts, f, dir);
    match dir {
        Direction::Import => {
            emit_lower_block(out, ts, cache, &f.params);
            emit_call_line(out, ts, cache, f, dir);
            emit_lift_block(out, ts, cache, &f.results);
            emit_release_block(out, ts, &f.params);
            emit_cleanup_block(out, ts, cache, &f.results);
        },
        Direction::Export => {
            emit_lift_block(out, ts, cache, &f.params);
            emit_call_line(out, ts, cache, f, dir);
            emit_lower_block(out, ts, cache, &f.results);
            emit_cleanup_block(out, ts, cache, &f.params);
            emit_release_block(out, ts, &f.results);
        },
    }
    emit_ret(out, ts, cache, f, dir);
    proof {
        reveal(binding_text);
        assert(out@ =~= old(out)@ + binding_text(ts@, *f, dir));
    }
}

/// The declaration of one record field, `name: Type,` on its own line.
pub open spec fn field_decl_text(ts: Seq<TypeDef>, f: Field) -> Seq<u8> {
    lit("    pub ") + f.name@ + lit(": ") + ty_text(ts, f.ty) + lit(",\n")
}

/// The declarations of the first `i` record fields.
pub open spec fn fields_decl_text(ts: Seq<TypeDef>, fs: Seq<Field>, i: nat) -> Seq<u8>
    decreases i,
{
    if i == 0 {
        Seq::empty()
    } else {
        fields_decl_text(ts, fs, (i - 1) as nat) + field_decl_text(ts, fs[i - 1])
    }
}

/// The declaration of one variant case, with its payload type if any.
pub open spec fn case_decl_text(ts: Seq<TypeDef>, c: Case) -> Seq<u8> {
    lit("    ") + c.name@ + (match c.payload {
        Some(t) => lit("(") + ty_text(ts, t) + lit(")"),
        None => Seq::<u8>::empty(),
    }) + lit(",\n")
}

/// The declarations of the first `i` variant cases.
pub open spec fn cases_decl_text(ts: Seq<TypeDef>, cs: Seq<Case>, i: nat) -> Seq<u8>
    decreases i,
{
    if i == 0 {
        Seq::empty()
    } else {
        cases_decl_text(ts, cs, (i - 1) as nat) + case_decl_text(ts, cs[i - 1])
    }
}

/// The comma-separated list of the first `i` flag-bit names.
pub open spec fn flag_names_text(names: Seq<Vec<u8>>, i: nat) -> Seq<u8>
    decreases i,
{
    if i == 0 {
        Seq::empty()
    } else if i == 1 {
        names[0]@
    } else {
        flag_names_text(names, (i - 1) as nat) + lit(", ") + names[i - 1]@
    }
}

/// The source-language definition of one named type, so the generated
/// signatures refer only to types the bundle itself declares.
pub open spec fn typedef_text(ts: Seq<TypeDef>, td: TypeDef) -> Seq<u8> {
    match td.kind {
        TypeDefKind::Record(fs) => lit("pub struct ") + td.name@ + lit(" {\n") + fields_decl_text(
            ts,
            fs@,
            fs@.len(),
        ) + lit("}\n\n"),
        TypeDefKind::Variant(cs) => lit("pub enum ") + td.name@ + lit(" {\n") + cases_decl_text(
            ts,
            cs@,
            cs@.len(),
        ) + lit("}\n\n"),
        TypeDefKind::Flags(names) => lit("pub struct ") + td.name@ + lit(
            "(pub u64); // bit flags: ",
        ) + flag_names_text(names@, names@.len()) + lit("\n\n"),
        TypeDefKind::List(t) => lit("pub type ") + td.name@ + lit(" = Vec<") + ty_text(ts, t) + lit(
            ">;\n\n",
        ),
        TypeDefKind::Handle(m) => lit("pub struct ") + td.name@ + (match m {
            HandleMode::Owned => lit("(pub u32); // owned handle\n\n"),
            HandleMode::Borrowed => lit("(pub u32); // borrowed handle\n\n"),
        }),
    }
}

/// The definitions of the first `i` named types of one interface.
pub open spec fn typedefs_text(ts: Seq<TypeDef>, i: nat) -> Seq<u8>
    decreases i,
{
    if i == 0 {
        Seq::empty()
    } else {
        typedefs_text(ts, (i - 1) as nat) + typedef_text(ts, ts[i - 1])
    }
}

/// Writes the definition of one named type.
#[verifier::rlimit(100)]
pub fn emit_typedef(out: &mut Vec<u8>, ts: &Vec<TypeDef>, td: &TypeDef)
    ensures
        final(out)@ == old(out)@ + typedef_text(ts@, *td),
{
    match &td.kind {
        TypeDefKind::Record(fs) => {
            push_lit(out, "pub struct ");
            push_name(out, &td.name);
            push_lit(out, " {\n");
            let mut i: usize = 0;
            while i < fs.len()
                invariant
                    i <= fs@.len(),
                    out@ == old(out)@ + lit("pub struct ") + td.name@ + lit(" {\n")
                        + fields_decl_text(ts@, fs@, i as nat),
                decreases fs@.len() - i,
            {
                push_lit(out, "    pub ");
                push_name(out, &fs[i].name);
                push_lit(out, ": ");
                emit_ty(out, ts, fs[i].ty);
                push_lit(out, ",\n");
                i = i + 1;
                proof {
                    assert(out@ =~= old(out)@ + lit("pub struct ") + td.name@ + lit(" {\n")
                        + fields_decl_text(ts@, fs@, i as nat));
                }
            }
            push_lit(out, "}\n\n");
            proof {
                assert(out@ =~= old(out)@ + typedef_text(ts@, *td));
            }
        },
        TypeDefKind::Variant(cs) => {
            push_lit(out, "pub enum ");
            push_name(out, &td.name);
            push_lit(out, " {\n");
            let mut i: usize = 0;
            while i < cs.len()
                invariant
                    i <= cs@.len(),
                    out@ == old(out)@ + lit("pub enum ") + td.name@ + lit(" {\n")
                        + cases_decl_text(ts@, cs@, i as nat),
                decreases cs@.len() - i,
            {
                push_lit(out, "    ");
                push_name(out, &cs[i].name);
                match &cs[i].payload {
                    Some(t) => {
                        push_lit(out, "(");
                        emit_ty(out, ts, *t);
                        push_lit(out, ")");
                    },
                    None => {},
                }
                push_lit(out, ",\n");
                i = i + 1;
                proof {
                    assert(out@ =~= old(out)@ + lit("pub enum ") + td.name@ + lit(" {\n")
                        + cases_decl_text(ts@, cs@, i as nat));
                }
            }
            push_lit(out, "}\n\n");
            proof {
                assert(out@ =~= old(out)@ + typedef_text(ts@, *td));
            }
        },
        TypeDefKind::Flags(names) => {
            push_lit(out, "pub struct ");
            push_name(out, &td.name);
            push_lit(out, "(pub u64); // bit flags: ");
            let mut i: usize = 0;
            while i < names.len()
                invariant
                    i <= names@.len(),
                    out@ == old(out)@ + lit("pub struct ") + td.name@ + lit(
                        "(pub u64); // bit flags: ",
                    ) + flag_names_text(names@, i as nat),
                decreases names@.len() - i,
            {
                if i > 0 {
                    push_lit(out, ", ");
                }
                push_name(out, &names[i]);
                i = i + 1;
                proof {
                    assert(out@ =~= old(out)@ + lit("pub struct ") + td.name@ + lit(
                        "(pub u64); // bit flags: ",
                    ) + flag_names_text(names@, i as nat));
                }
            }
            push_lit(out, "\n\n");
            proof {
                assert(out@ =~= old(out)@ + typedef_text(ts@, *td));
            }
        },
        TypeDefKind::List(t) => {
            push_lit(out, "pub type ");
            push_name(out, &td.name);
            push_lit(out, " = Vec<");
            emit_ty(out, ts, *t);
            push_lit(out, ">;\n\n");
            proof {
                assert(out@ =~= old(out)@ + typedef_text(ts@, *td));
            }
        },
        TypeDefKind::Handle(m) => {
            push_lit(out, "pub struct ");
            push_name(out, &td.name);
            match m {
                HandleMode::Owned => push_lit(out, "(pub u32); // owned handle\n\n"),
                HandleMode::Borrowed => push_lit(out, "(pub u32); // borrowed handle\n\n"),
            }
            proof {
                assert(out@ =~= old(out)@ + typedef_text(ts@, *td));
            }
        },
    }
}

/// The header of one interface's generated text.
pub open spec fn header_text(iface: Interface, dir: Direction) -> Seq<u8> {
    lit("// Bindings for interface \"") + iface.name@ + (match dir {
        Direction::Import => lit("\", import direction.\n"),
        Direction::Export => lit("\", export direction.\n"),
    }) + lit("use wasm_abi_support::*;\n\n")
}

/// The generated text of the first `i` function bindings of one interface.
pub open spec fn bindings_text(ts: Seq<TypeDef>, fs: Seq<Function>, dir: Direction, i: nat) -> Seq<
    u8,
>
    decreases i,
{
    if i == 0 {
        Seq::empty()
    } else {
        bindings_text(ts, fs, dir, (i - 1) as nat) + binding_text(ts, fs[i - 1], dir)
    }
}

/// The complete generated text of one interface in one direction: a
/// header, the definitions of the interface's named types, then one
/// binding unit per function.
pub open spec fn iface_text(iface: Interface, dir: Direction) -> Seq<u8> {
    header_text(iface, dir) + typedefs_text(iface.types@, iface.types@.len()) + bindings_text(
        iface.types@,
        iface.functions@,
        dir,
        iface.functions@.len(),
    )
}


/// Determinism of generation: any two successful runs over the same
/// interface and direction produce byte-identical output, entry name and
/// content alike, whatever else happened between them.  The contracts of
/// the entry points pin each run's output to `iface_text`, a function of
/// the interface and direction alone, so two runs can only agree.
pub proof fn lemma_determinism(
    iface: Interface,
    dir: Direction,
    b1: OutputBundle,
    b2: OutputBundle,
)
    requires
        b1.entries@.len() == 1,
        b1.entries@[0].0@ == lit("bindings.rs"),
        b1.entries@[0].1@ == iface_text(iface, dir),
        b2.entries@.len() == 1,
        b2.entries@[0].0@ == lit("bindings.rs"),
        b2.entries@[0].1@ == iface_text(iface, dir),
    ensures
        b1.entries@[0].0@ == b2.entries@[0].0@,
        b1.entries@[0].1@ == b2.entries@[0].1@,
{
}

/// The generated text of the first `i` interfaces of one set, in one
/// direction.
pub open spec fn ifaces_text(ifs: Seq<Interface>, dir: Direction, i: nat) -> Seq<u8>
    decreases i,
{
    if i == 0 {
        Seq::empty()
    } else {
        ifaces_text(ifs, dir, (i - 1) as nat) + iface_text(ifs[i - 1], dir)
    }
}

/// The identity one generated item carries inside a combined bundle: the
/// case-folded, interface-qualified name.
pub open spec fn qual_ident(iname: Seq<u8>, fname: Seq<u8>) -> Seq<u8> {
    fold_name(iname + lit("::") + fname)
}

/// The identities of one interface's generated items.
pub open spec fn iface_idents(iface: Interface) -> Seq<Seq<u8>> {
    iface.functions@.map_values(|f: Function| qual_ident(iface.name@, f.name@))
}

/// The identities of the first `i` interfaces of a set, in order.
pub open spec fn idents_upto(ifs: Seq<Interface>, i: nat) -> Seq<Seq<u8>>
    decreases i,
{
    if i == 0 {
        Seq::empty()
    } else {
        idents_upto(ifs, (i - 1) as nat) + iface_idents(ifs[i - 1])
    }
}

/// Every identity a combined run generates, imports first.
pub open spec fn all_idents(imports: Seq<Interface>, exports: Seq<Interface>) -> Seq<Seq<u8>> {
    idents_upto(imports, imports.len()) + idents_upto(exports, exports.len())
}

/// Concatenation of byte strings is associative.
pub proof fn lemma_seq_assoc<T>(a: Seq<T>, b: Seq<T>, c: Seq<T>)
    ensures
        (a + b) + c == a + (b + c),
{
    assert((a + b) + c =~= a + (b + c));
}

/// A cache that mirrors every definition's classification shows the whole
/// type table classifies.
pub proof fn lemma_cache_types_ok(ifs: Seq<Interface>, caches: Seq<Vec<AbiType>>)
    requires
        caches.len() == ifs.len(),
        forall|k: int|
            0 <= k < ifs.len() ==> {
                &&& (#[trigger] caches[k])@.len() == ifs[k].types@.len()
                &&& forall|t: int|
                    0 <= t < ifs[k].types@.len() ==> td_abi(ifs[k].types@, t) == Ok::<
                        AbiSpec,
                        AbiErr,
                    >((#[trigger] caches[k]@[t])@)
            },
    ensures
        forall|k: int| 0 <= k < ifs.len() ==> types_ok((#[trigger] ifs[k]).types@),
{
    assert forall|k: int| 0 <= k < ifs.len() implies types_ok((#[trigger] ifs[k]).types@) by {
        assert forall|t: int|
            0 <= t < ifs[k].types@.len() implies (#[trigger] td_abi(ifs[k].types@, t)) is Ok by {
            assert(td_abi(ifs[k].types@, t) == Ok::<AbiSpec, AbiErr>((caches[k]@[t])@));
        }
    }
}

/// Writes one interface's complete generated text: a header followed by one
/// binding unit per function, in declaration order.
#[verifier::rlimit(100)]
pub fn emit_iface(out: &mut Vec<u8>, iface: &Interface, cache: &Vec<AbiType>, dir: Direction)
    requires
        crate::model::iface_wf(*iface),
        cache@.len() == iface.types@.len(),
        forall|k: int|
            0 <= k < iface.types@.len() ==> td_abi(iface.types@, k) == Ok::<AbiSpec, AbiErr>(
                (#[trigger] cache@[k])@,
            ),
    ensures
        final(out)@ == old(out)@ + iface_text(*iface, dir),
{
    push_lit(out, "// Bindings for interface \"");
    push_name(out, &iface.name);
    match dir {
        Direction::Import => push_lit(out, "\", import direction.\n"),
        Direction::Export => push_lit(out, "\", export direction.\n"),
    }
    push_lit(out, "use wasm_abi_support::*;\n\n");
    proof {
        assert(out@ =~= old(out)@ + header_text(*iface, dir));
    }
    let ghost hdr = out@;
    let mut td: usize = 0;
    while td < iface.types.len()
        invariant
            td <= iface.types@.len(),
            hdr == old(out)@ + header_text(*iface, dir),
            out@ == hdr + typedefs_text(iface.types@, td as nat),
        decreases iface.types@.len() - td,
    {
        let ghost pre_tds = typedefs_text(iface.types@, td as nat);
        emit_typedef(out, &iface.types, &iface.types[td]);
        td = td + 1;
        proof {
            lemma_seq_assoc(hdr, pre_tds, typedef_text(iface.types@, iface.types@[td - 1]));
        }
    }
    let ghost base = out@;
    let mut i: usize = 0;
    while i < iface.functions.len()
        invariant
            i <= iface.functions@.len(),
            crate::model::iface_wf(*iface),
            cache@.len() == iface.types@.len(),
            forall|k: int|
                0 <= k < iface.types@.len() ==> td_abi(iface.types@, k) == Ok::<AbiSpec, AbiErr>(
                    (#[trigger] cache@[k])@,
                ),
            base == old(out)@ + header_text(*iface, dir) + typedefs_text(
                iface.types@,
                iface.types@.len(),
            ),
            out@ == base + bindings_text(iface.types@, iface.functions@, dir, i as nat),
        decreases iface.functions@.len() - i,
    {
        let f = &iface.functions[i];
        proof {
            assert(crate::model::fn_wf(iface.functions@[i as int], iface.types@.len() as nat));
            assert forall|j: int|
                0 <= j < f.params@.len() implies match (#[trigger] f.params@[j].ty) {
                Type::Id(i2) => i2 < iface.types@.len(),
                _ => true,
            } by {
                assert(crate::model::ty_wf(f.params@[j].ty, iface.types@.len() as nat));
            }
            assert forall|j: int|
                0 <= j < f.results@.len() implies match (#[trigger] f.results@[j].ty) {
                Type::Id(i2) => i2 < iface.types@.len(),
                _ => true,
            } by {
                assert(crate::model::ty_wf(f.results@[j].ty, iface.types@.len() as nat));
            }
        }
        let ghost pre_bind = bindings_text(iface.types@, iface.functions@, dir, i as nat);
        emit_binding(out, &iface.types, cache, f, dir);
        i = i + 1;
        proof {
            lemma_seq_assoc(
                base,
                pre_bind,
                binding_text(iface.types@, iface.functions@[i - 1], dir),
            );
        }
    }
    proof {
        assert(out@ =~= old(out)@ + iface_text(*iface, dir));
    }
}

/// Produces bindings for a single interface in one direction.
///
/// The run either fully succeeds with a one-entry bundle whose text is
/// pinned byte for byte by `iface_text` — so the same interface, direction
/// and options always yield identical output — or fails with one fatal
/// error: a model or representation error from the classifier, or a
/// collision between two generated item identities.
pub fn generate_one(iface: &Interface, dir: Direction, opts: Options) -> (r: Result<
    OutputBundle,
    GenError,
>)
    requires
        crate::model::iface_wf(*iface),
    ensures
        match r {
            Ok(b) => {
                &&& types_ok(iface.types@)
                &&& no_collision(fn_idents(iface.functions@))
                &&& b.entries@.len() == 1
                &&& b.entries@[0].0@ == lit("bindings.rs")
                &&& b.entries@[0].1@ == iface_text(*iface, dir)
            },
            Err(e) => match e {
                GenError::NameCollision { first, second } => {
                    &&& types_ok(iface.types@)
                    &&& !no_collision(fn_idents(iface.functions@))
                    &&& exists|i: int, j: int|
                        0 <= i < j < iface.functions@.len() && fn_idents(iface.functions@)[i]
                            == fn_idents(iface.functions@)[j] && first@
                            == iface.functions@[i].name@ && second@ == iface.functions@[j].name@
                },
                _ => {
                    &&& !types_ok(iface.types@)
                    &&& exists|k: int|
                        0 <= k < iface.types@.len() && ((#[trigger] td_abi(
                            iface.types@,
                            k,
                        )) matches Err(ae) && classify_gen_err(e, ae, iface.types@[k].name@))
                },
            },
        },
{
    let cache = match classify_all(&iface.types) {
        Ok(c) => c,
        Err(e) => {
            return Err(e);
        },
    };
    let mut names: Vec<Vec<u8>> = Vec::new();
    let mut k: usize = 0;
    while k < iface.functions.len()
        invariant
            k <= iface.functions@.len(),
            names@.len() == k,
            forall|j: int| 0 <= j < k ==> (#[trigger] names@[j])@ == iface.functions@[j].name@,
        decreases iface.functions@.len() - k,
    {
        names.push(copy_bytes(&iface.functions[k].name));
        k = k + 1;
    }
    proof {
        assert(names@.map_values(|n: Vec<u8>| fold_name(n@)) =~= fn_idents(iface.functions@));
    }
    match find_collision(&names) {
        Some((i, j)) => {
            let first = copy_bytes(&iface.functions[i].name);
            let second = copy_bytes(&iface.functions[j].name);
            proof {
                assert(fn_idents(iface.functions@)[i as int] == fn_idents(iface.functions@)[j as int]);
            }
            return Err(GenError::NameCollision { first, second });
        },
        None => {},
    }
    let mut content: Vec<u8> = Vec::new();
    emit_iface(&mut content, iface, &cache, dir);
    let mut entry_name: Vec<u8> = Vec::new();
    push_lit(&mut entry_name, "bindings.rs");
    proof {
        assert(entry_name@ =~= lit("bindings.rs"));
    }
    let mut entries: Vec<(Vec<u8>, Vec<u8>)> = Vec::new();
    entries.push((entry_name, content));
    Ok(OutputBundle { entries })
}

/// Produces bindings for full import and export interface sets in one
/// combined bundle.
///
/// All imports are generated in the Import direction, then all exports in
/// the Export direction, into a single output unit whose text is pinned
/// byte for byte.  Item identities are qualified by interface name and
/// checked for collisions across the whole run.
#[verifier::rlimit(100)]
#[verifier::spinoff_prover]
pub fn generate_all(
    imports: &Vec<Interface>,
    exports: &Vec<Interface>,
    opts: Options,
) -> (r: Result<OutputBundle, GenError>)
    requires
        forall|k: int| 0 <= k < imports@.len() ==> crate::model::iface_wf(#[trigger] imports@[k]),
        forall|k: int| 0 <= k < exports@.len() ==> crate::model::iface_wf(#[trigger] exports@[k]),
    ensures
        match r {
            Ok(b) => {
                &&& forall|k: int|
                    0 <= k < imports@.len() ==> types_ok((#[trigger] imports@[k]).types@)
                &&& forall|k: int|
                    0 <= k < exports@.len() ==> types_ok((#[trigger] exports@[k]).types@)
                &&& no_collision(all_idents(imports@, exports@))
                &&& b.entries@.len() == 1
                &&& b.entries@[0].0@ == lit("bindings.rs")
                &&& b.entries@[0].1@ == ifaces_text(imports@, Direction::Import, imports@.len())
                    + ifaces_text(exports@, Direction::Export, exports@.len())
            },
            Err(e) => match e {
                GenError::NameCollision { first, second } => {
                    &&& !no_collision(all_idents(imports@, exports@))
                    &&& exists|i: int, j: int|
                        0 <= i < j < all_idents(imports@, exports@).len() && all_idents(
                            imports@,
                            exports@,
                        )[i] == all_idents(imports@, exports@)[j] && fold_name(first@) == all_idents(
                            imports@,
                            exports@,
                        )[i] && fold_name(second@) == all_idents(imports@, exports@)[j]
                },
                _ => {
                    ||| exists|ii: int, k: int|
                        0 <= ii < imports@.len() && 0 <= k < imports@[ii].types@.len() && ((
                        #[trigger] td_abi(imports@[ii].types@, k)) matches Err(ae)
                            && classify_gen_err(e, ae, imports@[ii].types@[k].name@))
                    ||| exists|ii: int, k: int|
                        0 <= ii < exports@.len() && 0 <= k < exports@[ii].types@.len() && ((
                        #[trigger] td_abi(exports@[ii].types@, k)) matches Err(ae)
                            && classify_gen_err(e, ae, exports@[ii].types@[k].name@))
                },
            },
        },
{
    let ghost ids = all_idents(imports@, exports@);
    let mut caches: Vec<Vec<AbiType>> = Vec::new();
    let mut k: usize = 0;
    while k < imports.len()
        invariant
            k <= imports@.len(),
            caches@.len() == k,
            forall|k2: int| 0 <= k2 < imports@.len() ==> crate::model::iface_wf(
                #[trigger] imports@[k2],
            ),
            forall|k2: int|
                0 <= k2 < k ==> {
                    &&& (#[trigger] caches@[k2])@.len() == imports@[k2].types@.len()
                    &&& forall|t: int|
                        0 <= t < imports@[k2].types@.len() ==> td_abi(imports@[k2].types@, t)
                            == Ok::<AbiSpec, AbiErr>((#[trigger] caches@[k2]@[t])@)
                },
        decreases imports@.len() - k,
    {
        match classify_all(&imports[k].types) {
            Ok(c) => {
                caches.push(c);
            },
            Err(e) => {
                proof {
                    let k0 = choose|k0: int|
                        0 <= k0 < imports@[k as int].types@.len() && ((#[trigger] td_abi(
                            imports@[k as int].types@,
                            k0,
                        )) matches Err(ae) && classify_gen_err(
                            e,
                            ae,
                            imports@[k as int].types@[k0].name@,
                        ));
                    assert(0 <= k < imports@.len() && 0 <= k0 < imports@[k as int].types@.len() && (
                    (#[trigger] td_abi(imports@[k as int].types@, k0)) matches Err(ae)
                        && classify_gen_err(e, ae, imports@[k as int].types@[k0].name@)));
                }
                return Err(e);
            },
        }
        k = k + 1;
    }
    let mut xcaches: Vec<Vec<AbiType>> = Vec::new();
    let mut k2: usize = 0;
    while k2 < exports.len()
        invariant
            k2 <= exports@.len(),
            xcaches@.len() == k2,
            forall|k3: int| 0 <= k3 < exports@.len() ==> crate::model::iface_wf(
                #[trigger] exports@[k3],
            ),
            forall|k3: int|
                0 <= k3 < k2 ==> {
                    &&& (#[trigger] xcaches@[k3])@.len() == exports@[k3].types@.len()
                    &&& forall|t: int|
                        0 <= t < exports@[k3].types@.len() ==> td_abi(exports@[k3].types@, t)
                            == Ok::<AbiSpec, AbiErr>((#[trigger] xcaches@[k3]@[t])@)
                },
        decreases exports@.len() - k2,
    {
        match classify_all(&exports[k2].types) {
            Ok(c) => {
                xcaches.push(c);
            },
            Err(e) => {
                proof {
                    let k0 = choose|k0: int|
                        0 <= k0 < exports@[k2 as int].types@.len() && ((#[trigger] td_abi(
                            exports@[k2 as int].types@,
                            k0,
                        )) matches Err(ae) && classify_gen_err(
                            e,
                            ae,
                            exports@[k2 as int].types@[k0].name@,
                        ));
                    assert(0 <= k2 < exports@.len() && 0 <= k0 < exports@[k2 as int].types@.len()
                        && ((#[trigger] td_abi(exports@[k2 as int].types@, k0)) matches Err(ae)
                        && classify_gen_err(e, ae, exports@[k2 as int].types@[k0].name@)));
                }
                return Err(e);
            },
        }
        k2 = k2 + 1;
    }
    let mut names: Vec<Vec<u8>> = Vec::new();
    proof {
        assert(names@.map_values(|n: Vec<u8>| fold_name(n@)) =~= idents_upto(imports@, 0));
    }
    let mut a: usize = 0;
    while a < imports.len()
        invariant
            a <= imports@.len(),
            names@.map_values(|n: Vec<u8>| fold_name(n@)) == idents_upto(imports@, a as nat),
        decreases imports@.len() - a,
    {
        let iface = &imports[a];
        proof {
            assert(names@.map_values(|n: Vec<u8>| fold_name(n@)) =~= idents_upto(imports@, a as nat)
                + iface_idents(imports@[a as int]).take(0));
        }
        let mut b: usize = 0;
        while b < iface.functions.len()
            invariant
                b <= iface.functions@.len(),
                *iface == imports@[a as int],
                a < imports@.len(),
                names@.map_values(|n: Vec<u8>| fold_name(n@)) == idents_upto(imports@, a as nat)
                    + iface_idents(imports@[a as int]).take(b as int),
            decreases iface.functions@.len() - b,
        {
            let mut q = copy_bytes(&iface.name);
            push_lit(&mut q, "::");
            push_name(&mut q, &iface.functions[b].name);
            let ghost pre = names@;
            let ghost qv = q@;
            names.push(q);
            b = b + 1;
            proof {
                assert(qv == imports@[a as int].name@ + lit("::") + imports@[a as int].functions@[
                    b - 1].name@);
                assert(fold_name(qv) == iface_idents(imports@[a as int])[b - 1]);
                assert(names@.map_values(|n: Vec<u8>| fold_name(n@)) =~= pre.map_values(
                    |n: Vec<u8>| fold_name(n@),
                ).push(fold_name(qv)));
                assert(names@.map_values(|n: Vec<u8>| fold_name(n@)) =~= idents_upto(
                    imports@,
                    a as nat,
                ) + iface_idents(imports@[a as int]).take(b as int));
            }
        }
        a = a + 1;
        proof {
            assert(iface_idents(imports@[a - 1]).take(iface.functions@.len() as int)
                =~= iface_idents(imports@[a - 1]));
            assert(names@.map_values(|n: Vec<u8>| fold_name(n@)) =~= idents_upto(
                imports@,
                a as nat,
            ));
        }
    }
    let ghost import_ids = idents_upto(imports@, imports@.len());
    proof {
        assert(names@.map_values(|n: Vec<u8>| fold_name(n@)) =~= import_ids + idents_upto(
            exports@,
            0,
        ));
    }
    let mut a2: usize = 0;
    while a2 < exports.len()
        invariant
            a2 <= exports@.len(),
            import_ids == idents_upto(imports@, imports@.len()),
            names@.map_values(|n: Vec<u8>| fold_name(n@)) == import_ids + idents_upto(
                exports@,
                a2 as nat,
            ),
        decreases exports@.len() - a2,
    {
        let iface = &exports[a2];
        proof {
            assert(names@.map_values(|n: Vec<u8>| fold_name(n@)) =~= import_ids + idents_upto(
                exports@,
                a2 as nat,
            ) + iface_idents(exports@[a2 as int]).take(0));
        }
        let mut b: usize = 0;
        while b < iface.functions.len()
            invariant
                b <= iface.functions@.len(),
                *iface == exports@[a2 as int],
                a2 < exports@.len(),
                import_ids == idents_upto(imports@, imports@.len()),
                names@.map_values(|n: Vec<u8>| fold_name(n@)) == import_ids + idents_upto(
                    exports@,
                    a2 as nat,
                ) + iface_idents(exports@[a2 as int]).take(b as int),
            decreases iface.functions@.len() - b,
        {
            let mut q = copy_bytes(&iface.name);
            push_lit(&mut q, "::");
            push_name(&mut q, &iface.functions[b].name);
            let ghost pre = names@;
            let ghost qv = q@;
            names.push(q);
            b = b + 1;
            proof {
                assert(qv == exports@[a2 as int].name@ + lit("::") + exports@[a2 as int].functions@[
                    b - 1].name@);
                assert(fold_name(qv) == iface_idents(exports@[a2 as int])[b - 1]);
                assert(names@.map_values(|n: Vec<u8>| fold_name(n@)) =~= pre.map_values(
                    |n: Vec<u8>| fold_name(n@),
                ).push(fold_name(qv)));
                assert(names@.map_values(|n: Vec<u8>| fold_name(n@)) =~= import_ids + idents_upto(
                    exports@,
                    a2 as nat,
                ) + iface_idents(exports@[a2 as int]).take(b as int));
            }
        }
        a2 = a2 + 1;
        proof {
            assert(iface_idents(exports@[a2 - 1]).take(iface.functions@.len() as int)
                =~= iface_idents(exports@[a2 - 1]));
            assert(names@.map_values(|n: Vec<u8>| fold_name(n@)) =~= import_ids + idents_upto(
                exports@,
                a2 as nat,
            ));
        }
    }
    proof {
        assert(names@.map_values(|n: Vec<u8>| fold_name(n@)) == ids);
    }
    match find_collision(&names) {
        Some((i, j)) => {
            let first = copy_bytes(&names[i]);
            let second = copy_bytes(&names[j]);
            proof {
                assert(ids[i as int] == fold_name(names@[i as int]@));
                assert(ids[j as int] == fold_name(names@[j as int]@));
                assert(ids[i as int] == ids[j as int]);
                assert(!no_collision(ids));
            }
            return Err(GenError::NameCollision { first, second });
        },
        None => {},
    }
    let mut content: Vec<u8> = Vec::new();
    let mut g: usize = 0;
    while g < imports.len()
        invariant
            g <= imports@.len(),
            caches@.len() == imports@.len(),
            forall|k3: int| 0 <= k3 < imports@.len() ==> crate::model::iface_wf(
                #[trigger] imports@[k3],
            ),
            forall|k3: int|
                0 <= k3 < imports@.len() ==> {
                    &&& (#[trigger] caches@[k3])@.len() == imports@[k3].types@.len()
                    &&& forall|t: int|
                        0 <= t < imports@[k3].types@.len() ==> td_abi(imports@[k3].types@, t)
                            == Ok::<AbiSpec, AbiErr>((#[trigger] caches@[k3]@[t])@)
                },
            content@ == ifaces_text(imports@, Direction::Import, g as nat),
        decreases imports@.len() - g,
    {
        emit_iface(&mut content, &imports[g], &caches[g], Direction::Import);
        g = g + 1;
        proof {
            assert(content@ =~= ifaces_text(imports@, Direction::Import, g as nat));
        }
    }
    let ghost import_text = content@;
    let mut g2: usize = 0;
    while g2 < exports.len()
        invariant
            g2 <= exports@.len(),
            xcaches@.len() == exports@.len(),
            import_text == ifaces_text(imports@, Direction::Import, imports@.len()),
            forall|k3: int| 0 <= k3 < exports@.len() ==> crate::model::iface_wf(
                #[trigger] exports@[k3],
            ),
            forall|k3: int|
                0 <= k3 < exports@.len() ==> {
                    &&& (#[trigger] xcaches@[k3])@.len() == exports@[k3].types@.len()
                    &&& forall|t: int|
                        0 <= t < exports@[k3].types@.len() ==> td_abi(exports@[k3].types@, t)
                            == Ok::<AbiSpec, AbiErr>((#[trigger] xcaches@[k3]@[t])@)
                },
            content@ == import_text + ifaces_text(exports@, Direction::Export, g2 as nat),
        decreases exports@.len() - g2,
    {
        emit_iface(&mut content, &exports[g2], &xcaches[g2], Direction::Export);
        g2 = g2 + 1;
        proof {
            assert(content@ =~= import_text + ifaces_text(exports@, Direction::Export, g2 as nat));
        }
    }
    proof {
        lemma_cache_types_ok(imports@, caches@);
        lemma_cache_types_ok(exports@, xcaches@);
    }
    let mut entry_name: Vec<u8> = Vec::new();
    push_lit(&mut entry_name, "bindings.rs");
    proof {
        assert(entry_name@ =~= lit("bindings.rs"));
    }
    let mut entries: Vec<(Vec<u8>, Vec<u8>)> = Vec::new();
    entries.push((entry_name, content));
    Ok(OutputBundle { entries })
}

} // verus!
