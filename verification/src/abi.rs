//! The ABI classifier: decides, for every type, its wire representation.
//!
//! A type either flattens into a short sequence of core values or is passed
//! indirectly through linear memory as a pointer + length pair.  The
//! classifier also computes the size and alignment of every type in the
//! 32-bit linear memory.  Classification is total: it either yields an
//! `AbiType`, or reports that the model is malformed (an unresolved
//! reference or a by-value cycle), or that a type cannot be represented.
use vstd::prelude::*;
use crate::model::{Type, TypeDef, TypeDefKind, Field, Case, GenError};

verus! {

/// The kinds of core values of the underlying virtual machine.  Floating
/// point payloads are carried as their bit patterns.
#[derive(Clone, Copy, PartialEq, Eq, Structural, Debug)]
pub enum CoreKind {
    I32,
    I64,
    F32,
    F64,
}

/// How many core values an aggregate may flatten into before it is passed
/// indirectly through linear memory instead.
pub const FLAT_MAX: usize = 16;

/// The largest size, in bytes, a single type may occupy in the 32-bit
/// linear memory.
pub const MAX_ABI_SIZE: u64 = 0xFFFF_FFFF;

/// The classifier's output for one type: the ordered core value kinds when
/// the type flattens (`None` means indirect), and its size and alignment in
/// linear memory.
#[derive(Clone, Debug)]
pub struct AbiType {
    pub flat: Option<Vec<CoreKind>>,
    pub size: u32,
    pub align: u32,
}

/// The mathematical form of an `AbiType`.
pub struct AbiSpec {
    pub flat: Option<Seq<CoreKind>>,
    pub size: nat,
    pub align: nat,
}

impl View for AbiType {
    type V = AbiSpec;

    open spec fn view(&self) -> AbiSpec {
        AbiSpec {
            flat: match self.flat {
                Some(v) => Some(v@),
                None => None,
            },
            size: self.size as nat,
            align: self.align as nat,
        }
    }
}

/// Why a type could not be classified.
#[derive(Clone, Copy, PartialEq, Eq, Structural, Debug)]
pub enum AbiErr {
    /// An unresolved type reference, an empty variant, or a cycle through
    /// by-value containment.
    Malformed,
    /// The type has no representation in the target ABI (or exceeds the
    /// linear memory's addressable size).
    TooWide,
}

/// `off` rounded up to the next multiple of the alignment `a`.
pub open spec fn align_up(off: nat, a: nat) -> nat
    recommends
        a >= 1,
{
    if off % a == 0 {
        off
    } else {
        (off + a - off % a) as nat
    }
}

/// The larger of two naturals.
pub open spec fn nat_max(a: nat, b: nat) -> nat {
    if a >= b {
        a
    } else {
        b
    }
}

/// The representation of a primitive type: a single core value of matching
/// width, except strings, which are always an indirect pointer + length.
pub open spec fn prim_abi(t: Type) -> AbiSpec {
    match t {
        Type::Bool | Type::U8 | Type::S8 => AbiSpec {
            flat: Some(seq![CoreKind::I32]),
            size: 1,
            align: 1,
        },
        Type::U16 | Type::S16 => AbiSpec { flat: Some(seq![CoreKind::I32]), size: 2, align: 2 },
        Type::U32 | Type::S32 | Type::Char => AbiSpec {
            flat: Some(seq![CoreKind::I32]),
            size: 4,
            align: 4,
        },
        Type::U64 | Type::S64 => AbiSpec { flat: Some(seq![CoreKind::I64]), size: 8, align: 8 },
        Type::F32 => AbiSpec { flat: Some(seq![CoreKind::F32]), size: 4, align: 4 },
        Type::F64 => AbiSpec { flat: Some(seq![CoreKind::F64]), size: 8, align: 8 },
        _ => AbiSpec { flat: None, size: 8, align: 4 },
    }
}

/// Concatenation of two flattenings, becoming indirect as soon as either
/// side is indirect or the threshold is passed.
pub open spec fn join_rec_flat(a: Option<Seq<CoreKind>>, b: Option<Seq<CoreKind>>) -> Option<
    Seq<CoreKind>,
> {
    match (a, b) {
        (Some(x), Some(y)) => if x.len() + y.len() <= FLAT_MAX {
            Some(x + y)
        } else {
            None
        },
        _ => None,
    }
}

/// The joined kind of one flattened slot shared by two variant cases: equal
/// kinds stay, differing kinds widen to a 64-bit slot that can carry the
/// bits of either.
pub open spec fn join_kind(a: CoreKind, b: CoreKind) -> CoreKind {
    if a == b {
        a
    } else {
        CoreKind::I64
    }
}

/// The slot-wise union of two case flattenings, padded to the longer one.
pub open spec fn join_var_flat(a: Option<Seq<CoreKind>>, b: Option<Seq<CoreKind>>) -> Option<
    Seq<CoreKind>,
> {
    match (a, b) {
        (Some(x), Some(y)) => Some(
            Seq::new(
                nat_max(x.len(), y.len()),
                |i: int|
                    if i < x.len() && i < y.len() {
                        join_kind(x[i], y[i])
                    } else if i < x.len() {
                        x[i]
                    } else {
                        y[i]
                    },
            ),
        ),
        _ => None,
    }
}

/// Partial layout of a record: the flattening so far, the unaligned end
/// offset after the last field, and the record alignment so far.
pub struct RecAcc {
    pub flat: Option<Seq<CoreKind>>,
    pub end: nat,
    pub align: nat,
}

/// Running union over a variant's cases: the joined payload flattening and
/// the widest payload size and alignment.
pub struct VarAcc {
    pub flat: Option<Seq<CoreKind>>,
    pub size: nat,
    pub align: nat,
}

/// The representation of a type reference.  `fuel` bounds how many named
/// definitions a by-value containment chain may pass through; running out
/// of fuel means the model has an illegal cycle.
pub open spec fn abi_of(ts: Seq<TypeDef>, t: Type, fuel: nat) -> Result<AbiSpec, AbiErr>
    decreases fuel, 0nat, 0nat,
{
    match t {
        Type::Id(i) => if fuel == 0 || i >= ts.len() {
            Err(AbiErr::Malformed)
        } else {
            kind_abi(ts, ts[i as int].kind, (fuel - 1) as nat)
        },
        _ => Ok(prim_abi(t)),
    }
}

/// The representation of one type definition's shape.
pub open spec fn kind_abi(ts: Seq<TypeDef>, k: TypeDefKind, fuel: nat) -> Result<AbiSpec, AbiErr>
    decreases fuel, 3nat, 0nat,
{
    match k {
        TypeDefKind::Record(fs) => match fields_abi(ts, fs@, fs@.len(), fuel) {
            Err(e) => Err(e),
            Ok(acc) => {
                let size = align_up(acc.end, acc.align);
                if size > MAX_ABI_SIZE {
                    Err(AbiErr::TooWide)
                } else {
                    Ok(AbiSpec { flat: acc.flat, size, align: acc.align })
                }
            },
        },
        TypeDefKind::Variant(cs) => if cs@.len() < 1 || cs@.len() > u32::MAX {
            Err(AbiErr::Malformed)
        } else {
            match cases_abi(ts, cs@, cs@.len(), fuel) {
                Err(e) => Err(e),
                Ok(acc) => {
                    let align = nat_max(4, acc.align);
                    let size = align_up(align_up(4, acc.align) + acc.size, align);
                    let flat = match acc.flat {
                        Some(ks) => if 1 + ks.len() <= FLAT_MAX {
                            Some(seq![CoreKind::I32] + ks)
                        } else {
                            None
                        },
                        None => None,
                    };
                    if size > MAX_ABI_SIZE {
                        Err(AbiErr::TooWide)
                    } else {
                        Ok(AbiSpec { flat, size, align })
                    }
                },
            }
        },
        TypeDefKind::Flags(names) => flags_abi(names@.len()),
        TypeDefKind::List(t) => match abi_of(ts, t, fuel) {
            Err(e) => Err(e),
            Ok(_) => Ok(AbiSpec { flat: None, size: 8, align: 4 }),
        },
        TypeDefKind::Handle(m) => Ok(
            AbiSpec { flat: Some(seq![CoreKind::I32]), size: 4, align: 4 },
        ),
    }
}

/// Flag sets pack into the smallest core integer that holds all bits; more
/// bits than a machine word cannot be represented.
pub open spec fn flags_abi(n: nat) -> Result<AbiSpec, AbiErr> {
    if n <= 8 {
        Ok(AbiSpec { flat: Some(seq![CoreKind::I32]), size: 1, align: 1 })
    } else if n <= 16 {
        Ok(AbiSpec { flat: Some(seq![CoreKind::I32]), size: 2, align: 2 })
    } else if n <= 32 {
        Ok(AbiSpec { flat: Some(seq![CoreKind::I32]), size: 4, align: 4 })
    } else if n <= 64 {
        Ok(AbiSpec { flat: Some(seq![CoreKind::I64]), size: 8, align: 8 })
    } else {
        Err(AbiErr::TooWide)
    }
}

/// Layout of the first `i` fields of a record: fields sit at offsets rounded
/// up to their own alignment, and the record's flattening is the
/// concatenation of the fields' flattenings.
pub open spec fn fields_abi(ts: Seq<TypeDef>, fs: Seq<Field>, i: nat, fuel: nat) -> Result<
    RecAcc,
    AbiErr,
>
    decreases fuel, 2nat, i,
{
    if i == 0 {
        Ok(RecAcc { flat: Some(Seq::empty()), end: 0, align: 1 })
    } else {
        match fields_abi(ts, fs, (i - 1) as nat, fuel) {
            Err(e) => Err(e),
            Ok(acc) => match abi_of(ts, fs[i - 1].ty, fuel) {
                Err(e) => Err(e),
                Ok(fa) => {
                    let end = align_up(acc.end, fa.align) + fa.size;
                    if end > MAX_ABI_SIZE {
                        Err(AbiErr::TooWide)
                    } else {
                        Ok(
                            RecAcc {
                                flat: join_rec_flat(acc.flat, fa.flat),
                                end,
                                align: nat_max(acc.align, fa.align),
                            },
                        )
                    }
                },
            },
        }
    }
}

/// Union over the first `i` cases of a variant: the widest payload decides
/// the size, and the joined flattening is padded to the widest case.
pub open spec fn cases_abi(ts: Seq<TypeDef>, cs: Seq<Case>, i: nat, fuel: nat) -> Result<
    VarAcc,
    AbiErr,
>
    decreases fuel, 2nat, i,
{
    if i == 0 {
        Ok(VarAcc { flat: Some(Seq::empty()), size: 0, align: 1 })
    } else {
        match cases_abi(ts, cs, (i - 1) as nat, fuel) {
            Err(e) => Err(e),
            Ok(acc) => {
                let ca = match cs[i - 1].payload {
                    Some(t) => abi_of(ts, t, fuel),
                    None => Ok(AbiSpec { flat: Some(Seq::empty()), size: 0, align: 1 }),
                };
                match ca {
                    Err(e) => Err(e),
                    Ok(pa) => Ok(
                        VarAcc {
                            flat: join_var_flat(acc.flat, pa.flat),
                            size: nat_max(acc.size, pa.size),
                            align: nat_max(acc.align, pa.align),
                        },
                    ),
                }
            },
        }
    }
}

/// The canonical fuel for one interface: a by-value containment chain can
/// pass through each named definition at most once.
pub open spec fn canon_fuel(ts: Seq<TypeDef>) -> nat {
    ts.len() + 1
}

/// The canonical classification of a type reference.
pub open spec fn ty_abi(ts: Seq<TypeDef>, t: Type) -> Result<AbiSpec, AbiErr> {
    abi_of(ts, t, canon_fuel(ts))
}

/// The canonical classification of the `k`-th type definition.
pub open spec fn td_abi(ts: Seq<TypeDef>, k: int) -> Result<AbiSpec, AbiErr> {
    kind_abi(ts, ts[k].kind, ts.len() as nat)
}

/// A type table is acyclic and representable when every definition
/// classifies.
pub open spec fn types_ok(ts: Seq<TypeDef>) -> bool {
    forall|k: int| 0 <= k < ts.len() ==> (#[trigger] td_abi(ts, k)) is Ok
}

/// The mathematical form of a classification result.
pub open spec fn res_view(r: Result<AbiType, AbiErr>) -> Result<AbiSpec, AbiErr> {
    match r {
        Ok(a) => Ok(a@),
        Err(e) => Err(e),
    }
}

/// An optional flattening tracked as a flag plus a vector.
pub open spec fn flat_opt(ok: bool, s: Seq<CoreKind>) -> Option<Seq<CoreKind>> {
    if ok {
        Some(s)
    } else {
        None
    }
}

/// Once the layout of a record prefix fails, every longer prefix fails the
/// same way.
pub proof fn lemma_fields_abi_err(ts: Seq<TypeDef>, fs: Seq<Field>, i: nat, j: nat, fuel: nat)
    requires
        fields_abi(ts, fs, i, fuel) is Err,
        i <= j,
    ensures
        fields_abi(ts, fs, j, fuel) == fields_abi(ts, fs, i, fuel),
    decreases j,
{
    if j > i {
        lemma_fields_abi_err(ts, fs, i, (j - 1) as nat, fuel);
    }
}

/// Once the union over a variant's case prefix fails, every longer prefix
/// fails the same way.
pub proof fn lemma_cases_abi_err(ts: Seq<TypeDef>, cs: Seq<Case>, i: nat, j: nat, fuel: nat)
    requires
        cases_abi(ts, cs, i, fuel) is Err,
        i <= j,
    ensures
        cases_abi(ts, cs, j, fuel) == cases_abi(ts, cs, i, fuel),
    decreases j,
{
    if j > i {
        lemma_cases_abi_err(ts, cs, i, (j - 1) as nat, fuel);
    }
}

/// `off` rounded up to the next multiple of `a`.
fn align_up64(off: u64, a: u64) -> (r: u64)
    requires
        1 <= a <= 8,
        off <= MAX_ABI_SIZE + 16,
    ensures
        r as nat == align_up(off as nat, a as nat),
        off <= r <= off + a - 1,
{
    let rem = off % a;
    if rem == 0 {
        off
    } else {
        off + (a - rem)
    }
}

/// A flattening of a single core value.
fn one_kind(k: CoreKind) -> (r: Vec<CoreKind>)
    ensures
        r@ =~= seq![k],
{
    let mut v: Vec<CoreKind> = Vec::new();
    v.push(k);
    v
}

/// Appends one flattening to another.
fn extend_kinds(dst: &mut Vec<CoreKind>, src: &Vec<CoreKind>)
    ensures
        final(dst)@ == old(dst)@ + src@,
{
    let mut i: usize = 0;
    while i < src.len()
        invariant
            i <= src@.len(),
            dst@ == old(dst)@ + src@.subrange(0, i as int),
        decreases src@.len() - i,
    {
        dst.push(src[i]);
        i = i + 1;
        proof {
            assert(dst@ =~= old(dst)@ + src@.subrange(0, i as int));
        }
    }
    proof {
        assert(dst@ =~= old(dst)@ + src@);
    }
}

/// The slot-wise union of two case flattenings.
fn join_var_exec(a: &Vec<CoreKind>, b: &Vec<CoreKind>) -> (r: Vec<CoreKind>)
    ensures
        Some(r@) == join_var_flat(Some(a@), Some(b@)),
{
    let n = if a.len() >= b.len() {
        a.len()
    } else {
        b.len()
    };
    let mut v: Vec<CoreKind> = Vec::new();
    let mut i: usize = 0;
    while i < n
        invariant
            i <= n,
            n == nat_max(a@.len(), b@.len()),
            v@.len() == i,
            forall|j: int| 0 <= j < i ==> v@[j] == join_var_flat(Some(a@), Some(b@)).unwrap()[j],
        decreases n - i,
    {
        let k = if i < a.len() && i < b.len() {
            if a[i] == b[i] {
                a[i]
            } else {
                CoreKind::I64
            }
        } else if i < a.len() {
            a[i]
        } else {
            b[i]
        };
        v.push(k);
        i = i + 1;
    }
    proof {
        assert(v@ =~= join_var_flat(Some(a@), Some(b@)).unwrap());
    }
    v
}

/// The representation of a primitive type.
pub fn classify_prim(t: Type) -> (r: AbiType)
    requires
        !(t is Id),
    ensures
        r@ == prim_abi(t),
{
    match t {
        Type::Bool | Type::U8 | Type::S8 => AbiType {
            flat: Some(one_kind(CoreKind::I32)),
            size: 1,
            align: 1,
        },
        Type::U16 | Type::S16 => AbiType { flat: Some(one_kind(CoreKind::I32)), size: 2, align: 2 },
        Type::U32 | Type::S32 | Type::Char => AbiType {
            flat: Some(one_kind(CoreKind::I32)),
            size: 4,
            align: 4,
        },
        Type::U64 | Type::S64 => AbiType { flat: Some(one_kind(CoreKind::I64)), size: 8, align: 8 },
        Type::F32 => AbiType { flat: Some(one_kind(CoreKind::F32)), size: 4, align: 4 },
        Type::F64 => AbiType { flat: Some(one_kind(CoreKind::F64)), size: 8, align: 8 },
        _ => AbiType { flat: None, size: 8, align: 4 },
    }
}

/// The representation of a flag set with `n` named bits.
fn classify_flags(n: usize) -> (r: Result<AbiType, AbiErr>)
    ensures
        res_view(r) == flags_abi(n as nat),
{
    if n <= 8 {
        Ok(AbiType { flat: Some(one_kind(CoreKind::I32)), size: 1, align: 1 })
    } else if n <= 16 {
        Ok(AbiType { flat: Some(one_kind(CoreKind::I32)), size: 2, align: 2 })
    } else if n <= 32 {
        Ok(AbiType { flat: Some(one_kind(CoreKind::I32)), size: 4, align: 4 })
    } else if n <= 64 {
        Ok(AbiType { flat: Some(one_kind(CoreKind::I64)), size: 8, align: 8 })
    } else {
        Err(AbiErr::TooWide)
    }
}

/// Classifies one type reference, spending one unit of fuel per named
/// definition a containment chain passes through.
pub fn classify_ty(ts: &Vec<TypeDef>, t: Type, fuel: usize) -> (r: Result<AbiType, AbiErr>)
    ensures
        res_view(r) == abi_of(ts@, t, fuel as nat),
    decreases fuel, 0nat, 0nat,
{
    match t {
        Type::Id(i) => {
            if fuel == 0 || i >= ts.len() {
                Err(AbiErr::Malformed)
            } else {
                classify_kind(ts, &ts[i].kind, fuel - 1)
            }
        },
        _ => Ok(classify_prim(t)),
    }
}

/// Classifies one type definition's shape.
pub fn classify_kind(ts: &Vec<TypeDef>, k: &TypeDefKind, fuel: usize) -> (r: Result<
    AbiType,
    AbiErr,
>)
    ensures
        res_view(r) == kind_abi(ts@, *k, fuel as nat),
    decreases fuel, 3nat, 0nat,
{
    match k {
        TypeDefKind::Record(fs) => classify_record(ts, fs, fuel),
        TypeDefKind::Variant(cs) => classify_variant(ts, cs, fuel),
        TypeDefKind::Flags(names) => classify_flags(names.len()),
        TypeDefKind::List(t) => match classify_ty(ts, *t, fuel) {
            Err(e) => Err(e),
            Ok(_) => Ok(AbiType { flat: None, size: 8, align: 4 }),
        },
        TypeDefKind::Handle(m) => Ok(
            AbiType { flat: Some(one_kind(CoreKind::I32)), size: 4, align: 4 },
        ),
    }
}

/// Lays a record out field by field.
fn classify_record(ts: &Vec<TypeDef>, fs: &Vec<Field>, fuel: usize) -> (r: Result<AbiType, AbiErr>)
    ensures
        res_view(r) == kind_abi(ts@, TypeDefKind::Record(*fs), fuel as nat),
    decreases fuel, 2nat, 0nat,
{
    let mut i: usize = 0;
    let mut end: u64 = 0;
    let mut align: u32 = 1;
    let mut flat_ok: bool = true;
    let mut flat: Vec<CoreKind> = Vec::new();
    while i < fs.len()
        invariant
            i <= fs@.len(),
            end <= MAX_ABI_SIZE,
            1 <= align <= 8,
            flat@.len() <= FLAT_MAX,
            fields_abi(ts@, fs@, i as nat, fuel as nat) == Ok::<RecAcc, AbiErr>(
                RecAcc {
                    flat: flat_opt(flat_ok, flat@),
                    end: end as nat,
                    align: align as nat,
                },
            ),
        decreases fs@.len() - i,
    {
        let ghost pre_acc = RecAcc {
            flat: flat_opt(flat_ok, flat@),
            end: end as nat,
            align: align as nat,
        };
        let fa = match classify_ty(ts, fs[i].ty, fuel) {
            Ok(fa) => fa,
            Err(e) => {
                proof {
                    lemma_fields_abi_err(ts@, fs@, (i + 1) as nat, fs@.len(), fuel as nat);
                }
                return Err(e);
            },
        };
        proof {
            lemma_abi_bounds(ts@, fs@[i as int].ty, fuel as nat);
            assert(1 <= fa@.align <= 8 && fa@.size <= MAX_ABI_SIZE);
            assert(fa@.flat matches Some(s) ==> s.len() <= FLAT_MAX);
        }
        let new_end = align_up64(end, fa.align as u64) + fa.size as u64;
        if new_end > MAX_ABI_SIZE {
            proof {
                lemma_fields_abi_err(ts@, fs@, (i + 1) as nat, fs@.len(), fuel as nat);
            }
            return Err(AbiErr::TooWide);
        }
        end = new_end;
        if align < fa.align {
            align = fa.align;
        }
        match &fa.flat {
            None => {
                flat_ok = false;
            },
            Some(ks) => {
                if flat_ok {
                    if flat.len() + ks.len() <= FLAT_MAX {
                        extend_kinds(&mut flat, ks);
                    } else {
                        flat_ok = false;
                    }
                }
            },
        }
        i = i + 1;
        proof {
            assert(fields_abi(ts@, fs@, i as nat, fuel as nat) == Ok::<RecAcc, AbiErr>(
                RecAcc {
                    flat: join_rec_flat(pre_acc.flat, fa@.flat),
                    end: end as nat,
                    align: align as nat,
                },
            ));
            assert(flat_opt(flat_ok, flat@) == join_rec_flat(pre_acc.flat, fa@.flat));
        }
    }
    let size = align_up64(end, align as u64);
    if size > MAX_ABI_SIZE {
        Err(AbiErr::TooWide)
    } else {
        Ok(
            AbiType {
                flat: if flat_ok {
                    Some(flat)
                } else {
                    None
                },
                size: size as u32,
                align,
            },
        )
    }
}

/// Joins a variant's cases into the discriminant-plus-union layout.
fn classify_variant(ts: &Vec<TypeDef>, cs: &Vec<Case>, fuel: usize) -> (r: Result<AbiType, AbiErr>)
    ensures
        res_view(r) == kind_abi(ts@, TypeDefKind::Variant(*cs), fuel as nat),
    decreases fuel, 2nat, 0nat,
{
    if cs.len() < 1 || cs.len() as u64 > u32::MAX as u64 {
        return Err(AbiErr::Malformed);
    }
    let mut i: usize = 0;
    let mut size: u64 = 0;
    let mut align: u32 = 1;
    let mut flat_ok: bool = true;
    let mut flat: Vec<CoreKind> = Vec::new();
    while i < cs.len()
        invariant
            i <= cs@.len(),
            1 <= cs@.len() <= u32::MAX,
            size <= MAX_ABI_SIZE,
            1 <= align <= 8,
            flat_ok ==> flat@.len() <= FLAT_MAX,
            cases_abi(ts@, cs@, i as nat, fuel as nat) == Ok::<VarAcc, AbiErr>(
                VarAcc {
                    flat: flat_opt(flat_ok, flat@),
                    size: size as nat,
                    align: align as nat,
                },
            ),
        decreases cs@.len() - i,
    {
        let ghost pre_acc = VarAcc {
            flat: flat_opt(flat_ok, flat@),
            size: size as nat,
            align: align as nat,
        };
        let pa = match &cs[i].payload {
            None => AbiType { flat: Some(Vec::new()), size: 0, align: 1 },
            Some(t) => match classify_ty(ts, *t, fuel) {
                Ok(pa) => pa,
                Err(e) => {
                    proof {
                        assert(cases_abi(ts@, cs@, (i + 1) as nat, fuel as nat) == Err::<
                            VarAcc,
                            AbiErr,
                        >(e));
                        lemma_cases_abi_err(ts@, cs@, (i + 1) as nat, cs@.len(), fuel as nat);
                        assert(cases_abi(ts@, cs@, cs@.len(), fuel as nat) == Err::<VarAcc, AbiErr>(
                            e,
                        ));
                        assert(kind_abi(ts@, TypeDefKind::Variant(*cs), fuel as nat) == Err::<
                            AbiSpec,
                            AbiErr,
                        >(e));
                    }
                    return Err(e);
                },
            },
        };
        proof {
            if cs@[i as int].payload is Some {
                lemma_abi_bounds(ts@, cs@[i as int].payload.unwrap(), fuel as nat);
            }
            assert(1 <= pa@.align <= 8 && pa@.size <= MAX_ABI_SIZE);
            assert(pa@.flat matches Some(s) ==> s.len() <= FLAT_MAX);
        }
        if size < pa.size as u64 {
            size = pa.size as u64;
        }
        if align < pa.align {
            align = pa.align;
        }
        match &pa.flat {
            None => {
                flat_ok = false;
            },
            Some(ks) => {
                if flat_ok {
                    let joined = join_var_exec(&flat, ks);
                    flat = joined;
                } else {
                }
            },
        }
        i = i + 1;
        proof {
            assert(cases_abi(ts@, cs@, i as nat, fuel as nat) == Ok::<VarAcc, AbiErr>(
                VarAcc {
                    flat: join_var_flat(pre_acc.flat, pa@.flat),
                    size: size as nat,
                    align: align as nat,
                },
            ));
            assert(flat_opt(flat_ok, flat@) == join_var_flat(pre_acc.flat, pa@.flat));
        }
    }
    let valign = if align < 4 {
        4
    } else {
        align
    };
    let poff = align_up64(4, align as u64);
    let vsize = align_up64(poff + size, valign as u64);
    let vflat = if flat_ok && 1 + flat.len() <= FLAT_MAX {
        let mut ks = one_kind(CoreKind::I32);
        extend_kinds(&mut ks, &flat);
        Some(ks)
    } else {
        None
    };
    if vsize > MAX_ABI_SIZE {
        Err(AbiErr::TooWide)
    } else {
        proof {
            assert(match kind_abi(ts@, TypeDefKind::Variant(*cs), fuel as nat) {
                Ok(a) => a.flat == flat_opt(
                    flat_ok && 1 + flat@.len() <= FLAT_MAX,
                    seq![CoreKind::I32] + flat@,
                ),
                Err(e) => false,
            });
        }
        Ok(AbiType { flat: vflat, size: vsize as u32, align: valign })
    }
}

/// Every classification stays within the machine's limits: alignment is a
/// small power of two and the size is addressable.
pub proof fn lemma_abi_bounds(ts: Seq<TypeDef>, t: Type, fuel: nat)
    ensures
        abi_of(ts, t, fuel) matches Ok(a) ==> 1 <= a.align <= 8 && a.size <= MAX_ABI_SIZE && (
        a.flat matches Some(ks) ==> ks.len() <= FLAT_MAX),
    decreases fuel, 1nat, 0nat,
{
    match t {
        Type::Id(i) => {
            if fuel > 0 && i < ts.len() {
                lemma_kind_abi_bounds(ts, ts[i as int].kind, (fuel - 1) as nat);
            }
        },
        _ => {},
    }
}

/// Bounds for one type definition's classification.
pub proof fn lemma_kind_abi_bounds(ts: Seq<TypeDef>, k: TypeDefKind, fuel: nat)
    ensures
        kind_abi(ts, k, fuel) matches Ok(a) ==> 1 <= a.align <= 8 && a.size <= MAX_ABI_SIZE && (
        a.flat matches Some(ks) ==> ks.len() <= FLAT_MAX),
    decreases fuel, 4nat, 0nat,
{
    match k {
        TypeDefKind::Record(fs) => {
            lemma_fields_abi_bounds(ts, fs@, fs@.len(), fuel);
        },
        TypeDefKind::Variant(cs) => {
            lemma_cases_abi_bounds(ts, cs@, cs@.len(), fuel);
        },
        _ => {},
    }
}

/// Bounds for a record prefix's layout.
pub proof fn lemma_fields_abi_bounds(ts: Seq<TypeDef>, fs: Seq<Field>, i: nat, fuel: nat)
    ensures
        fields_abi(ts, fs, i, fuel) matches Ok(acc) ==> 1 <= acc.align <= 8 && acc.end
            <= MAX_ABI_SIZE && (acc.flat matches Some(ks) ==> ks.len() <= FLAT_MAX),
    decreases fuel, 3nat, i,
{
    if i > 0 {
        lemma_fields_abi_bounds(ts, fs, (i - 1) as nat, fuel);
        lemma_abi_bounds(ts, fs[i - 1].ty, fuel);
    }
}

/// Bounds for a variant case prefix's union.
pub proof fn lemma_cases_abi_bounds(ts: Seq<TypeDef>, cs: Seq<Case>, i: nat, fuel: nat)
    ensures
        cases_abi(ts, cs, i, fuel) matches Ok(acc) ==> 1 <= acc.align <= 8 && acc.size
            <= MAX_ABI_SIZE && (acc.flat matches Some(ks) ==> ks.len() <= FLAT_MAX),
    decreases fuel, 3nat, i,
{
    if i > 0 {
        lemma_cases_abi_bounds(ts, cs, (i - 1) as nat, fuel);
        match cs[i - 1].payload {
            Some(t) => {
                lemma_abi_bounds(ts, t, fuel);
            },
            None => {},
        }
    }
}


/// Copies a byte string.
pub fn copy_bytes(src: &Vec<u8>) -> (r: Vec<u8>)
    ensures
        r@ == src@,
{
    let mut v: Vec<u8> = Vec::new();
    let mut i: usize = 0;
    while i < src.len()
        invariant
            i <= src@.len(),
            v@ == src@.subrange(0, i as int),
        decreases src@.len() - i,
    {
        v.push(src[i]);
        i = i + 1;
        proof {
            assert(v@ =~= src@.subrange(0, i as int));
        }
    }
    proof {
        assert(v@ =~= src@);
    }
    v
}

/// The generation error that reports one failed classification, naming the
/// offending type definition.
pub open spec fn classify_gen_err(e: GenError, ae: AbiErr, name: Seq<u8>) -> bool {
    match ae {
        AbiErr::Malformed => e matches GenError::Model { detail } && detail@ == name,
        AbiErr::TooWide => e matches GenError::UnsupportedType { ty_name } && ty_name@ == name,
    }
}

/// Classifies every type definition of one run, once, into the cache that
/// all function bindings share.  Fails exactly when some definition cannot
/// be classified, and then names the first offender.
pub fn classify_all(ts: &Vec<TypeDef>) -> (r: Result<Vec<AbiType>, GenError>)
    ensures
        match r {
            Ok(cache) => {
                &&& types_ok(ts@)
                &&& cache@.len() == ts@.len()
                &&& forall|k: int|
                    0 <= k < ts@.len() ==> td_abi(ts@, k) == Ok::<AbiSpec, AbiErr>(
                        (#[trigger] cache@[k])@,
                    )
            },
            Err(e) => {
                &&& !types_ok(ts@)
                &&& exists|k: int|
                    0 <= k < ts@.len() && ((#[trigger] td_abi(ts@, k)) matches Err(ae)
                        && classify_gen_err(e, ae, ts@[k].name@))
            },
        },
{
    let mut cache: Vec<AbiType> = Vec::new();
    let mut k: usize = 0;
    while k < ts.len()
        invariant
            k <= ts@.len(),
            cache@.len() == k,
            forall|j: int|
                0 <= j < k ==> td_abi(ts@, j) == Ok::<AbiSpec, AbiErr>((#[trigger] cache@[j])@),
        decreases ts@.len() - k,
    {
        match classify_kind(ts, &ts[k].kind, ts.len()) {
            Ok(a) => {
                cache.push(a);
            },
            Err(ae) => {
                proof {
                    assert(td_abi(ts@, k as int) == Err::<AbiSpec, AbiErr>(ae));
                    assert(!types_ok(ts@));
                }
                let name = copy_bytes(&ts[k].name);
                let e = match ae {
                    AbiErr::Malformed => GenError::Model { detail: name },
                    AbiErr::TooWide => GenError::UnsupportedType { ty_name: name },
                };
                proof {
                    assert(0 <= k < ts@.len() && ((#[trigger] td_abi(ts@, k as int)) matches Err(
                        ae2,
                    ) && classify_gen_err(e, ae2, ts@[k as int].name@)));
                }
                return Err(e);
            },
        }
        k = k + 1;
    }
    proof {
        assert forall|k2: int| 0 <= k2 < ts@.len() implies (#[trigger] td_abi(ts@, k2)) is Ok by {
            assert(td_abi(ts@, k2) == Ok::<AbiSpec, AbiErr>(cache@[k2]@));
        }
    }
    Ok(cache)
}

/// Whether a type is a scalar primitive: a type that always flattens to a
/// single core value, whatever the type table says.
pub open spec fn is_scalar(t: Type) -> bool {
    !(t is Id) && !(t is Str)
}

/// Layout of a record whose first `i` fields are all scalars: the
/// flattening has one core value per field until the threshold is passed,
/// after which the record is indirect.
proof fn lemma_scalar_fields(ts: Seq<TypeDef>, fs: Seq<Field>, i: nat, fuel: nat)
    requires
        i <= fs.len(),
        fs.len() <= 0x0FFF_FFFF,
        forall|j: int| 0 <= j < fs.len() ==> is_scalar(#[trigger] fs[j].ty),
    ensures
        fields_abi(ts, fs, i, fuel) matches Ok(acc) && acc.end <= 16 * i && 1 <= acc.align <= 8 && (
        i <= FLAT_MAX ==> (acc.flat matches Some(ks) && ks.len() == i)) && (i > FLAT_MAX
            ==> acc.flat is None),
    decreases i,
{
    if i > 0 {
        lemma_scalar_fields(ts, fs, (i - 1) as nat, fuel);
        assert(abi_of(ts, fs[i - 1].ty, fuel) == Ok::<AbiSpec, AbiErr>(prim_abi(fs[i - 1].ty)));
    }
}

/// The flattening threshold, seen from both sides of the boundary: a record
/// of scalar fields flattens into exactly one core value per field while
/// the field count stays within `FLAT_MAX`, and one more field forces the
/// whole record into the indirect, through-memory representation.
pub proof fn lemma_flattening_threshold(ts: Seq<TypeDef>, fs: Vec<Field>, fuel: nat)
    requires
        fs@.len() <= 0x0FFF_FFFF,
        forall|j: int| 0 <= j < fs@.len() ==> is_scalar(#[trigger] fs@[j].ty),
    ensures
        kind_abi(ts, TypeDefKind::Record(fs), fuel) matches Ok(a) && (fs@.len() <= FLAT_MAX
            ==> (a.flat matches Some(ks) && ks.len() == fs@.len())) && (fs@.len() > FLAT_MAX
            ==> a.flat is None),
{
    lemma_scalar_fields(ts, fs@, fs@.len(), fuel);
}

} // verus!
