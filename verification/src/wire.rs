//! The value model of the wire format: what the emitted lowering and
//! lifting code computes.
//!
//! `flat_lower` is the canonical flat lowering: the run of core values
//! that represents a given high-level value at a given flattenable type.
//! The executable `lower_flat` and `lift_flat` implement the two
//! directions of the boundary — the Import side lowers what the Export
//! side lifts and vice versa.  `lower_flat` computes exactly the canonical
//! lowering and succeeds on every well-typed value of a flattenable type;
//! `lift_flat` succeeds on exactly the runs some well-typed value lowers
//! to, and returns a value with that lowering; and the duality lemma shows
//! the lowering injective on well-typed values.  Together these close the
//! round trip: what one side lowers, the other lifts back unchanged.
use vstd::prelude::*;
use crate::model::{Type, TypeDef, TypeDefKind, Field, Case};
use crate::abi::{
    abi_of, kind_abi, fields_abi, cases_abi, AbiSpec, AbiErr, CoreKind, MAX_ABI_SIZE, FLAT_MAX,
    classify_ty, classify_kind,
};

verus! {

/// A high-level value of the interface model.  Floating point payloads are
/// carried as bit patterns, characters as code points, strings as their
/// bytes.
#[derive(Debug)]
pub enum Val {
    Bool(bool),
    U8(u8),
    U16(u16),
    U32(u32),
    U64(u64),
    S8(i8),
    S16(i16),
    S32(i32),
    S64(i64),
    F32Bits(u32),
    F64Bits(u64),
    Char(u32),
    Text(Vec<u8>),
    Record(Vec<Val>),
    Variant(u32, Option<Box<Val>>),
    Flags(u64),
    List(Vec<Val>),
    Handle(u32),
}

/// One core value of the virtual machine, payloads as bit patterns.
#[derive(Clone, Copy, Debug, PartialEq, Eq, Structural)]
pub enum CoreVal {
    I32(u32),
    I64(u64),
    F32(u32),
    F64(u64),
}

/// The kind of one core value.
pub open spec fn kind_of(c: CoreVal) -> CoreKind {
    match c {
        CoreVal::I32(_) => CoreKind::I32,
        CoreVal::I64(_) => CoreKind::I64,
        CoreVal::F32(_) => CoreKind::F32,
        CoreVal::F64(_) => CoreKind::F64,
    }
}

/// The bits of one core value, widened to 64.
pub open spec fn bits_of(c: CoreVal) -> u64 {
    match c {
        CoreVal::I32(x) => x as u64,
        CoreVal::I64(x) => x,
        CoreVal::F32(x) => x as u64,
        CoreVal::F64(x) => x,
    }
}

/// The core value of a given kind holding the given bits, truncating.
pub open spec fn make_core(k: CoreKind, b: u64) -> CoreVal {
    match k {
        CoreKind::I32 => CoreVal::I32(b as u32),
        CoreKind::I64 => CoreVal::I64(b),
        CoreKind::F32 => CoreVal::F32(b as u32),
        CoreKind::F64 => CoreVal::F64(b),
    }
}

/// A case payload value converted into the joined slot kind of the
/// variant: an equal kind passes through, a widened slot carries the bits.
pub open spec fn conv_slot(c: CoreVal, k: CoreKind) -> CoreVal {
    if kind_of(c) == k {
        c
    } else {
        make_core(k, bits_of(c))
    }
}

/// The zero padding value of one slot kind.
pub open spec fn zero_slot(k: CoreKind) -> CoreVal {
    make_core(k, 0)
}

/// A Unicode scalar value: a code point outside the surrogate range.
pub open spec fn valid_char(c: u32) -> bool {
    c < 0xD800 || (0xE000 <= c && c < 0x110000)
}

/// Structural equality of two values.
pub open spec fn val_eq(v1: Val, v2: Val) -> bool
    decreases v1,
{
    match (v1, v2) {
        (Val::Bool(a), Val::Bool(b)) => a == b,
        (Val::U8(a), Val::U8(b)) => a == b,
        (Val::U16(a), Val::U16(b)) => a == b,
        (Val::U32(a), Val::U32(b)) => a == b,
        (Val::U64(a), Val::U64(b)) => a == b,
        (Val::S8(a), Val::S8(b)) => a == b,
        (Val::S16(a), Val::S16(b)) => a == b,
        (Val::S32(a), Val::S32(b)) => a == b,
        (Val::S64(a), Val::S64(b)) => a == b,
        (Val::F32Bits(a), Val::F32Bits(b)) => a == b,
        (Val::F64Bits(a), Val::F64Bits(b)) => a == b,
        (Val::Char(a), Val::Char(b)) => a == b,
        (Val::Text(a), Val::Text(b)) => a@ == b@,
        (Val::Record(a), Val::Record(b)) => a@.len() == b@.len() && forall|j: int|
            0 <= j < a@.len() ==> val_eq(#[trigger] a@[j], b@[j]),
        (Val::Variant(d1, p1), Val::Variant(d2, p2)) => d1 == d2 && match (p1, p2) {
            (Some(b1), Some(b2)) => val_eq(*b1, *b2),
            (None, None) => true,
            _ => false,
        },
        (Val::Flags(a), Val::Flags(b)) => a == b,
        (Val::List(a), Val::List(b)) => a@.len() == b@.len() && forall|j: int|
            0 <= j < a@.len() ==> val_eq(#[trigger] a@[j], b@[j]),
        (Val::Handle(a), Val::Handle(b)) => a == b,
        _ => false,
    }
}

/// Whether a value inhabits a type of the interface model.
pub open spec fn val_has_ty(ts: Seq<TypeDef>, v: Val, t: Type, fuel: nat) -> bool
    decreases fuel, 0nat, 0nat,
{
    match t {
        Type::Bool => v is Bool,
        Type::U8 => v is U8,
        Type::U16 => v is U16,
        Type::U32 => v is U32,
        Type::U64 => v is U64,
        Type::S8 => v is S8,
        Type::S16 => v is S16,
        Type::S32 => v is S32,
        Type::S64 => v is S64,
        Type::F32 => v is F32Bits,
        Type::F64 => v is F64Bits,
        Type::Char => v matches Val::Char(c) && valid_char(c),
        Type::Str => v matches Val::Text(bs) && bs@.len() <= MAX_ABI_SIZE,
        Type::Id(i) => fuel > 0 && i < ts.len() && val_has_kind(
            ts,
            v,
            ts[i as int].kind,
            (fuel - 1) as nat,
        ),
    }
}

/// Whether a value inhabits one type definition's shape.
pub open spec fn val_has_kind(ts: Seq<TypeDef>, v: Val, k: TypeDefKind, fuel: nat) -> bool
    decreases fuel, 3nat, 0nat,
{
    match k {
        TypeDefKind::Record(fs) => v matches Val::Record(xs) && xs@.len() == fs@.len()
            && vals_have_fields(ts, xs@, fs@, fs@.len(), fuel),
        TypeDefKind::Variant(cs) => v matches Val::Variant(d, pl) && (d as int) < cs@.len()
            && payload_has(ts, pl, cs@[d as int].payload, fuel),
        TypeDefKind::Flags(names) => v matches Val::Flags(b) && names@.len() <= 64 && (names@.len()
            < 64 ==> b < (1u64 << (names@.len() as u64))),
        TypeDefKind::List(et) => v matches Val::List(xs) && xs@.len() <= MAX_ABI_SIZE && forall|
            j: int,
        |
            0 <= j < xs@.len() ==> val_has_ty(ts, #[trigger] xs@[j], et, fuel),
        TypeDefKind::Handle(m) => v is Handle,
    }
}

/// Whether a variant payload value matches the case's payload type.
pub open spec fn payload_has(
    ts: Seq<TypeDef>,
    pl: Option<Box<Val>>,
    pt: Option<Type>,
    fuel: nat,
) -> bool
    decreases fuel, 2nat, 0nat,
{
    match (pl, pt) {
        (Some(b), Some(t)) => val_has_ty(ts, *b, t, fuel),
        (None, None) => true,
        _ => false,
    }
}

/// Whether the first `i` field values inhabit their field types.
pub open spec fn vals_have_fields(
    ts: Seq<TypeDef>,
    xs: Seq<Val>,
    fs: Seq<Field>,
    i: nat,
    fuel: nat,
) -> bool
    decreases fuel, 2nat, i,
{
    i == 0 || (vals_have_fields(ts, xs, fs, (i - 1) as nat, fuel) && val_has_ty(
        ts,
        xs[i - 1],
        fs[i - 1].ty,
        fuel,
    ))
}

/// The padded, converted slot sequence of one variant case inside the
/// joined flattening.
pub open spec fn pad_slots(ps: Seq<CoreVal>, jks: Seq<CoreKind>) -> Seq<CoreVal> {
    Seq::new(
        jks.len(),
        |i: int|
            if i < ps.len() {
                conv_slot(ps[i], jks[i])
            } else {
                zero_slot(jks[i])
            },
    )
}

/// The canonical flat lowering: the flattened wire form of the value `v`
/// at type `t`, when `v` inhabits `t` and `t` flattens.  Indirect types —
/// strings and lists, and aggregates forced through memory — and values of
/// the wrong shape have none.
pub open spec fn flat_lower(ts: Seq<TypeDef>, v: Val, t: Type, fuel: nat) -> Option<Seq<CoreVal>>
    decreases fuel, 0nat, 0nat,
{
    match (t, v) {
        (Type::Bool, Val::Bool(b)) => Some(
            seq![
                CoreVal::I32(
                    if b {
                        1u32
                    } else {
                        0u32
                    },
                ),
            ],
        ),
        (Type::U8, Val::U8(x)) => Some(seq![CoreVal::I32(x as u32)]),
        (Type::U16, Val::U16(x)) => Some(seq![CoreVal::I32(x as u32)]),
        (Type::U32, Val::U32(x)) => Some(seq![CoreVal::I32(x)]),
        (Type::U64, Val::U64(x)) => Some(seq![CoreVal::I64(x)]),
        (Type::S8, Val::S8(x)) => Some(seq![CoreVal::I32(x as u32)]),
        (Type::S16, Val::S16(x)) => Some(seq![CoreVal::I32(x as u32)]),
        (Type::S32, Val::S32(x)) => Some(seq![CoreVal::I32(x as u32)]),
        (Type::S64, Val::S64(x)) => Some(seq![CoreVal::I64(x as u64)]),
        (Type::F32, Val::F32Bits(b)) => Some(seq![CoreVal::F32(b)]),
        (Type::F64, Val::F64Bits(b)) => Some(seq![CoreVal::F64(b)]),
        (Type::Char, Val::Char(c)) => if valid_char(c) {
            Some(seq![CoreVal::I32(c)])
        } else {
            None
        },
        (Type::Id(i), _) => if fuel > 0 && i < ts.len() {
            flat_lower_kind(ts, v, ts[i as int].kind, (fuel - 1) as nat)
        } else {
            None
        },
        _ => None,
    }
}

/// The flat lowering under one type definition's shape.
pub open spec fn flat_lower_kind(ts: Seq<TypeDef>, v: Val, k: TypeDefKind, fuel: nat) -> Option<
    Seq<CoreVal>,
>
    decreases fuel, 3nat, 0nat,
{
    match (k, v) {
        (TypeDefKind::Record(fs), Val::Record(xs)) => if xs@.len() == fs@.len() {
            match kind_abi(ts, TypeDefKind::Record(fs), fuel) {
                Ok(a) => if a.flat is Some {
                    flat_lower_fields(ts, xs@, fs@, fs@.len(), fuel)
                } else {
                    None
                },
                Err(e) => None,
            }
        } else {
            None
        },
        (TypeDefKind::Variant(cs), Val::Variant(d, pl)) => if (d as int) < cs@.len() && cs@.len()
            <= u32::MAX {
            match kind_abi(ts, TypeDefKind::Variant(cs), fuel) {
                Ok(a) => match a.flat {
                    Some(ks) => match flat_lower_payload(ts, pl, cs@[d as int].payload, fuel) {
                        Some(ps) => if ps.len() + 1 <= ks.len() {
                            Some(seq![CoreVal::I32(d)] + pad_slots(ps, ks.skip(1)))
                        } else {
                            None
                        },
                        None => None,
                    },
                    None => None,
                },
                Err(e) => None,
            }
        } else {
            None
        },
        (TypeDefKind::Flags(names), Val::Flags(b)) => if names@.len() <= 64 && (names@.len() < 64
            ==> b < (1u64 << (names@.len() as u64))) {
            if names@.len() <= 32 {
                Some(seq![CoreVal::I32(b as u32)])
            } else {
                Some(seq![CoreVal::I64(b)])
            }
        } else {
            None
        },
        (TypeDefKind::Handle(m), Val::Handle(h)) => Some(seq![CoreVal::I32(h)]),
        _ => None,
    }
}

/// The flat lowering of a variant payload.
pub open spec fn flat_lower_payload(
    ts: Seq<TypeDef>,
    pl: Option<Box<Val>>,
    pt: Option<Type>,
    fuel: nat,
) -> Option<Seq<CoreVal>>
    decreases fuel, 2nat, 0nat,
{
    match (pl, pt) {
        (Some(b), Some(t)) => flat_lower(ts, *b, t, fuel),
        (None, None) => Some(Seq::empty()),
        _ => None,
    }
}

/// The concatenated flat lowering of the first `i` fields of a record, in
/// field order.
pub open spec fn flat_lower_fields(
    ts: Seq<TypeDef>,
    xs: Seq<Val>,
    fs: Seq<Field>,
    i: nat,
    fuel: nat,
) -> Option<Seq<CoreVal>>
    decreases fuel, 2nat, i,
{
    if i == 0 {
        Some(Seq::empty())
    } else {
        match (flat_lower_fields(ts, xs, fs, (i - 1) as nat, fuel), flat_lower(
            ts,
            xs[i - 1],
            fs[i - 1].ty,
            fuel,
        )) {
            (Some(a), Some(b)) => Some(a + b),
            _ => None,
        }
    }
}

/// The classification of a variant case's payload: an absent payload takes
/// no space and no slots.
pub open spec fn payload_abi(ts: Seq<TypeDef>, pt: Option<Type>, fuel: nat) -> Result<
    AbiSpec,
    AbiErr,
> {
    match pt {
        Some(t) => abi_of(ts, t, fuel),
        None => Ok(AbiSpec { flat: Some(Seq::empty()), size: 0, align: 1 }),
    }
}

/// Within a record whose layout flattens, every field's own layout
/// flattens.
pub proof fn lemma_rec_flat_fields(ts: Seq<TypeDef>, fs: Seq<Field>, i: nat, fuel: nat)
    requires
        fields_abi(ts, fs, i, fuel) matches Ok(acc) && acc.flat is Some,
    ensures
        forall|j: int|
            0 <= j < i ==> ((#[trigger] abi_of(ts, fs[j].ty, fuel)) matches Ok(fa) && fa.flat
                is Some),
        fields_abi(ts, fs, i, fuel) matches Ok(acc) && (acc.flat matches Some(ks) && ks.len()
            <= FLAT_MAX),
    decreases i,
{
    if i > 0 {
        lemma_rec_flat_fields(ts, fs, (i - 1) as nat, fuel);
    }
}

/// Within a variant whose union of cases flattens, each case's payload
/// flattens, into at most as many slots, and each joined slot kind is the
/// case's own kind or the widened 64-bit slot.
pub proof fn lemma_cases_cover(ts: Seq<TypeDef>, cs: Seq<Case>, i: nat, d: int, fuel: nat)
    requires
        cases_abi(ts, cs, i, fuel) matches Ok(acc) && acc.flat is Some,
        0 <= d < i,
    ensures
        cases_abi(ts, cs, i, fuel) matches Ok(acc) && (acc.flat matches Some(jks) && (payload_abi(
            ts,
            cs[d].payload,
            fuel,
        ) matches Ok(pa) && (pa.flat matches Some(pks) && pks.len() <= jks.len() && forall|sl: int|
            0 <= sl < pks.len() ==> jks[sl] == pks[sl] || jks[sl] == CoreKind::I64))),
    decreases i,
{
    if i > 0 {
        if d < i - 1 {
            lemma_cases_cover(ts, cs, (i - 1) as nat, d, fuel);
        }
    }
}

/// A flat lowering exists for every well-typed value of a flattenable
/// type, and it has exactly the core value kinds the classifier computed.
pub proof fn lemma_lower_total(ts: Seq<TypeDef>, v: Val, t: Type, fuel: nat)
    requires
        val_has_ty(ts, v, t, fuel),
        abi_of(ts, t, fuel) matches Ok(a) && a.flat is Some,
    ensures
        abi_of(ts, t, fuel) matches Ok(a) && (a.flat matches Some(ks) && (flat_lower(
            ts,
            v,
            t,
            fuel,
        ) matches Some(s) && s.len() == ks.len() && forall|j: int|
            0 <= j < s.len() ==> kind_of(#[trigger] s[j]) == ks[j])),
    decreases fuel, 0nat, 0nat,
{
    match t {
        Type::Id(i) => {
            lemma_lower_kind_total(ts, v, ts[i as int].kind, (fuel - 1) as nat);
        },
        _ => {},
    }
}

/// Totality and kinds of the flat lowering, per type definition shape.
pub proof fn lemma_lower_kind_total(ts: Seq<TypeDef>, v: Val, k: TypeDefKind, fuel: nat)
    requires
        val_has_kind(ts, v, k, fuel),
        kind_abi(ts, k, fuel) matches Ok(a) && a.flat is Some,
    ensures
        kind_abi(ts, k, fuel) matches Ok(a) && (a.flat matches Some(ks) && (flat_lower_kind(
            ts,
            v,
            k,
            fuel,
        ) matches Some(s) && s.len() == ks.len() && forall|j: int|
            0 <= j < s.len() ==> kind_of(#[trigger] s[j]) == ks[j])),
    decreases fuel, 3nat, 0nat,
{
    match (k, v) {
        (TypeDefKind::Record(fs), Val::Record(xs)) => {
            lemma_lower_fields_total(ts, xs@, fs@, fs@.len(), fuel);
        },
        (TypeDefKind::Variant(cs), Val::Variant(d, pl)) => {
            lemma_cases_cover(ts, cs@, cs@.len(), d as int, fuel);
            match cases_abi(ts, cs@, cs@.len(), fuel) {
                Ok(acc) => {
                    let jks = acc.flat->0;
                    let ks = kind_abi(ts, k, fuel)->Ok_0.flat->0;
                    assert(ks == seq![CoreKind::I32] + jks);
                    assert(ks.skip(1) =~= jks);
                    match (pl, cs@[d as int].payload) {
                        (Some(b), Some(pt)) => {
                            lemma_lower_total(ts, *b, pt, fuel);
                        },
                        _ => {},
                    }
                    let ps = flat_lower_payload(ts, pl, cs@[d as int].payload, fuel)->0;
                    let s = seq![CoreVal::I32(d)] + pad_slots(ps, jks);
                    assert forall|j: int| 0 <= j < s.len() implies kind_of(#[trigger] s[j]) == (
                    seq![CoreKind::I32] + jks)[j] by {
                        if j > 0 {
                            assert(s[j] == pad_slots(ps, jks)[j - 1]);
                        }
                    }
                },
                Err(e) => {},
            }
        },
        _ => {},
    }
}

/// Totality and kinds of the concatenated field lowering.
pub proof fn lemma_lower_fields_total(
    ts: Seq<TypeDef>,
    xs: Seq<Val>,
    fs: Seq<Field>,
    i: nat,
    fuel: nat,
)
    requires
        vals_have_fields(ts, xs, fs, i, fuel),
        fields_abi(ts, fs, i, fuel) matches Ok(acc) && acc.flat is Some,
    ensures
        fields_abi(ts, fs, i, fuel) matches Ok(acc) && (acc.flat matches Some(ks) && (
        flat_lower_fields(ts, xs, fs, i, fuel) matches Some(s) && s.len() == ks.len() && forall|
            j: int,
        |
            0 <= j < s.len() ==> kind_of(#[trigger] s[j]) == ks[j])),
    decreases fuel, 2nat, i,
{
    if i > 0 {
        lemma_lower_fields_total(ts, xs, fs, (i - 1) as nat, fuel);
        lemma_lower_total(ts, xs[i - 1], fs[i - 1].ty, fuel);
    }
}

/// Direction duality on flattenable types: two well-typed values with the
/// same flat lowering are the same value.  The Import stub lowers a value
/// into core values and the Export trampoline lifts the same core values;
/// wiring one against the other therefore round-trips every value of a
/// flattenable type unchanged, in either pairing of the two directions.
#[verifier::rlimit(100)]
pub proof fn lemma_direction_duality(
    ts: Seq<TypeDef>,
    v1: Val,
    v2: Val,
    t: Type,
    s: Seq<CoreVal>,
    fuel: nat,
)
    requires
        abi_of(ts, t, fuel) matches Ok(a) && a.flat is Some,
        val_has_ty(ts, v1, t, fuel),
        val_has_ty(ts, v2, t, fuel),
        flat_lower(ts, v1, t, fuel) == Some(s),
        flat_lower(ts, v2, t, fuel) == Some(s),
    ensures
        val_eq(v1, v2),
    decreases fuel, 0nat, 0nat,
{
    match t {
        Type::Id(i) => {
            lemma_kind_duality(ts, v1, v2, ts[i as int].kind, s, (fuel - 1) as nat);
        },
        Type::Bool => {
            assert(s[0] == CoreVal::I32(
                if v1->Bool_0 {
                    1u32
                } else {
                    0u32
                },
            ));
            assert(s[0] == CoreVal::I32(
                if v2->Bool_0 {
                    1u32
                } else {
                    0u32
                },
            ));
        },
        Type::S8 => {
            assert(s[0] == CoreVal::I32(v1->S8_0 as u32) && s[0] == CoreVal::I32(v2->S8_0 as u32));
            let x1 = v1->S8_0;
            let x2 = v2->S8_0;
            assert(x1 as u32 == x2 as u32 ==> x1 == x2) by (bit_vector);
        },
        Type::S16 => {
            let x1 = v1->S16_0;
            let x2 = v2->S16_0;
            assert(s[0] == CoreVal::I32(x1 as u32) && s[0] == CoreVal::I32(x2 as u32));
            assert(x1 as u32 == x2 as u32 ==> x1 == x2) by (bit_vector);
        },
        Type::S32 => {
            let x1 = v1->S32_0;
            let x2 = v2->S32_0;
            assert(s[0] == CoreVal::I32(x1 as u32) && s[0] == CoreVal::I32(x2 as u32));
            assert(x1 as u32 == x2 as u32 ==> x1 == x2) by (bit_vector);
        },
        Type::S64 => {
            let x1 = v1->S64_0;
            let x2 = v2->S64_0;
            assert(s[0] == CoreVal::I64(x1 as u64) && s[0] == CoreVal::I64(x2 as u64));
            assert(x1 as u64 == x2 as u64 ==> x1 == x2) by (bit_vector);
        },
        _ => {},
    }
}

/// Duality per type definition shape.
pub proof fn lemma_kind_duality(
    ts: Seq<TypeDef>,
    v1: Val,
    v2: Val,
    k: TypeDefKind,
    s: Seq<CoreVal>,
    fuel: nat,
)
    requires
        kind_abi(ts, k, fuel) matches Ok(a) && a.flat is Some,
        val_has_kind(ts, v1, k, fuel),
        val_has_kind(ts, v2, k, fuel),
        flat_lower_kind(ts, v1, k, fuel) == Some(s),
        flat_lower_kind(ts, v2, k, fuel) == Some(s),
    ensures
        val_eq(v1, v2),
    decreases fuel, 3nat, 0nat,
{
    match (k, v1, v2) {
        (TypeDefKind::Record(fs), Val::Record(xs1), Val::Record(xs2)) => {
            lemma_fields_duality(ts, xs1@, xs2@, fs@, fs@.len(), s, fuel);
        },
        (TypeDefKind::Variant(cs), Val::Variant(d1, pl1), Val::Variant(d2, pl2)) => {
            assert(s[0] == CoreVal::I32(d1) && s[0] == CoreVal::I32(d2));
            lemma_cases_cover(ts, cs@, cs@.len(), d1 as int, fuel);
            match cases_abi(ts, cs@, cs@.len(), fuel) {
                Ok(acc) => {
                    let jks = acc.flat->0;
                    let ks = kind_abi(ts, k, fuel)->Ok_0.flat->0;
                    assert(ks == seq![CoreKind::I32] + jks);
                    assert(ks.skip(1) =~= jks);
                    match (pl1, pl2, cs@[d1 as int].payload) {
                        (Some(b1), Some(b2), Some(pt)) => {
                            let pks = payload_abi(ts, cs@[d1 as int].payload, fuel)->Ok_0.flat->0;
                            lemma_lower_total(ts, *b1, pt, fuel);
                            lemma_lower_total(ts, *b2, pt, fuel);
                            let ps1 = flat_lower(ts, *b1, pt, fuel)->0;
                            let ps2 = flat_lower(ts, *b2, pt, fuel)->0;
                            assert forall|j: int| 0 <= j < ps1.len() implies ps1[j] == ps2[j] by {
                                assert(pad_slots(ps1, jks)[j] == s[j + 1] && pad_slots(ps2, jks)[j]
                                    == s[j + 1]);
                                assert(conv_slot(ps1[j], jks[j]) == conv_slot(ps2[j], jks[j]));
                                assert(kind_of(ps1[j]) == pks[j] && kind_of(ps2[j]) == pks[j]);
                                assert(jks[j] == pks[j] || jks[j] == CoreKind::I64);
                            }
                            assert(ps1 =~= ps2);
                            lemma_direction_duality(ts, *b1, *b2, pt, ps1, fuel);
                            assert(val_eq(v1, v2));
                        },
                        (None, None, None) => {
                            assert(val_eq(v1, v2));
                        },
                        _ => {},
                    }
                },
                Err(e) => {},
            }
        },
        (TypeDefKind::Flags(names), Val::Flags(b1), Val::Flags(b2)) => {
            if names@.len() <= 32 {
                assert(b1 < 0x1_0000_0000 && b2 < 0x1_0000_0000) by {
                    lemma_flags_bound(names@.len() as u64, b1);
                    lemma_flags_bound(names@.len() as u64, b2);
                }
                assert(s[0] == CoreVal::I32(b1 as u32) && s[0] == CoreVal::I32(b2 as u32));
            }
        },
        _ => {},
    }
}

/// A flag word of at most 32 named bits fits in 32 bits.
pub proof fn lemma_flags_bound(n: u64, b: u64)
    requires
        n <= 32,
        n < 64 ==> b < (1u64 << n),
    ensures
        b < 0x1_0000_0000,
{
    assert(n <= 32 && (n < 64 ==> b < (1u64 << n)) ==> b < 0x1_0000_0000) by (bit_vector);
}

/// Duality for the fields of a record.
pub proof fn lemma_fields_duality(
    ts: Seq<TypeDef>,
    xs1: Seq<Val>,
    xs2: Seq<Val>,
    fs: Seq<Field>,
    i: nat,
    s: Seq<CoreVal>,
    fuel: nat,
)
    requires
        fields_abi(ts, fs, i, fuel) matches Ok(acc) && acc.flat is Some,
        vals_have_fields(ts, xs1, fs, i, fuel),
        vals_have_fields(ts, xs2, fs, i, fuel),
        flat_lower_fields(ts, xs1, fs, i, fuel) == Some(s),
        flat_lower_fields(ts, xs2, fs, i, fuel) == Some(s),
    ensures
        forall|j: int| 0 <= j < i ==> val_eq(#[trigger] xs1[j], xs2[j]),
    decreases fuel, 2nat, i,
{
    if i > 0 {
        lemma_rec_flat_fields(ts, fs, i, fuel);
        lemma_lower_fields_total(ts, xs1, fs, (i - 1) as nat, fuel);
        lemma_lower_fields_total(ts, xs2, fs, (i - 1) as nat, fuel);
        lemma_lower_total(ts, xs1[i - 1], fs[i - 1].ty, fuel);
        lemma_lower_total(ts, xs2[i - 1], fs[i - 1].ty, fuel);
        let a1 = flat_lower_fields(ts, xs1, fs, (i - 1) as nat, fuel)->0;
        let b1 = flat_lower(ts, xs1[i - 1], fs[i - 1].ty, fuel)->0;
        let a2 = flat_lower_fields(ts, xs2, fs, (i - 1) as nat, fuel)->0;
        let b2 = flat_lower(ts, xs2[i - 1], fs[i - 1].ty, fuel)->0;
        assert(a1 + b1 == s && a2 + b2 == s);
        assert(a1.len() == a2.len() && b1.len() == b2.len());
        assert forall|j: int| 0 <= j < a1.len() implies a1[j] == a2[j] by {
            assert(a1[j] == (a1 + b1)[j]);
            assert(a2[j] == (a2 + b2)[j]);
        }
        assert(a1 =~= a2);
        assert forall|j: int| 0 <= j < b1.len() implies b1[j] == b2[j] by {
            assert(b1[j] == (a1 + b1)[a1.len() + j]);
            assert(b2[j] == (a2 + b2)[a2.len() + j]);
        }
        assert(b1 =~= b2);
        lemma_fields_duality(ts, xs1, xs2, fs, (i - 1) as nat, a1, fuel);
        lemma_direction_duality(ts, xs1[i - 1], xs2[i - 1], fs[i - 1].ty, b1, fuel);
    }
}




/// The mathematical form of an optional core value vector.
pub open spec fn opt_cv_view(r: Option<Vec<CoreVal>>) -> Option<Seq<CoreVal>> {
    match r {
        Some(v) => Some(v@),
        None => None,
    }
}

/// A flat lowering of one core value.
fn one_core(c: CoreVal) -> (r: Vec<CoreVal>)
    ensures
        r@ =~= seq![c],
{
    let mut v: Vec<CoreVal> = Vec::new();
    v.push(c);
    v
}

/// Appends one run of core values to another.
fn extend_core(dst: &mut Vec<CoreVal>, src: &Vec<CoreVal>)
    ensures
        final(dst)@ == old(dst)@ + src@,
{
    let mut i: usize = 0;
    while i < src.len()
        invariant
            i <= src@.len(),
            dst@ == old(dst)@ + src@.subrange(0, i as int),
        decreases src@.len() - i,
    {
        dst.push(src[i]);
        i = i + 1;
        proof {
            assert(dst@ =~= old(dst)@ + src@.subrange(0, i as int));
        }
    }
    proof {
        assert(dst@ =~= old(dst)@ + src@);
    }
}

/// The kind of one core value.
fn kind_x(c: CoreVal) -> (r: CoreKind)
    ensures
        r == kind_of(c),
{
    match c {
        CoreVal::I32(_) => CoreKind::I32,
        CoreVal::I64(_) => CoreKind::I64,
        CoreVal::F32(_) => CoreKind::F32,
        CoreVal::F64(_) => CoreKind::F64,
    }
}

/// The bits of one core value.
fn bits_x(c: CoreVal) -> (r: u64)
    ensures
        r == bits_of(c),
{
    match c {
        CoreVal::I32(x) => x as u64,
        CoreVal::I64(x) => x,
        CoreVal::F32(x) => x as u64,
        CoreVal::F64(x) => x,
    }
}

/// The core value of one kind holding the given bits.
fn make_x(k: CoreKind, b: u64) -> (r: CoreVal)
    ensures
        r == make_core(k, b),
{
    match k {
        CoreKind::I32 => CoreVal::I32(b as u32),
        CoreKind::I64 => CoreVal::I64(b),
        CoreKind::F32 => CoreVal::F32(b as u32),
        CoreKind::F64 => CoreVal::F64(b),
    }
}

/// Converts a payload core value into a joined slot.
fn conv_x(c: CoreVal, k: CoreKind) -> (r: CoreVal)
    ensures
        r == conv_slot(c, k),
{
    if kind_x(c) == k {
        c
    } else {
        make_x(k, bits_x(c))
    }
}

/// Once a field prefix has no lowering, no longer prefix has one.
proof fn lemma_lower_fields_none(ts: Seq<TypeDef>, xs: Seq<Val>, fs: Seq<Field>, i: nat, j: nat, fuel: nat)
    requires
        flat_lower_fields(ts, xs, fs, i, fuel) is None,
        i <= j,
    ensures
        flat_lower_fields(ts, xs, fs, j, fuel) is None,
    decreases j,
{
    if j > i {
        lemma_lower_fields_none(ts, xs, fs, i, (j - 1) as nat, fuel);
    }
}

/// Lowers one value of a flattenable type into its core values.  The
/// Import side runs this over arguments before the call; the Export side
/// runs it over results after invoking the implementation.  The result is
/// exactly the canonical flat lowering; a value of the wrong shape, or a
/// type that does not flatten, has none.
pub fn lower_flat(ts: &Vec<TypeDef>, v: &Val, t: Type, fuel: usize) -> (r: Option<Vec<CoreVal>>)
    ensures
        opt_cv_view(r) == flat_lower(ts@, *v, t, fuel as nat),
    decreases fuel, 0nat, 0nat,
{
    match (t, v) {
        (Type::Bool, Val::Bool(b)) => Some(
            one_core(
                CoreVal::I32(
                    if *b {
                        1
                    } else {
                        0
                    },
                ),
            ),
        ),
        (Type::U8, Val::U8(x)) => Some(one_core(CoreVal::I32(*x as u32))),
        (Type::U16, Val::U16(x)) => Some(one_core(CoreVal::I32(*x as u32))),
        (Type::U32, Val::U32(x)) => Some(one_core(CoreVal::I32(*x))),
        (Type::U64, Val::U64(x)) => Some(one_core(CoreVal::I64(*x))),
        (Type::S8, Val::S8(x)) => Some(one_core(CoreVal::I32(*x as u32))),
        (Type::S16, Val::S16(x)) => Some(one_core(CoreVal::I32(*x as u32))),
        (Type::S32, Val::S32(x)) => Some(one_core(CoreVal::I32(*x as u32))),
        (Type::S64, Val::S64(x)) => Some(one_core(CoreVal::I64(*x as u64))),
        (Type::F32, Val::F32Bits(b)) => Some(one_core(CoreVal::F32(*b))),
        (Type::F64, Val::F64Bits(b)) => Some(one_core(CoreVal::F64(*b))),
        (Type::Char, Val::Char(c)) => {
            if *c < 0xD800 || (0xE000 <= *c && *c < 0x110000) {
                Some(one_core(CoreVal::I32(*c)))
            } else {
                None
            }
        },
        (Type::Id(i), _) => {
            if fuel > 0 && i < ts.len() {
                lower_flat_kind(ts, v, &ts[i].kind, fuel - 1)
            } else {
                None
            }
        },
        _ => None,
    }
}

/// Lowers one value under a type definition's shape.
pub fn lower_flat_kind(ts: &Vec<TypeDef>, v: &Val, k: &TypeDefKind, fuel: usize) -> (r: Option<
    Vec<CoreVal>,
>)
    ensures
        opt_cv_view(r) == flat_lower_kind(ts@, *v, *k, fuel as nat),
    decreases fuel, 3nat, 0nat,
{
    match (k, v) {
        (TypeDefKind::Record(fs), Val::Record(xs)) => {
            if xs.len() != fs.len() {
                return None;
            }
            match classify_kind(ts, k, fuel) {
                Err(e) => {
                    return None;
                },
                Ok(a) => match &a.flat {
                    None => {
                        return None;
                    },
                    Some(ks0) => {},
                },
            }
            let mut out: Vec<CoreVal> = Vec::new();
            let mut j: usize = 0;
            while j < fs.len()
                invariant
                    j <= fs@.len(),
                    xs@.len() == fs@.len(),
                    *k == TypeDefKind::Record(*fs),
                    *v == Val::Record(*xs),
                    flat_lower_fields(ts@, xs@, fs@, j as nat, fuel as nat) == Some(out@),
                decreases fs@.len() - j,
            {
                match lower_flat(ts, &xs[j], fs[j].ty, fuel) {
                    Some(sj) => {
                        extend_core(&mut out, &sj);
                    },
                    None => {
                        proof {
                            lemma_lower_fields_none(
                                ts@,
                                xs@,
                                fs@,
                                (j + 1) as nat,
                                fs@.len(),
                                fuel as nat,
                            );
                        }
                        return None;
                    },
                }
                j = j + 1;
            }
            proof {
                assert(flat_lower_kind(ts@, *v, *k, fuel as nat) == Some(out@));
            }
            Some(out)
        },
        (TypeDefKind::Variant(cs), Val::Variant(d, pl)) => {
            if (*d as u64) >= cs.len() as u64 || cs.len() as u64 > u32::MAX as u64 {
                return None;
            }
            let di = *d as usize;
            match classify_kind(ts, k, fuel) {
                Err(e) => None,
                Ok(a) => match &a.flat {
                    None => None,
                    Some(ks) => {
                        let ghost jks = ks@.skip(1);
                        let ps: Vec<CoreVal> = match (pl, &cs[di].payload) {
                            (Some(b), Some(pt)) => match lower_flat(ts, b, *pt, fuel) {
                                Some(ps) => ps,
                                None => {
                                    return None;
                                },
                            },
                            (None, None) => Vec::new(),
                            _ => {
                                return None;
                            },
                        };
                        if ps.len() >= ks.len() {
                            return None;
                        }
                        let mut out: Vec<CoreVal> = Vec::new();
                        out.push(CoreVal::I32(*d));
                        let nslots = ks.len() - 1;
                        let mut j: usize = 0;
                        while j < nslots
                            invariant
                                j <= nslots,
                                nslots + 1 == ks@.len(),
                                ps@.len() <= nslots,
                                jks == ks@.skip(1),
                                *k == TypeDefKind::Variant(*cs),
                                *v == Val::Variant(*d, *pl),
                                (*d as int) < cs@.len() && cs@.len() <= u32::MAX,
                                flat_lower_payload(
                                    ts@,
                                    *pl,
                                    cs@[*d as int].payload,
                                    fuel as nat,
                                ) == Some(ps@),
                                kind_abi(ts@, *k, fuel as nat) matches Ok(a2) && a2.flat == Some(
                                    ks@,
                                ),
                                out@ == seq![CoreVal::I32(*d)] + pad_slots(ps@, jks).take(j as int),
                            decreases nslots - j,
                        {
                            let slot = if j < ps.len() {
                                conv_x(ps[j], ks[j + 1])
                            } else {
                                make_x(ks[j + 1], 0)
                            };
                            out.push(slot);
                            j = j + 1;
                            proof {
                                assert(pad_slots(ps@, jks)[j - 1] == slot);
                                assert(out@ =~= seq![CoreVal::I32(*d)] + pad_slots(ps@, jks).take(
                                    j as int,
                                ));
                            }
                        }
                        proof {
                            assert(pad_slots(ps@, jks).take(jks.len() as int) =~= pad_slots(
                                ps@,
                                jks,
                            ));
                            assert(out@ == seq![CoreVal::I32(*d)] + pad_slots(ps@, jks));
                            assert(flat_lower_kind(ts@, *v, *k, fuel as nat) == Some(out@));
                        }
                        Some(out)
                    },
                },
            }
        },
        (TypeDefKind::Flags(names), Val::Flags(b)) => {
            let n = names.len();
            if n > 64 {
                return None;
            }
            if n < 64 && *b >= (1u64 << (n as u64)) {
                return None;
            }
            if n <= 32 {
                proof {
                    lemma_flags_bound(n as u64, *b);
                    assert(flat_lower_kind(ts@, *v, *k, fuel as nat) == Some(
                        seq![CoreVal::I32(*b as u32)],
                    ));
                }
                Some(one_core(CoreVal::I32(*b as u32)))
            } else {
                Some(one_core(CoreVal::I64(*b)))
            }
        },
        (TypeDefKind::Handle(m), Val::Handle(h)) => Some(one_core(CoreVal::I32(*h))),
        _ => None,
    }
}


/// Whether two runs of core values are identical.
fn core_eq(a: &Vec<CoreVal>, b: &Vec<CoreVal>) -> (r: bool)
    ensures
        r == (a@ == b@),
{
    if a.len() != b.len() {
        proof {
            assert(a@.len() != b@.len());
        }
        return false;
    }
    let mut i: usize = 0;
    while i < a.len()
        invariant
            i <= a@.len(),
            a@.len() == b@.len(),
            forall|j: int| 0 <= j < i ==> a@[j] == b@[j],
        decreases a@.len() - i,
    {
        if a[i] != b[i] {
            return false;
        }
        i = i + 1;
    }
    proof {
        assert(a@ =~= b@);
    }
    true
}

/// Whatever has a flat lowering inhabits its type.
pub proof fn lemma_lower_implies_ty(ts: Seq<TypeDef>, v: Val, t: Type, fuel: nat)
    requires
        flat_lower(ts, v, t, fuel) is Some,
    ensures
        val_has_ty(ts, v, t, fuel),
    decreases fuel, 0nat, 0nat,
{
    match t {
        Type::Id(i) => {
            lemma_lower_kind_implies_ty(ts, v, ts[i as int].kind, (fuel - 1) as nat);
        },
        _ => {},
    }
}

/// Whatever has a flat lowering inhabits its type definition's shape.
pub proof fn lemma_lower_kind_implies_ty(ts: Seq<TypeDef>, v: Val, k: TypeDefKind, fuel: nat)
    requires
        flat_lower_kind(ts, v, k, fuel) is Some,
    ensures
        val_has_kind(ts, v, k, fuel),
    decreases fuel, 3nat, 0nat,
{
    match (k, v) {
        (TypeDefKind::Record(fs), Val::Record(xs)) => {
            lemma_lower_fields_implies_ty(ts, xs@, fs@, fs@.len(), fuel);
        },
        (TypeDefKind::Variant(cs), Val::Variant(d, pl)) => {
            match (pl, cs@[d as int].payload) {
                (Some(b), Some(pt)) => {
                    lemma_lower_implies_ty(ts, *b, pt, fuel);
                },
                _ => {},
            }
        },
        _ => {},
    }
}

/// Whatever field values have a concatenated lowering inhabit their field
/// types.
pub proof fn lemma_lower_fields_implies_ty(
    ts: Seq<TypeDef>,
    xs: Seq<Val>,
    fs: Seq<Field>,
    i: nat,
    fuel: nat,
)
    requires
        flat_lower_fields(ts, xs, fs, i, fuel) is Some,
    ensures
        vals_have_fields(ts, xs, fs, i, fuel),
    decreases fuel, 2nat, i,
{
    if i > 0 {
        lemma_lower_fields_implies_ty(ts, xs, fs, (i - 1) as nat, fuel);
        lemma_lower_implies_ty(ts, xs[i - 1], fs[i - 1].ty, fuel);
    }
}

/// Within a record prefix, every value inhabits its field's type.
pub proof fn lemma_vals_fields_each(
    ts: Seq<TypeDef>,
    xs: Seq<Val>,
    fs: Seq<Field>,
    i: nat,
    fuel: nat,
)
    requires
        vals_have_fields(ts, xs, fs, i, fuel),
    ensures
        forall|j: int| 0 <= j < i ==> val_has_ty(ts, #[trigger] xs[j], fs[j].ty, fuel),
    decreases i,
{
    if i > 0 {
        lemma_vals_fields_each(ts, xs, fs, (i - 1) as nat, fuel);
    }
}

/// A shorter field prefix's lowering is a prefix of a longer one's.
pub proof fn lemma_fields_prefix(
    ts: Seq<TypeDef>,
    ys: Seq<Val>,
    fs: Seq<Field>,
    j: nat,
    i: nat,
    s: Seq<CoreVal>,
    fuel: nat,
)
    requires
        j <= i,
        flat_lower_fields(ts, ys, fs, i, fuel) == Some(s),
    ensures
        flat_lower_fields(ts, ys, fs, j, fuel) matches Some(p) && p.len() <= s.len() && p == s.take(
            p.len() as int,
        ),
    decreases i,
{
    if j < i {
        let a = flat_lower_fields(ts, ys, fs, (i - 1) as nat, fuel)->0;
        let b = flat_lower(ts, ys[i - 1], fs[i - 1].ty, fuel)->0;
        assert(s == a + b);
        lemma_fields_prefix(ts, ys, fs, j, (i - 1) as nat, a, fuel);
        let p = flat_lower_fields(ts, ys, fs, j, fuel)->0;
        assert forall|x: int| 0 <= x < p.len() implies p[x] == s.take(p.len() as int)[x] by {
            assert(p[x] == a.take(p.len() as int)[x]);
            assert(a[x] == (a + b)[x]);
        }
        assert(p =~= s.take(p.len() as int));
    } else {
        assert(s.take(s.len() as int) =~= s);
    }
}

/// The lowering of a field prefix reads only that prefix of the values.
pub proof fn lemma_fields_agree(
    ts: Seq<TypeDef>,
    xs1: Seq<Val>,
    xs2: Seq<Val>,
    fs: Seq<Field>,
    i: nat,
    fuel: nat,
)
    requires
        forall|j: int| 0 <= j < i ==> xs1[j] == xs2[j],
    ensures
        flat_lower_fields(ts, xs1, fs, i, fuel) == flat_lower_fields(ts, xs2, fs, i, fuel),
    decreases i,
{
    if i > 0 {
        lemma_fields_agree(ts, xs1, xs2, fs, (i - 1) as nat, fuel);
    }
}

/// Whether some well-typed value of type `t` has `s` as its flat lowering:
/// exactly the inputs on which lifting owes success.
pub open spec fn liftable(ts: Seq<TypeDef>, t: Type, s: Seq<CoreVal>, fuel: nat) -> bool {
    exists|w: Val| val_has_ty(ts, w, t, fuel) && flat_lower(ts, w, t, fuel) == Some(s)
}

/// `liftable`, one definition deep.
pub open spec fn kind_liftable(ts: Seq<TypeDef>, k: TypeDefKind, s: Seq<CoreVal>, fuel: nat) -> bool {
    exists|w: Val| val_has_kind(ts, w, k, fuel) && flat_lower_kind(ts, w, k, fuel) == Some(s)
}

/// A copy of one span of core values.
fn slice_cv(s: &Vec<CoreVal>, lo: usize, hi: usize) -> (r: Option<Vec<CoreVal>>)
    ensures
        lo <= hi <= s@.len() ==> (r matches Some(v) && v@ == s@.subrange(lo as int, hi as int)),
{
    if lo > hi || hi > s.len() {
        return None;
    }
    let mut v: Vec<CoreVal> = Vec::new();
    let mut i: usize = lo;
    while i < hi
        invariant
            lo <= i <= hi,
            hi <= s@.len(),
            v@ == s@.subrange(lo as int, i as int),
        decreases hi - i,
    {
        v.push(s[i]);
        i = i + 1;
        proof {
            assert(v@ =~= s@.subrange(lo as int, i as int));
        }
    }
    Some(v)
}

/// Reconstructs the value behind a run of core values.  Wherever some
/// well-typed value has this run as its flat lowering, the reconstruction
/// succeeds and yields a value with exactly that lowering; on any other
/// input the result is unconstrained here and `lift_flat` rejects it by
/// lowering it again.
fn lift_candidate(ts: &Vec<TypeDef>, t: Type, s: &Vec<CoreVal>, fuel: usize) -> (r: Option<Val>)
    ensures
        liftable(ts@, t, s@, fuel as nat) ==> (r matches Some(c) && flat_lower(
            ts@,
            c,
            t,
            fuel as nat,
        ) == Some(s@)),
    decreases fuel, 0nat, 0nat,
{
    let ghost el = liftable(ts@, t, s@, fuel as nat);
    let ghost w: Val = if el {
        choose|w: Val|
            val_has_ty(ts@, w, t, fuel as nat) && flat_lower(ts@, w, t, fuel as nat) == Some(s@)
    } else {
        Val::Bool(false)
    };
    if s.len() < 1 {
        match t {
            Type::Id(i) => {
                if fuel > 0 && i < ts.len() {
                    proof {
                        if el {
                            assert(kind_liftable(
                                ts@,
                                ts@[i as int].kind,
                                s@,
                                (fuel - 1) as nat,
                            )) by {
                                assert(val_has_kind(ts@, w, ts@[i as int].kind, (fuel - 1) as nat)
                                    && flat_lower_kind(
                                    ts@,
                                    w,
                                    ts@[i as int].kind,
                                    (fuel - 1) as nat,
                                ) == Some(s@));
                            }
                        }
                    }
                    return lift_candidate_kind(ts, i, s, fuel - 1);
                } else {
                    return None;
                }
            },
            _ => {
                return None;
            },
        }
    }
    match t {
        Type::Bool => match s[0] {
            CoreVal::I32(y) => {
                proof {
                    if el {
                        assert(Val::Bool(y == 1) == w);
                    }
                }
                Some(Val::Bool(y == 1))
            },
            _ => None,
        },
        Type::U8 => match s[0] {
            CoreVal::I32(y) => {
                proof {
                    if el {
                        assert(Val::U8(y as u8) == w);
                    }
                }
                Some(Val::U8(y as u8))
            },
            _ => None,
        },
        Type::U16 => match s[0] {
            CoreVal::I32(y) => {
                proof {
                    if el {
                        assert(Val::U16(y as u16) == w);
                    }
                }
                Some(Val::U16(y as u16))
            },
            _ => None,
        },
        Type::U32 => match s[0] {
            CoreVal::I32(y) => Some(Val::U32(y)),
            _ => None,
        },
        Type::U64 => match s[0] {
            CoreVal::I64(y) => Some(Val::U64(y)),
            _ => None,
        },
        Type::S8 => match s[0] {
            CoreVal::I32(y) => {
                proof {
                    if el {
                        let x = w->S8_0;
                        assert(y == x as u32 ==> y as i8 == x) by (bit_vector);
                        assert(Val::S8(y as i8) == w);
                    }
                }
                Some(Val::S8(y as i8))
            },
            _ => None,
        },
        Type::S16 => match s[0] {
            CoreVal::I32(y) => {
                proof {
                    if el {
                        let x = w->S16_0;
                        assert(y == x as u32 ==> y as i16 == x) by (bit_vector);
                        assert(Val::S16(y as i16) == w);
                    }
                }
                Some(Val::S16(y as i16))
            },
            _ => None,
        },
        Type::S32 => match s[0] {
            CoreVal::I32(y) => {
                proof {
                    if el {
                        let x = w->S32_0;
                        assert(y == x as u32 ==> y as i32 == x) by (bit_vector);
                        assert(Val::S32(y as i32) == w);
                    }
                }
                Some(Val::S32(y as i32))
            },
            _ => None,
        },
        Type::S64 => match s[0] {
            CoreVal::I64(y) => {
                proof {
                    if el {
                        let x = w->S64_0;
                        assert(y == x as u64 ==> y as i64 == x) by (bit_vector);
                        assert(Val::S64(y as i64) == w);
                    }
                }
                Some(Val::S64(y as i64))
            },
            _ => None,
        },
        Type::F32 => match s[0] {
            CoreVal::F32(y) => Some(Val::F32Bits(y)),
            _ => None,
        },
        Type::F64 => match s[0] {
            CoreVal::F64(y) => Some(Val::F64Bits(y)),
            _ => None,
        },
        Type::Char => match s[0] {
            CoreVal::I32(y) => {
                proof {
                    if el {
                        assert(Val::Char(y) == w);
                    }
                }
                Some(Val::Char(y))
            },
            _ => None,
        },
        Type::Str => None,
        Type::Id(i) => {
            if fuel > 0 && i < ts.len() {
                proof {
                    if el {
                        assert(kind_liftable(ts@, ts@[i as int].kind, s@, (fuel - 1) as nat)) by {
                            assert(val_has_kind(ts@, w, ts@[i as int].kind, (fuel - 1) as nat)
                                && flat_lower_kind(ts@, w, ts@[i as int].kind, (fuel - 1) as nat)
                                == Some(s@));
                        }
                    }
                }
                lift_candidate_kind(ts, i, s, fuel - 1)
            } else {
                None
            }
        },
    }
}

/// Reconstructs a candidate value under the `i`-th type definition.
#[verifier::rlimit(100)]
fn lift_candidate_kind(ts: &Vec<TypeDef>, i: usize, s: &Vec<CoreVal>, fuel: usize) -> (r: Option<
    Val,
>)
    requires
        i < ts@.len(),
    ensures
        kind_liftable(ts@, ts@[i as int].kind, s@, fuel as nat) ==> (r matches Some(c)
            && flat_lower_kind(ts@, c, ts@[i as int].kind, fuel as nat) == Some(s@)),
    decreases fuel, 3nat, 0nat,
{
    let ghost el = kind_liftable(ts@, ts@[i as int].kind, s@, fuel as nat);
    let ghost w: Val = if el {
        choose|w: Val|
            val_has_kind(ts@, w, ts@[i as int].kind, fuel as nat) && flat_lower_kind(
                ts@,
                w,
                ts@[i as int].kind,
                fuel as nat,
            ) == Some(s@)
    } else {
        Val::Bool(false)
    };
    match &ts[i].kind {
        TypeDefKind::Record(fs) => {
            let ghost ys: Seq<Val> = if el {
                w->Record_0@
            } else {
                Seq::empty()
            };
            proof {
                if el {
                    lemma_rec_flat_fields(ts@, fs@, fs@.len(), fuel as nat);
                    assert(flat_lower_fields(ts@, ys, fs@, 0, fuel as nat) == Some(
                        s@.take(0),
                    )) by {
                        assert(s@.take(0) =~= Seq::<CoreVal>::empty());
                    }
                    assert(flat_lower_fields(ts@, Seq::<Val>::empty(), fs@, 0, fuel as nat)
                        == Some(s@.take(0)));
                }
            }
            let mut xs: Vec<Val> = Vec::new();
            let mut pos: usize = 0;
            let mut j: usize = 0;
            while j < fs.len()
                invariant
                    j <= fs@.len(),
                    pos <= s@.len(),
                    i < ts@.len(),
                    xs@.len() == j,
                    ts@[i as int].kind matches TypeDefKind::Record(fs2) && fs2 == *fs,
                    el == kind_liftable(ts@, ts@[i as int].kind, s@, fuel as nat),
                    el ==> {
                        &&& val_has_kind(ts@, w, ts@[i as int].kind, fuel as nat)
                        &&& flat_lower_kind(ts@, w, ts@[i as int].kind, fuel as nat) == Some(s@)
                        &&& w matches Val::Record(ysv) && ysv@ == ys
                        &&& ys.len() == fs@.len()
                        &&& flat_lower_fields(ts@, ys, fs@, fs@.len(), fuel as nat) == Some(s@)
                        &&& vals_have_fields(ts@, ys, fs@, fs@.len(), fuel as nat)
                        &&& fields_abi(ts@, fs@, fs@.len(), fuel as nat) matches Ok(acc)
                            && acc.flat is Some
                        &&& forall|q: int|
                            0 <= q < fs@.len() ==> ((#[trigger] abi_of(
                                ts@,
                                fs@[q].ty,
                                fuel as nat,
                            )) matches Ok(fa) && fa.flat is Some)
                        &&& flat_lower_fields(ts@, xs@, fs@, j as nat, fuel as nat) == Some(
                            s@.take(pos as int),
                        )
                        &&& flat_lower_fields(ts@, ys, fs@, j as nat, fuel as nat) == Some(
                            s@.take(pos as int),
                        )
                    },
                decreases fs@.len() - j,
            {
                proof {
                    if el {
                        lemma_vals_fields_each(ts@, ys, fs@, fs@.len(), fuel as nat);
                        lemma_lower_total(ts@, ys[j as int], fs@[j as int].ty, fuel as nat);
                        lemma_fields_prefix(
                            ts@,
                            ys,
                            fs@,
                            (j + 1) as nat,
                            fs@.len(),
                            s@,
                            fuel as nat,
                        );
                    }
                }
                let fa = match classify_ty(ts, fs[j].ty, fuel) {
                    Ok(fa) => fa,
                    Err(e) => {
                        proof {
                            if el {
                                assert(false);
                            }
                        }
                        return None;
                    },
                };
                let n = match &fa.flat {
                    Some(ks) => ks.len(),
                    None => {
                        proof {
                            if el {
                                assert(false);
                            }
                        }
                        return None;
                    },
                };
                let ghost bj: Seq<CoreVal> = if el {
                    flat_lower(ts@, ys[j as int], fs@[j as int].ty, fuel as nat)->0
                } else {
                    Seq::empty()
                };
                proof {
                    if el {
                        // The next prefix extends the current one by this
                        // field's lowering, so the field occupies exactly
                        // the next `n` core values.
                        let p1 = flat_lower_fields(ts@, ys, fs@, (j + 1) as nat, fuel as nat)->0;
                        assert(p1 == s@.take(pos as int) + bj);
                        assert(bj.len() == n);
                        assert(p1 == s@.take(p1.len() as int));
                        assert(pos + n <= s@.len());
                        assert forall|x: int| 0 <= x < n implies bj[x] == s@.subrange(
                            pos as int,
                            pos + n,
                        )[x] by {
                            assert(bj[x] == p1[pos + x]);
                            assert(p1[pos + x] == s@.take(p1.len() as int)[pos + x]);
                        }
                        assert(bj =~= s@.subrange(pos as int, pos + n));
                    }
                }
                if pos > s.len() || s.len() - pos < n {
                    proof {
                        if el {
                            assert(false);
                        }
                    }
                    return None;
                }
                let sub = match slice_cv(s, pos, pos + n) {
                    Some(sub) => sub,
                    None => {
                        proof {
                            if el {
                                assert(false);
                            }
                        }
                        return None;
                    },
                };
                proof {
                    if el {
                        assert(liftable(ts@, fs@[j as int].ty, sub@, fuel as nat)) by {
                            assert(val_has_ty(ts@, ys[j as int], fs@[j as int].ty, fuel as nat)
                                && flat_lower(ts@, ys[j as int], fs@[j as int].ty, fuel as nat)
                                == Some(sub@));
                        }
                    }
                }
                match lift_candidate(ts, fs[j].ty, &sub, fuel) {
                    Some(c) => {
                        let ghost pre_xs = xs@;
                        xs.push(c);
                        proof {
                            if el {
                                lemma_fields_agree(ts@, pre_xs, xs@, fs@, j as nat, fuel as nat);
                                assert(flat_lower_fields(ts@, xs@, fs@, (j + 1) as nat, fuel as nat)
                                    == Some(s@.take(pos as int) + sub@));
                                assert(s@.take(pos as int) + sub@ =~= s@.take(pos + n));
                            }
                        }
                    },
                    None => {
                        proof {
                            if el {
                                assert(false);
                            }
                        }
                        return None;
                    },
                }
                pos = pos + n;
                j = j + 1;
            }
            if pos != s.len() {
                proof {
                    if el {
                        assert(s@.take(pos as int).len() == s@.len());
                    }
                }
                return None;
            }
            proof {
                if el {
                    assert(s@.take(pos as int) =~= s@);
                    assert(flat_lower_kind(ts@, Val::Record(xs), ts@[i as int].kind, fuel as nat)
                        == Some(s@));
                }
            }
            Some(Val::Record(xs))
        },
        TypeDefKind::Variant(cs) => {
            let ghost jks: Seq<CoreKind> = if el {
                kind_abi(ts@, ts@[i as int].kind, fuel as nat)->Ok_0.flat->0.skip(1)
            } else {
                Seq::empty()
            };
            let ghost psw: Seq<CoreVal> = if el {
                flat_lower_payload(
                    ts@,
                    w->Variant_1,
                    cs@[w->Variant_0 as int].payload,
                    fuel as nat,
                )->0
            } else {
                Seq::empty()
            };
            proof {
                if el {
                    assert(s@ == seq![CoreVal::I32(w->Variant_0)] + pad_slots(psw, jks));
                    assert(s@.len() == 1 + jks.len());
                    assert(s@[0] == CoreVal::I32(w->Variant_0));
                }
            }
            if s.len() < 1 {
                proof {
                    if el {
                        assert(false);
                    }
                }
                return None;
            }
            let d: u32 = match s[0] {
                CoreVal::I32(y) => y,
                _ => {
                    proof {
                        if el {
                            assert(false);
                        }
                    }
                    return None;
                },
            };
            if (d as u64) >= cs.len() as u64 {
                proof {
                    if el {
                        assert(false);
                    }
                }
                return None;
            }
            let di = d as usize;
            proof {
                if el {
                    assert(d == w->Variant_0);
                    lemma_cases_cover(ts@, cs@, cs@.len(), d as int, fuel as nat);
                }
            }
            let payload: Option<Box<Val>> = match &cs[di].payload {
                None => {
                    proof {
                        if el {
                            assert(w->Variant_1 is None);
                            assert(psw =~= Seq::<CoreVal>::empty());
                        }
                    }
                    None
                },
                Some(pt) => {
                    let pa = match classify_ty(ts, *pt, fuel) {
                        Ok(pa) => pa,
                        Err(e) => {
                            proof {
                                if el {
                                    assert(false);
                                }
                            }
                            return None;
                        },
                    };
                    let pk_vec = match &pa.flat {
                        Some(pk_vec) => pk_vec,
                        None => {
                            proof {
                                if el {
                                    assert(false);
                                }
                            }
                            return None;
                        },
                    };
                    let ghost pks = pk_vec@;
                    proof {
                        if el {
                            assert(w->Variant_1 matches Some(bw) && val_has_ty(
                                ts@,
                                *bw,
                                *pt,
                                fuel as nat,
                            ) && flat_lower(ts@, *bw, *pt, fuel as nat) == Some(psw));
                            lemma_lower_total(ts@, *w->Variant_1->0, *pt, fuel as nat);
                            assert(psw.len() == pks.len());
                            assert(pks.len() <= jks.len());
                        }
                    }
                    if s.len() < 1 || s.len() - 1 < pk_vec.len() {
                        proof {
                            if el {
                                assert(false);
                            }
                        }
                        return None;
                    }
                    let mut ps: Vec<CoreVal> = Vec::new();
                    let mut j: usize = 0;
                    while j < pk_vec.len()
                        invariant
                            j <= pk_vec@.len(),
                            pk_vec@.len() + 1 <= s@.len(),
                            ps@.len() == j,
                            pks == pk_vec@,
                            el ==> {
                                &&& s@ == seq![CoreVal::I32(w->Variant_0)] + pad_slots(psw, jks)
                                &&& psw.len() == pks.len()
                                &&& pks.len() <= jks.len()
                                &&& forall|q: int|
                                    0 <= q < psw.len() ==> kind_of(#[trigger] psw[q]) == pks[q]
                                &&& forall|q: int|
                                    0 <= q < pks.len() ==> jks[q] == pks[q] || jks[q]
                                        == CoreKind::I64
                                &&& ps@ == psw.take(j as int)
                            },
                        decreases pk_vec@.len() - j,
                    {
                        let c = s[1 + j];
                        let slot = if kind_x(c) == pk_vec[j] {
                            c
                        } else {
                            make_x(pk_vec[j], bits_x(c))
                        };
                        proof {
                            if el {
                                assert(c == pad_slots(psw, jks)[j as int]);
                                assert(c == conv_slot(psw[j as int], jks[j as int]));
                                assert(slot == psw[j as int]);
                                assert(ps@.push(slot) =~= psw.take(j + 1));
                            }
                        }
                        ps.push(slot);
                        j = j + 1;
                    }
                    proof {
                        if el {
                            assert(ps@ =~= psw);
                            assert(liftable(ts@, *pt, ps@, fuel as nat)) by {
                                let bw = w->Variant_1->0;
                                assert(val_has_ty(ts@, *bw, *pt, fuel as nat) && flat_lower(
                                    ts@,
                                    *bw,
                                    *pt,
                                    fuel as nat,
                                ) == Some(ps@));
                            }
                        }
                    }
                    match lift_candidate(ts, *pt, &ps, fuel) {
                        Some(c) => Some(Box::new(c)),
                        None => {
                            proof {
                                if el {
                                    assert(false);
                                }
                            }
                            return None;
                        },
                    }
                },
            };
            proof {
                if el {
                    assert(flat_lower_kind(
                        ts@,
                        Val::Variant(d, payload),
                        ts@[i as int].kind,
                        fuel as nat,
                    ) == Some(s@));
                }
            }
            Some(Val::Variant(d, payload))
        },
        TypeDefKind::Flags(names) => {
            if s.len() < 1 {
                proof {
                    if el {
                        assert(false);
                    }
                }
                return None;
            }
            let n = names.len();
            if n <= 32 {
                match s[0] {
                    CoreVal::I32(y) => {
                        proof {
                            if el {
                                let bw = w->Flags_0;
                                lemma_flags_bound(n as u64, bw);
                                assert(y as u64 == bw);
                                assert(Val::Flags(y as u64) == w);
                            }
                        }
                        Some(Val::Flags(y as u64))
                    },
                    _ => {
                        proof {
                            if el {
                                assert(false);
                            }
                        }
                        None
                    },
                }
            } else {
                match s[0] {
                    CoreVal::I64(y) => {
                        proof {
                            if el {
                                assert(Val::Flags(y) == w);
                            }
                        }
                        Some(Val::Flags(y))
                    },
                    _ => {
                        proof {
                            if el {
                                assert(false);
                            }
                        }
                        None
                    },
                }
            }
        },
        TypeDefKind::List(et) => {
            proof {
                if el {
                    assert(false);
                }
            }
            None
        },
        TypeDefKind::Handle(m) => {
            if s.len() < 1 {
                proof {
                    if el {
                        assert(false);
                    }
                }
                return None;
            }
            match s[0] {
                CoreVal::I32(y) => {
                    proof {
                        if el {
                            assert(Val::Handle(y) == w);
                        }
                    }
                    Some(Val::Handle(y))
                },
                _ => {
                    proof {
                        if el {
                            assert(false);
                        }
                    }
                    None
                },
            }
        },
    }
}

/// Lifts core values back into the value they represent.  Any value this
/// returns is exactly the one whose canonical lowering is the given core
/// values — so, with the duality law, the one the other side lowered — and
/// whenever some well-typed value has this lowering, lifting succeeds.
/// Core values that represent no well-typed value, among them a variant
/// discriminant outside the declared cases, are refused as a protocol
/// violation.
pub fn lift_flat(ts: &Vec<TypeDef>, t: Type, s: &Vec<CoreVal>, fuel: usize) -> (r: Option<Val>)
    ensures
        r matches Some(w) ==> flat_lower(ts@, w, t, fuel as nat) == Some(s@) && val_has_ty(
            ts@,
            w,
            t,
            fuel as nat,
        ),
        liftable(ts@, t, s@, fuel as nat) ==> r is Some,
{
    let ghost el = liftable(ts@, t, s@, fuel as nat);
    let w = match lift_candidate(ts, t, s, fuel) {
        Some(w) => w,
        None => {
            return None;
        },
    };
    match lower_flat(ts, &w, t, fuel) {
        Some(s2) => {
            if core_eq(&s2, s) {
                proof {
                    lemma_lower_implies_ty(ts@, w, t, fuel as nat);
                }
                Some(w)
            } else {
                proof {
                    if el {
                        assert(false);
                    }
                }
                None
            }
        },
        None => {
            proof {
                if el {
                    assert(false);
                }
            }
            None
        },
    }
}

} // verus!
