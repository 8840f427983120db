//! The lowering/lifting and function-binding emitters.
//!
//! Everything here is text generation: for one function and one direction
//! the emitter produces a self-contained binding unit with the high-level
//! signature, per-parameter lowering, the core call or trampoline,
//! per-result lifting, and cleanup of transient buffers.  The emitted text
//! is a pure function of the interface, so the contracts pin every byte.
use vstd::prelude::*;
use vstd::string::StringSliceAdditionalSpecFns;
use crate::model::{Type, TypeDef, Param};
use crate::abi::{AbiType, CoreKind};

verus! {

/// The bytes of a literal fragment of source text.
pub open spec fn lit(s: &str) -> Seq<u8> {
    s.spec_bytes()
}

/// Appends a literal fragment of source text to an output buffer.
pub fn push_lit(out: &mut Vec<u8>, s: &str)
    ensures
        final(out)@ == old(out)@ + lit(s),
{
    let bs = s.as_bytes();
    let mut i: usize = 0;
    while i < bs.len()
        invariant
            i <= bs@.len(),
            bs@ == lit(s),
            out@ == old(out)@ + bs@.subrange(0, i as int),
        decreases bs@.len() - i,
    {
        out.push(bs[i]);
        i = i + 1;
        proof {
            assert(out@ =~= old(out)@ + bs@.subrange(0, i as int));
        }
    }
    proof {
        assert(out@ =~= old(out)@ + lit(s));
    }
}

/// Appends a name (a byte string of the model) to an output buffer.
pub fn push_name(out: &mut Vec<u8>, name: &Vec<u8>)
    ensures
        final(out)@ == old(out)@ + name@,
{
    let mut i: usize = 0;
    while i < name.len()
        invariant
            i <= name@.len(),
            out@ == old(out)@ + name@.subrange(0, i as int),
        decreases name@.len() - i,
    {
        out.push(name[i]);
        i = i + 1;
        proof {
            assert(out@ =~= old(out)@ + name@.subrange(0, i as int));
        }
    }
    proof {
        assert(out@ =~= old(out)@ + name@);
    }
}

/// The decimal digits of `n`, most significant first.
pub open spec fn dec_digits(n: nat) -> Seq<u8>
    decreases n,
{
    if n < 10 {
        seq![(48 + n) as u8]
    } else {
        dec_digits(n / 10).push((48 + n % 10) as u8)
    }
}

/// Appends the decimal form of a number to an output buffer.
pub fn push_dec(out: &mut Vec<u8>, n: usize)
    ensures
        final(out)@ == old(out)@ + dec_digits(n as nat),
    decreases n,
{
    if n < 10 {
        out.push(48 + n as u8);
        proof {
            assert(out@ =~= old(out)@ + dec_digits(n as nat));
        }
    } else {
        push_dec(out, n / 10);
        out.push(48 + (n % 10) as u8);
        proof {
            assert(out@ =~= old(out)@ + dec_digits(n as nat));
        }
    }
}

/// The source-language name of a type reference, as it appears in the
/// generated high-level signature.  An index outside the type table cannot
/// occur in a well-formed model; it prints as a placeholder so the text is
/// still total.
pub open spec fn ty_text(ts: Seq<TypeDef>, t: Type) -> Seq<u8> {
    match t {
        Type::Bool => lit("bool"),
        Type::U8 => lit("u8"),
        Type::U16 => lit("u16"),
        Type::U32 => lit("u32"),
        Type::U64 => lit("u64"),
        Type::S8 => lit("i8"),
        Type::S16 => lit("i16"),
        Type::S32 => lit("i32"),
        Type::S64 => lit("i64"),
        Type::F32 => lit("f32"),
        Type::F64 => lit("f64"),
        Type::Char => lit("char"),
        Type::Str => lit("String"),
        Type::Id(i) => if i < ts.len() {
            ts[i as int].name@
        } else {
            lit("?")
        },
    }
}

/// Writes the source-language name of a type reference.
pub fn emit_ty(out: &mut Vec<u8>, ts: &Vec<TypeDef>, t: Type)
    ensures
        final(out)@ == old(out)@ + ty_text(ts@, t),
{
    match t {
        Type::Bool => push_lit(out, "bool"),
        Type::U8 => push_lit(out, "u8"),
        Type::U16 => push_lit(out, "u16"),
        Type::U32 => push_lit(out, "u32"),
        Type::U64 => push_lit(out, "u64"),
        Type::S8 => push_lit(out, "i8"),
        Type::S16 => push_lit(out, "i16"),
        Type::S32 => push_lit(out, "i32"),
        Type::S64 => push_lit(out, "i64"),
        Type::F32 => push_lit(out, "f32"),
        Type::F64 => push_lit(out, "f64"),
        Type::Char => push_lit(out, "char"),
        Type::Str => push_lit(out, "String"),
        Type::Id(i) => {
            if i < ts.len() {
                push_name(out, &ts[i].name);
            } else {
                push_lit(out, "?");
            }
        },
    }
}

/// The text of one high-level parameter, `name: Type`.
pub open spec fn param_text(ts: Seq<TypeDef>, p: Param) -> Seq<u8> {
    p.name@ + lit(": ") + ty_text(ts, p.ty)
}

/// The comma-separated high-level parameter list of the first `i`
/// parameters.
pub open spec fn params_text(ts: Seq<TypeDef>, ps: Seq<Param>, i: nat) -> Seq<u8>
    decreases i,
{
    if i == 0 {
        Seq::empty()
    } else if i == 1 {
        param_text(ts, ps[0])
    } else {
        params_text(ts, ps, (i - 1) as nat) + lit(", ") + param_text(ts, ps[i - 1])
    }
}

/// Writes the comma-separated high-level parameter list.
pub fn emit_params(out: &mut Vec<u8>, ts: &Vec<TypeDef>, ps: &Vec<Param>)
    ensures
        final(out)@ == old(out)@ + params_text(ts@, ps@, ps@.len()),
{
    let mut i: usize = 0;
    while i < ps.len()
        invariant
            i <= ps@.len(),
            out@ == old(out)@ + params_text(ts@, ps@, i as nat),
        decreases ps@.len() - i,
    {
        if i > 0 {
            push_lit(out, ", ");
        }
        push_name(out, &ps[i].name);
        push_lit(out, ": ");
        emit_ty(out, ts, ps[i].ty);
        i = i + 1;
        proof {
            assert(out@ =~= old(out)@ + params_text(ts@, ps@, i as nat));
        }
    }
}

/// The lowering statement for one parameter: either a flattening into that
/// many core values, or a write into linear memory yielding pointer and
/// length.
pub open spec fn lower_stmt_text(ts: Seq<TypeDef>, p: Param, a: AbiSpecLike) -> Seq<u8> {
    match a {
        AbiSpecLike::Flat(n) => lit("    let lowered_") + p.name@ + lit(" = lower_flat::<")
            + dec_digits(n) + lit(">(") + p.name@ + lit(");\n"),
        AbiSpecLike::Indirect => lit("    let (ptr_") + p.name@ + lit(", len_") + p.name@ + lit(
            ") = lower_into_memory(&mut memory, ",
        ) + p.name@ + lit(");\n"),
    }
}

/// The shape of one classified type as the emitter needs it: the flattened
/// core value count, or indirect.
pub enum AbiSpecLike {
    Flat(nat),
    Indirect,
}

/// The emitter's view of one `AbiType`.
pub open spec fn abi_shape(a: AbiType) -> AbiSpecLike {
    match a.flat {
        Some(ks) => AbiSpecLike::Flat(ks@.len()),
        None => AbiSpecLike::Indirect,
    }
}

/// Writes the lowering statement for one parameter.
pub fn emit_lower_stmt(out: &mut Vec<u8>, ts: &Vec<TypeDef>, p: &Param, a: &AbiType)
    ensures
        final(out)@ == old(out)@ + lower_stmt_text(ts@, *p, abi_shape(*a)),
{
    match &a.flat {
        Some(ks) => {
            push_lit(out, "    let lowered_");
            push_name(out, &p.name);
            push_lit(out, " = lower_flat::<");
            push_dec(out, ks.len());
            push_lit(out, ">(");
            push_name(out, &p.name);
            push_lit(out, ");\n");
        },
        None => {
            push_lit(out, "    let (ptr_");
            push_name(out, &p.name);
            push_lit(out, ", len_");
            push_name(out, &p.name);
            push_lit(out, ") = lower_into_memory(&mut memory, ");
            push_name(out, &p.name);
            push_lit(out, ");\n");
        },
    }
}

/// The lifting statement for one result: the inverse of the lowering,
/// validating discriminants while reading.
pub open spec fn lift_stmt_text(ts: Seq<TypeDef>, p: Param, a: AbiSpecLike) -> Seq<u8> {
    match a {
        AbiSpecLike::Flat(n) => lit("    let ") + p.name@ + lit(": ") + ty_text(ts, p.ty) + lit(
            " = lift_flat::<",
        ) + dec_digits(n) + lit(">(raw_") + p.name@ + lit(")?;\n"),
        AbiSpecLike::Indirect => lit("    let ") + p.name@ + lit(": ") + ty_text(ts, p.ty) + lit(
            " = lift_from_memory(&memory, ptr_",
        ) + p.name@ + lit(", len_") + p.name@ + lit(")?;\n"),
    }
}

/// Writes the lifting statement for one result.
pub fn emit_lift_stmt(out: &mut Vec<u8>, ts: &Vec<TypeDef>, p: &Param, a: &AbiType)
    ensures
        final(out)@ == old(out)@ + lift_stmt_text(ts@, *p, abi_shape(*a)),
{
    push_lit(out, "    let ");
    push_name(out, &p.name);
    push_lit(out, ": ");
    emit_ty(out, ts, p.ty);
    match &a.flat {
        Some(ks) => {
            push_lit(out, " = lift_flat::<");
            push_dec(out, ks.len());
            push_lit(out, ">(raw_");
            push_name(out, &p.name);
            push_lit(out, ")?;\n");
        },
        None => {
            push_lit(out, " = lift_from_memory(&memory, ptr_");
            push_name(out, &p.name);
            push_lit(out, ", len_");
            push_name(out, &p.name);
            push_lit(out, ")?;\n");
        },
    }
}

/// The cleanup statement for one indirect buffer: a region lowered into
/// linear memory to hand a value to the other side is owned by the
/// receiving side once the call completes, so the side that lifted the
/// value — and only that side — frees it.
pub open spec fn cleanup_stmt_text(p: Param, a: AbiSpecLike) -> Seq<u8> {
    match a {
        AbiSpecLike::Flat(n) => Seq::empty(),
        AbiSpecLike::Indirect => lit("    free_transient(&mut memory, ptr_") + p.name@ + lit(
            ", len_",
        ) + p.name@ + lit(");\n"),
    }
}

/// Writes the cleanup statement for one lifted value.
pub fn emit_cleanup_stmt(out: &mut Vec<u8>, p: &Param, a: &AbiType)
    ensures
        final(out)@ == old(out)@ + cleanup_stmt_text(*p, abi_shape(*a)),
{
    match &a.flat {
        Some(_) => {},
        None => {
            push_lit(out, "    free_transient(&mut memory, ptr_");
            push_name(out, &p.name);
            push_lit(out, ", len_");
            push_name(out, &p.name);
            push_lit(out, ");\n");
        },
    }
}

/// The release statement for one handle: lowering an owned handle moves
/// the resource across the boundary, so the sending side retires its own
/// table entry after the call; a borrowed handle stays with its owner and
/// gets no cleanup.
pub open spec fn release_stmt_text(p: Param, owned: bool) -> Seq<u8> {
    if owned {
        lit("    release_handle(&mut handles, ") + p.name@ + lit(");\n")
    } else {
        Seq::empty()
    }
}

/// Writes the release statement for one lowered handle.
pub fn emit_release_stmt(out: &mut Vec<u8>, p: &Param, owned: bool)
    ensures
        final(out)@ == old(out)@ + release_stmt_text(*p, owned),
{
    if owned {
        push_lit(out, "    release_handle(&mut handles, ");
        push_name(out, &p.name);
        push_lit(out, ");\n");
    }
}

} // verus!
