use wit_bindgen_wasm3::abi::{classify_ty, AbiErr, CoreKind, FLAT_MAX};
use wit_bindgen_wasm3::model::{Case, Field, Type, TypeDef, TypeDefKind};
use wit_bindgen_wasm3::wire::{lift_flat, lower_flat, CoreVal, Val};

fn name(s: &str) -> Vec<u8> {
    s.as_bytes().to_vec()
}

fn record_of(n: usize) -> Vec<TypeDef> {
    let fields: Vec<Field> = (0..n)
        .map(|k| Field { name: name(&format!("f{}", k)), ty: Type::U32 })
        .collect();
    vec![TypeDef { name: name("r"), kind: TypeDefKind::Record(fields) }]
}

fn fuel(ts: &Vec<TypeDef>) -> usize {
    ts.len() + 1
}

#[test]
fn primitives_classify_to_single_core_values() {
    let ts: Vec<TypeDef> = vec![];
    let a = classify_ty(&ts, Type::U8, 1).unwrap();
    assert_eq!(a.size, 1);
    assert_eq!(a.align, 1);
    assert_eq!(a.flat.unwrap(), vec![CoreKind::I32]);
    let a = classify_ty(&ts, Type::U64, 1).unwrap();
    assert_eq!(a.size, 8);
    assert_eq!(a.align, 8);
    assert_eq!(a.flat.unwrap(), vec![CoreKind::I64]);
    let a = classify_ty(&ts, Type::F32, 1).unwrap();
    assert_eq!(a.flat.unwrap(), vec![CoreKind::F32]);
    let a = classify_ty(&ts, Type::Str, 1).unwrap();
    assert_eq!(a.size, 8);
    assert_eq!(a.align, 4);
    assert!(a.flat.is_none());
}

#[test]
fn record_below_threshold_flattens_to_one_value_per_field() {
    let ts = record_of(FLAT_MAX);
    let a = classify_ty(&ts, Type::Id(0), fuel(&ts)).unwrap();
    let flat = a.flat.expect("a small record must flatten");
    assert_eq!(flat.len(), FLAT_MAX);
    assert_eq!(a.size, 4 * FLAT_MAX as u32);
}

#[test]
fn record_above_threshold_goes_indirect() {
    let ts = record_of(FLAT_MAX + 1);
    let a = classify_ty(&ts, Type::Id(0), fuel(&ts)).unwrap();
    assert!(a.flat.is_none(), "one field past the threshold forces memory");
    assert_eq!(a.size, 4 * (FLAT_MAX as u32 + 1));
}

#[test]
fn record_layout_respects_field_alignment() {
    let ts = vec![TypeDef {
        name: name("mixed"),
        kind: TypeDefKind::Record(vec![
            Field { name: name("small"), ty: Type::U8 },
            Field { name: name("wide"), ty: Type::U64 },
        ]),
    }];
    let a = classify_ty(&ts, Type::Id(0), fuel(&ts)).unwrap();
    assert_eq!(a.align, 8);
    assert_eq!(a.size, 16);
}

#[test]
fn cycle_is_detected_not_recursed() {
    let ts = vec![TypeDef {
        name: name("looped"),
        kind: TypeDefKind::Record(vec![Field { name: name("again"), ty: Type::Id(0) }]),
    }];
    assert_eq!(classify_ty(&ts, Type::Id(0), fuel(&ts)).unwrap_err(), AbiErr::Malformed);
}

#[test]
fn wide_flags_are_unrepresentable() {
    let wide: Vec<Vec<u8>> = (0..65).map(|k| name(&format!("f{}", k))).collect();
    let ts = vec![TypeDef { name: name("wide"), kind: TypeDefKind::Flags(wide) }];
    assert_eq!(classify_ty(&ts, Type::Id(0), fuel(&ts)).unwrap_err(), AbiErr::TooWide);
    let narrow: Vec<Vec<u8>> = (0..9).map(|k| name(&format!("f{}", k))).collect();
    let ts = vec![TypeDef { name: name("narrow"), kind: TypeDefKind::Flags(narrow) }];
    let a = classify_ty(&ts, Type::Id(0), fuel(&ts)).unwrap();
    assert_eq!((a.size, a.align), (2, 2));
}

#[test]
fn scalars_round_trip_through_core_values() {
    let ts: Vec<TypeDef> = vec![];
    let cases = vec![
        (Type::Bool, Val::Bool(true)),
        (Type::U8, Val::U8(200)),
        (Type::S8, Val::S8(-5)),
        (Type::U16, Val::U16(40_000)),
        (Type::S16, Val::S16(-20_000)),
        (Type::U32, Val::U32(4_000_000_000)),
        (Type::S32, Val::S32(-2_000_000)),
        (Type::U64, Val::U64(u64::MAX)),
        (Type::S64, Val::S64(i64::MIN)),
        (Type::Char, Val::Char(0x1F600)),
    ];
    for (t, v) in cases {
        let s = lower_flat(&ts, &v, t, 1).expect("scalar must lower");
        let w = lift_flat(&ts, t, &s, 1).expect("lowered scalar must lift");
        let s2 = lower_flat(&ts, &w, t, 1).unwrap();
        assert_eq!(s, s2, "round trip must reproduce the same core values");
    }
}

#[test]
fn record_of_scalars_round_trips() {
    let ts = vec![TypeDef {
        name: name("pair"),
        kind: TypeDefKind::Record(vec![
            Field { name: name("a"), ty: Type::U32 },
            Field { name: name("b"), ty: Type::U64 },
        ]),
    }];
    let v = Val::Record(vec![Val::U32(7), Val::U64(1 << 40)]);
    let s = lower_flat(&ts, &v, Type::Id(0), fuel(&ts)).unwrap();
    assert_eq!(s, vec![CoreVal::I32(7), CoreVal::I64(1 << 40)]);
    let w = lift_flat(&ts, Type::Id(0), &s, fuel(&ts)).unwrap();
    match w {
        Val::Record(xs) => {
            assert!(matches!(xs[0], Val::U32(7)));
            assert!(matches!(xs[1], Val::U64(x) if x == 1 << 40));
        }
        _ => panic!("expected a record back"),
    }
}

fn small_variant() -> Vec<TypeDef> {
    vec![TypeDef {
        name: name("msg"),
        kind: TypeDefKind::Variant(vec![
            Case { name: name("a"), payload: None },
            Case { name: name("b"), payload: Some(Type::S32) },
        ]),
    }]
}

#[test]
fn variant_cases_round_trip_exactly() {
    let ts = small_variant();
    let t = Type::Id(0);
    let va = Val::Variant(0, None);
    let s = lower_flat(&ts, &va, t, fuel(&ts)).unwrap();
    assert_eq!(s[0], CoreVal::I32(0));
    match lift_flat(&ts, t, &s, fuel(&ts)).unwrap() {
        Val::Variant(0, None) => {}
        _ => panic!("case a must come back as itself"),
    }
    let vb = Val::Variant(1, Some(Box::new(Val::S32(-9))));
    let s = lower_flat(&ts, &vb, t, fuel(&ts)).unwrap();
    assert_eq!(s[0], CoreVal::I32(1));
    match lift_flat(&ts, t, &s, fuel(&ts)).unwrap() {
        Val::Variant(1, Some(p)) => assert!(matches!(*p, Val::S32(-9))),
        _ => panic!("case b must come back with its payload"),
    }
}

#[test]
fn out_of_range_discriminant_is_rejected() {
    let ts = small_variant();
    let t = Type::Id(0);
    let good = lower_flat(&ts, &Val::Variant(1, Some(Box::new(Val::S32(3)))), t, fuel(&ts))
        .unwrap();
    let mut bad = good.clone();
    bad[0] = CoreVal::I32(2);
    assert!(lift_flat(&ts, t, &bad, fuel(&ts)).is_none(), "a bad discriminant is a protocol error");
    assert!(lift_flat(&ts, t, &good, fuel(&ts)).is_some());
}

#[test]
fn flags_round_trip_and_reject_stray_bits() {
    let ts = vec![TypeDef {
        name: name("perm"),
        kind: TypeDefKind::Flags(vec![name("r"), name("w"), name("x")]),
    }];
    let t = Type::Id(0);
    let v = Val::Flags(0b101);
    let s = lower_flat(&ts, &v, t, fuel(&ts)).unwrap();
    assert_eq!(s, vec![CoreVal::I32(0b101)]);
    assert!(matches!(lift_flat(&ts, t, &s, fuel(&ts)).unwrap(), Val::Flags(0b101)));
    assert!(lower_flat(&ts, &Val::Flags(0b1000), t, fuel(&ts)).is_none());
    assert!(lift_flat(&ts, t, &vec![CoreVal::I32(0b1000)], fuel(&ts)).is_none());
}

#[test]
fn mistyped_values_do_not_lower() {
    let ts: Vec<TypeDef> = vec![];
    assert!(lower_flat(&ts, &Val::U8(1), Type::U16, 1).is_none());
    assert!(lower_flat(&ts, &Val::Char(0xD800), Type::Char, 1).is_none());
    assert!(lower_flat(&ts, &Val::Text(b"hi".to_vec()), Type::Str, 1).is_none());
}

#[test]
fn wrong_kind_core_values_do_not_lift() {
    let ts: Vec<TypeDef> = vec![];
    assert!(lift_flat(&ts, Type::U32, &vec![CoreVal::I64(1)], 1).is_none());
    assert!(lift_flat(&ts, Type::U8, &vec![CoreVal::I32(300)], 1).is_none());
    assert!(lift_flat(&ts, Type::Bool, &vec![CoreVal::I32(2)], 1).is_none());
}
