use wit_bindgen_wasm3::model::{
    Case, Direction, Field, Function, GenError, HandleMode, Interface, Options, Param, Type,
    TypeDef, TypeDefKind,
};
use wit_bindgen_wasm3::generate::{check_interface, generate_all, generate_one};

fn name(s: &str) -> Vec<u8> {
    s.as_bytes().to_vec()
}

fn iface(n: &str, types: Vec<TypeDef>, functions: Vec<Function>) -> Interface {
    Interface { name: name(n), types, functions }
}

fn func(n: &str, params: Vec<Param>, results: Vec<Param>) -> Function {
    Function { name: name(n), params, results }
}

fn param(n: &str, ty: Type) -> Param {
    Param { name: name(n), ty }
}

#[test]
fn empty_interface_is_minimal() {
    let i = iface("empty", vec![], vec![]);
    let b = generate_one(&i, Direction::Import, Options::default()).unwrap();
    assert_eq!(b.entries.len(), 1);
    assert_eq!(b.entries[0].0, name("bindings.rs"));
    let expected =
        b"// Bindings for interface \"empty\", import direction.\nuse wasm_abi_support::*;\n\n"
            .to_vec();
    assert_eq!(b.entries[0].1, expected);
}

#[test]
fn generation_is_deterministic() {
    let i = iface(
        "host",
        vec![TypeDef {
            name: name("pair"),
            kind: TypeDefKind::Record(vec![
                Field { name: name("a"), ty: Type::U32 },
                Field { name: name("b"), ty: Type::U64 },
            ]),
        }],
        vec![
            func("get_pair", vec![], vec![param("r", Type::Id(0))]),
            func("put_pair", vec![param("p", Type::Id(0))], vec![]),
        ],
    );
    let b1 = generate_one(&i, Direction::Import, Options::default()).unwrap();
    let b2 = generate_one(&i, Direction::Import, Options::default()).unwrap();
    assert_eq!(b1.entries[0].1, b2.entries[0].1);
    let e1 = generate_one(&i, Direction::Export, Options::default()).unwrap();
    let e2 = generate_one(&i, Direction::Export, Options::default()).unwrap();
    assert_eq!(e1.entries[0].1, e2.entries[0].1);
    assert_ne!(b1.entries[0].1, e1.entries[0].1);
}

#[test]
fn case_fold_collision_is_reported() {
    let i = iface(
        "clash",
        vec![],
        vec![func("Foo", vec![], vec![]), func("foo", vec![], vec![])],
    );
    match generate_one(&i, Direction::Import, Options::default()) {
        Err(GenError::NameCollision { first, second }) => {
            assert_eq!(first, name("Foo"));
            assert_eq!(second, name("foo"));
        }
        other => panic!("expected a name collision, got {:?}", other.is_ok()),
    }
}

#[test]
fn distinct_names_do_not_collide() {
    let i = iface(
        "fine",
        vec![],
        vec![func("foo", vec![], vec![]), func("bar", vec![], vec![])],
    );
    assert!(generate_one(&i, Direction::Import, Options::default()).is_ok());
}

#[test]
fn import_binding_text_has_expected_shape() {
    let i = iface(
        "m",
        vec![],
        vec![func("ping", vec![param("x", Type::U32)], vec![param("y", Type::U32)])],
    );
    let b = generate_one(&i, Direction::Import, Options::default()).unwrap();
    let text = String::from_utf8(b.entries[0].1.clone()).unwrap();
    assert!(text.contains("pub fn ping(&self, x: u32) -> Result<(u32), Trap> {"));
    assert!(text.contains("let lowered_x = lower_flat::<1>(x);"));
    assert!(text.contains("call_core(&self.instance, \"ping\", &[lowered_x])?;"));
    assert!(text.contains("let y: u32 = lift_flat::<1>(raw_y)?;"));
}

#[test]
fn export_binding_text_has_expected_shape() {
    let i = iface(
        "m",
        vec![],
        vec![func("ping", vec![param("x", Type::Str)], vec![])],
    );
    let b = generate_one(&i, Direction::Export, Options::default()).unwrap();
    let text = String::from_utf8(b.entries[0].1.clone()).unwrap();
    assert!(text.contains("pub fn ping_trampoline(host: &mut Host"));
    assert!(text.contains("let x: String = lift_from_memory(&memory, ptr_x, len_x)?;"));
    assert!(text.contains("host.ping(x)?;"));
    assert!(text.contains("free_transient(&mut memory, ptr_x, len_x);"));
}

#[test]
fn unsupported_flags_width_is_reported() {
    let wide: Vec<Vec<u8>> = (0..65).map(|k| name(&format!("f{}", k))).collect();
    let i = iface(
        "w",
        vec![TypeDef { name: name("wide"), kind: TypeDefKind::Flags(wide) }],
        vec![],
    );
    match generate_one(&i, Direction::Import, Options::default()) {
        Err(GenError::UnsupportedType { ty_name }) => assert_eq!(ty_name, name("wide")),
        _ => panic!("expected an unsupported type error"),
    }
}

#[test]
fn value_cycle_is_reported_as_model_error() {
    let i = iface(
        "c",
        vec![TypeDef {
            name: name("looped"),
            kind: TypeDefKind::Record(vec![Field { name: name("again"), ty: Type::Id(0) }]),
        }],
        vec![],
    );
    match generate_one(&i, Direction::Import, Options::default()) {
        Err(GenError::Model { detail }) => assert_eq!(detail, name("looped")),
        _ => panic!("expected a model error"),
    }
}

#[test]
fn list_cycle_is_reported_as_model_error() {
    let i = iface(
        "c",
        vec![TypeDef { name: name("selflist"), kind: TypeDefKind::List(Type::Id(0)) }],
        vec![],
    );
    assert!(generate_one(&i, Direction::Import, Options::default()).is_err());
}

#[test]
fn generate_all_merges_both_sets() {
    let imp = iface("imp", vec![], vec![func("a", vec![], vec![])]);
    let exp = iface("exp", vec![], vec![func("b", vec![], vec![])]);
    let b = generate_all(&vec![imp.clone()], &vec![exp.clone()], Options::default()).unwrap();
    assert_eq!(b.entries.len(), 1);
    let text = String::from_utf8(b.entries[0].1.clone()).unwrap();
    assert!(text.contains("// Bindings for interface \"imp\", import direction."));
    assert!(text.contains("// Bindings for interface \"exp\", export direction."));
    assert!(text.contains("pub fn a(&self)"));
    assert!(text.contains("pub fn b_trampoline"));
}

#[test]
fn generate_all_detects_cross_interface_collision() {
    let imp = iface("same", vec![], vec![func("Run", vec![], vec![])]);
    let exp = iface("Same", vec![], vec![func("run", vec![], vec![])]);
    match generate_all(&vec![imp], &vec![exp], Options::default()) {
        Err(GenError::NameCollision { first, second }) => {
            assert_eq!(first, name("same::Run"));
            assert_eq!(second, name("Same::run"));
        }
        _ => panic!("expected a collision across interfaces"),
    }
}

#[test]
fn handles_generate_in_both_directions() {
    let i = iface(
        "res",
        vec![TypeDef { name: name("file"), kind: TypeDefKind::Handle(HandleMode::Owned) }],
        vec![func("open_file", vec![], vec![param("h", Type::Id(0))])],
    );
    assert!(generate_one(&i, Direction::Import, Options::default()).is_ok());
    assert!(generate_one(&i, Direction::Export, Options::default()).is_ok());
}

#[test]
fn variant_with_indirect_case_generates() {
    let i = iface(
        "v",
        vec![TypeDef {
            name: name("msg"),
            kind: TypeDefKind::Variant(vec![
                Case { name: name("a"), payload: None },
                Case { name: name("b"), payload: Some(Type::S32) },
                Case { name: name("c"), payload: Some(Type::Str) },
            ]),
        }],
        vec![func("send", vec![param("m", Type::Id(0))], vec![])],
    );
    let b = generate_one(&i, Direction::Import, Options::default()).unwrap();
    let text = String::from_utf8(b.entries[0].1.clone()).unwrap();
    assert!(text.contains("lower_into_memory(&mut memory, m)"));
    assert!(
        !text.contains("free_transient"),
        "the caller hands the argument buffer to the callee, which owns and frees it"
    );
    let e = generate_one(&i, Direction::Export, Options::default()).unwrap();
    let etext = String::from_utf8(e.entries[0].1.clone()).unwrap();
    assert!(etext.contains("free_transient(&mut memory, ptr_m, len_m);"));
}

#[test]
fn each_indirect_buffer_is_freed_exactly_once() {
    let i = iface(
        "buf",
        vec![],
        vec![func("echo", vec![param("a", Type::Str)], vec![param("r", Type::Str)])],
    );
    let imp = generate_one(&i, Direction::Import, Options::default()).unwrap();
    let itext = String::from_utf8(imp.entries[0].1.clone()).unwrap();
    let exp = generate_one(&i, Direction::Export, Options::default()).unwrap();
    let etext = String::from_utf8(exp.entries[0].1.clone()).unwrap();
    // The caller lifts and frees the result buffer; the callee lifts and
    // frees the argument buffer.  Composed, each buffer is freed once.
    assert!(itext.contains("free_transient(&mut memory, ptr_r, len_r);"));
    assert!(!itext.contains("free_transient(&mut memory, ptr_a, len_a);"));
    assert!(etext.contains("free_transient(&mut memory, ptr_a, len_a);"));
    assert!(!etext.contains("free_transient(&mut memory, ptr_r, len_r);"));
}

#[test]
fn ownership_governs_handle_cleanup() {
    let types = vec![
        TypeDef { name: name("own"), kind: TypeDefKind::Handle(HandleMode::Owned) },
        TypeDef { name: name("lend"), kind: TypeDefKind::Handle(HandleMode::Borrowed) },
    ];
    let i = iface(
        "res",
        types,
        vec![func(
            "use_both",
            vec![param("o", Type::Id(0)), param("l", Type::Id(1))],
            vec![param("r", Type::Id(0))],
        )],
    );
    let imp = generate_one(&i, Direction::Import, Options::default()).unwrap();
    let itext = String::from_utf8(imp.entries[0].1.clone()).unwrap();
    // The caller lowered the owned handle: ownership moved, its entry is
    // released; the borrow stays with the caller untouched.
    assert!(itext.contains("release_handle(&mut handles, o);"));
    assert!(!itext.contains("release_handle(&mut handles, l);"));
    assert!(!itext.contains("release_handle(&mut handles, r);"));
    let exp = generate_one(&i, Direction::Export, Options::default()).unwrap();
    let etext = String::from_utf8(exp.entries[0].1.clone()).unwrap();
    // The callee lowered the owned result handle back: it releases that
    // entry, and never the handles it received.
    assert!(etext.contains("release_handle(&mut handles, r);"));
    assert!(!etext.contains("release_handle(&mut handles, o);"));
    assert!(!etext.contains("release_handle(&mut handles, l);"));
}

#[test]
fn threshold_decides_the_call_convention() {
    let small: Vec<Field> =
        (0..4).map(|k| Field { name: name(&format!("f{}", k)), ty: Type::U32 }).collect();
    let big: Vec<Field> =
        (0..17).map(|k| Field { name: name(&format!("f{}", k)), ty: Type::U32 }).collect();
    let i = iface(
        "t",
        vec![
            TypeDef { name: name("small"), kind: TypeDefKind::Record(small) },
            TypeDef { name: name("big"), kind: TypeDefKind::Record(big) },
        ],
        vec![
            func("take_small", vec![param("s", Type::Id(0))], vec![]),
            func("take_big", vec![param("b", Type::Id(1))], vec![]),
        ],
    );
    for dir in [Direction::Import, Direction::Export] {
        let out = generate_one(&i, dir, Options::default()).unwrap();
        let text = String::from_utf8(out.entries[0].1.clone()).unwrap();
        assert!(text.contains("lower_flat::<4>(s)") || text.contains("lift_flat::<4>(raw_s)"));
        assert!(text.contains("lower_into_memory(&mut memory, b)") || text.contains(
            "lift_from_memory(&memory, ptr_b, len_b)"
        ));
    }
}

#[test]
fn model_invariants_are_checkable() {
    let good = iface(
        "ok",
        vec![TypeDef { name: name("t"), kind: TypeDefKind::List(Type::U8) }],
        vec![func("f", vec![param("x", Type::Id(0))], vec![])],
    );
    assert!(check_interface(&good));
    let dangling = iface("bad", vec![], vec![func("f", vec![param("x", Type::Id(3))], vec![])]);
    assert!(!check_interface(&dangling));
    let dup_params = iface(
        "bad",
        vec![],
        vec![func("f", vec![param("x", Type::U8), param("x", Type::U16)], vec![])],
    );
    assert!(!check_interface(&dup_params));
    let dup_fns = iface("bad", vec![], vec![func("f", vec![], vec![]), func("f", vec![], vec![])]);
    assert!(!check_interface(&dup_fns));
}

#[test]
fn named_types_are_defined_in_the_bundle() {
    let i = iface(
        "t",
        vec![
            TypeDef {
                name: name("pair"),
                kind: TypeDefKind::Record(vec![
                    Field { name: name("a"), ty: Type::U32 },
                    Field { name: name("b"), ty: Type::Str },
                ]),
            },
            TypeDef {
                name: name("msg"),
                kind: TypeDefKind::Variant(vec![
                    Case { name: name("none"), payload: None },
                    Case { name: name("some"), payload: Some(Type::Id(0)) },
                ]),
            },
            TypeDef { name: name("perm"), kind: TypeDefKind::Flags(vec![name("r"), name("w")]) },
            TypeDef { name: name("rows"), kind: TypeDefKind::List(Type::Id(0)) },
            TypeDef { name: name("file"), kind: TypeDefKind::Handle(HandleMode::Owned) },
        ],
        vec![func("go", vec![param("m", Type::Id(1))], vec![])],
    );
    let b = generate_one(&i, Direction::Import, Options::default()).unwrap();
    let text = String::from_utf8(b.entries[0].1.clone()).unwrap();
    assert!(text.contains("pub struct pair {\n    pub a: u32,\n    pub b: String,\n}"));
    assert!(text.contains("pub enum msg {\n    none,\n    some(pair),\n}"));
    assert!(text.contains("pub struct perm(pub u64); // bit flags: r, w"));
    assert!(text.contains("pub type rows = Vec<pair>;"));
    assert!(text.contains("pub struct file(pub u32); // owned handle"));
    assert!(text.contains("use wasm_abi_support::*;"));
}

#[test]
fn combined_run_names_the_offending_type() {
    let good = iface("ok", vec![], vec![func("f", vec![], vec![])]);
    let bad = iface(
        "broken",
        vec![TypeDef {
            name: name("looped"),
            kind: TypeDefKind::Record(vec![Field { name: name("again"), ty: Type::Id(0) }]),
        }],
        vec![],
    );
    match generate_all(&vec![good], &vec![bad], Options::default()) {
        Err(GenError::Model { detail }) => assert_eq!(detail, name("looped")),
        _ => panic!("expected the model error to name the cyclic type"),
    }
}
