use rgo::compiler::builtins::{get_spec, Builtin, BuiltinSpec};
use rgo::compiler::hir_ast::SigKind;

#[test]
fn f64_type_registration() {
    match get_spec("f64") {
        Some(BuiltinSpec::Type(kind)) => assert_eq!(kind, SigKind::F64),
        other => panic!("expected builtin f64 type, got {:?}", other),
    }
}

#[test]
fn byte_type_registration() {
    match get_spec("byte") {
        Some(BuiltinSpec::Type(kind)) => assert_eq!(kind, SigKind::Byte),
        other => panic!("expected builtin byte type, got {:?}", other),
    }
}

#[test]
fn f64_math_signature_contains_f64() {
    let builtin = Builtin::from_name("addf64").expect("addf64 builtin should exist");
    let sig = builtin.signature();
    assert_eq!(sig.items.len(), 3);
    assert_eq!(sig.items[0].kind, SigKind::F64);
    assert_eq!(sig.items[1].kind, SigKind::F64);

    let tuple = match &sig.items[2].kind {
        SigKind::Sig(inner) => inner,
        other => panic!("expected tuple for ok, got {:?}", other),
    };
    assert_eq!(tuple.items.len(), 1);
    assert_eq!(tuple.items[0].kind, SigKind::F64);
}

#[test]
fn builtin_variants_exist_for_float_ops() {
    assert!(Builtin::from_name("mulf64").is_some());
    assert!(Builtin::from_name("divf64").is_some());
}

#[test]
fn builtin_names_round_trip() {
    for name in ["add", "sub", "mul", "div", "addf64", "mulf64", "divf64", "eqs", "lt", "gt", "write", "exit", "printf", "sprintf"] {
        let b = Builtin::from_name(name).expect("known builtin");
        assert_eq!(b.name(), name);
    }
    assert_eq!(Builtin::from_name("divint"), Some(Builtin::Div));
    assert_eq!(Builtin::from_name("eq"), Some(Builtin::Eqi));
    assert_eq!(Builtin::from_name("eqi"), Some(Builtin::Eqi));
    assert_eq!(Builtin::from_name("nope"), None);
}

#[test]
fn builtin_categories() {
    assert!(Builtin::Printf.is_call());
    assert!(Builtin::Exit.is_libc_call());
    assert!(Builtin::Eqs.is_conditional());
    assert!(!Builtin::Add.is_conditional());
    assert!(Builtin::Div.is_instruction());
    assert!(!Builtin::Write.is_instruction());
}

#[test]
fn div_signature_has_error_and_ok_continuations() {
    let sig = Builtin::Div.signature();
    let names: Vec<String> = sig.items.iter().map(|i| i.name.clone()).collect();
    assert_eq!(names, vec!["x", "y", "err", "ok"]);
    assert_eq!(sig.items[0].kind, SigKind::Int);
}

#[test]
fn get_spec_of_unknown_name_is_none() {
    assert!(get_spec("nothing").is_none());
    match get_spec("printf") {
        Some(BuiltinSpec::Function(sig)) => {
            assert_eq!(sig.items.len(), 3);
            assert_eq!(sig.items[0].kind, SigKind::CompileTimeStr);
            assert_eq!(sig.items[1].kind, SigKind::Variadic);
        }
        other => panic!("expected a function, got {:?}", other),
    }
}
