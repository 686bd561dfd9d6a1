use rgo::compiler::air_ast::FunctionSig;
use rgo::compiler::builtins::Builtin;
use rgo::compiler::error::Code;
use rgo::compiler::hir_ast::SigKind;
use rgo::compiler::span::Span;
use rgo::compiler::symbol::{builtin_function_sig, register_builtin_import, SymbolRegistry};

#[test]
fn registry_lookups_see_the_latest_binding() {
    let mut symbols = SymbolRegistry::new();
    symbols.install_type("t".to_string(), SigKind::Int).unwrap();
    symbols.install_type("t".to_string(), SigKind::Str).unwrap();
    assert_eq!(symbols.get_type_info("t"), Some(&SigKind::Str));
    assert!(symbols.get_type_info("u").is_none());
    assert!(symbols.get_value("t").is_none());
    let sig = FunctionSig { name: "f".to_string(), params: vec![], generics: vec![], builtin: None };
    symbols.declare_function(sig).unwrap();
    assert_eq!(symbols.get_function("f").unwrap().name, "f");
    assert!(symbols.get_function("g").is_none());
}

#[test]
fn builtin_imports_record_aliases_and_types() {
    let mut symbols = SymbolRegistry::new();
    register_builtin_import("print", "/std/printf", Span::unknown(), &mut symbols).unwrap();
    register_builtin_import("number", "/int", Span::unknown(), &mut symbols).unwrap();
    assert_eq!(symbols.builtin_name_for_alias("print").map(|s| s.as_str()), Some("printf"));
    assert_eq!(symbols.get_type_info("number"), Some(&SigKind::Int));
    assert!(symbols.get_type_info("print").is_none());
    let err = register_builtin_import("x", "/nope", Span::unknown(), &mut symbols).unwrap_err();
    assert_eq!(err.code, Code::Internal);
    assert_eq!(err.message, "unknown import '@/nope'");
    assert_eq!(symbols.builtin_name_for_alias("x").map(|s| s.as_str()), Some("nope"));
}

#[test]
fn builtin_function_signatures() {
    let sig = builtin_function_sig("add", Span::unknown()).unwrap();
    assert_eq!(sig.name, "add");
    assert_eq!(sig.builtin, Some(Builtin::Add));
    assert_eq!(sig.params.len(), 3);
    assert_eq!(sig.param_kinds()[0], SigKind::Int);
    assert!(!sig.is_variadic());
    assert!(builtin_function_sig("printf", Span::unknown()).unwrap().is_variadic());
    let err = builtin_function_sig("int", Span::unknown()).unwrap_err();
    assert_eq!(err.message, "'int' is not a callable builtin");
    let err = builtin_function_sig("zzz", Span::unknown()).unwrap_err();
    assert_eq!(err.message, "unknown import '@zzz'");
}
