use rgo::compiler::ast;
use rgo::compiler::error::Code;
use rgo::compiler::format_hir::format_sig_kind;
use rgo::compiler::hir::{
    canonicalize_kind, ensure_sig_kind_exists, first_unassigned_param, has_generic_kind, kind_matches,
    maybe_capture_name, register_generic_placeholders, required_exec_arg_count, term_sig_kind,
    validate_input_type,
};
use rgo::compiler::hir_ast::{SigIdent, SigItem, SigKind, Signature};
use rgo::compiler::hir_context::Context;
use rgo::compiler::span::Span;

fn item(name: &str, kind: SigKind) -> SigItem {
    SigItem { name: name.to_string(), kind, has_bang: false }
}

fn ident(name: &str) -> SigKind {
    SigKind::Ident(SigIdent { name: name.to_string() })
}

fn list_of(kind: SigKind) -> SigKind {
    SigKind::GenericInst { name: "list".to_string(), args: vec![kind] }
}

fn str_term(value: &str) -> ast::Term {
    ast::Term::String(ast::StrLiteral { value: value.to_string(), span: Span::unknown() })
}

fn int_term(value: i64) -> ast::Term {
    ast::Term::Int(ast::IntLiteral { value, span: Span::unknown() })
}

fn ident_term(name: &str) -> ast::Term {
    ast::Term::Ident(ast::Ident { name: name.to_string(), args: vec![], span: Span::unknown() })
}

#[test]
fn generic_parameter_binds_on_first_match() {
    let gens: Vec<String> = vec![];
    let mut bindings: Vec<(String, SigKind)> = vec![];
    assert!(kind_matches(&SigKind::Int, &SigKind::Generic("T".to_string()), false, &gens, &mut bindings));
    assert_eq!(bindings, vec![("T".to_string(), SigKind::Int)]);
    assert!(!kind_matches(&SigKind::Str, &SigKind::Generic("T".to_string()), false, &gens, &mut bindings));
    assert!(kind_matches(&SigKind::Int, &SigKind::Generic("T".to_string()), false, &gens, &mut bindings));
    assert_eq!(bindings.len(), 1);
}

#[test]
fn compile_time_int_binds_generic_as_int() {
    let gens: Vec<String> = vec![];
    let mut bindings: Vec<(String, SigKind)> = vec![];
    assert!(kind_matches(&SigKind::CompileTimeInt, &SigKind::Generic("T".to_string()), true, &gens, &mut bindings));
    assert_eq!(bindings, vec![("T".to_string(), SigKind::Int)]);
}

#[test]
fn compile_time_int_fits_f64_and_int() {
    let gens: Vec<String> = vec![];
    let mut bindings: Vec<(String, SigKind)> = vec![];
    assert!(kind_matches(&SigKind::CompileTimeInt, &SigKind::F64, true, &gens, &mut bindings));
    assert!(kind_matches(&SigKind::CompileTimeInt, &SigKind::Int, true, &gens, &mut bindings));
    assert!(!kind_matches(&SigKind::Int, &SigKind::CompileTimeInt, false, &gens, &mut bindings));
    assert!(!kind_matches(&SigKind::Str, &SigKind::Int, false, &gens, &mut bindings));
    assert!(bindings.is_empty());
}

#[test]
fn tuple_kinds_match_item_by_item() {
    let gens: Vec<String> = vec!["T".to_string()];
    let mut bindings: Vec<(String, SigKind)> = vec![];
    let expected = SigKind::tuple(vec![ident("T"), ident("T")]);
    let same = SigKind::tuple(vec![SigKind::Int, SigKind::Int]);
    let mixed = SigKind::tuple(vec![SigKind::Int, SigKind::Str]);
    assert!(!kind_matches(&mixed, &expected, false, &gens, &mut bindings));
    bindings.clear();
    assert!(kind_matches(&same, &expected, false, &gens, &mut bindings));
    assert_eq!(bindings, vec![("T".to_string(), SigKind::Int)]);
    let shorter = SigKind::tuple(vec![SigKind::Int]);
    assert!(!kind_matches(&shorter, &expected, false, &gens, &mut vec![]));
}

#[test]
fn generic_instances_match_by_name_and_args() {
    let gens: Vec<String> = vec![];
    let mut bindings: Vec<(String, SigKind)> = vec![];
    assert!(kind_matches(&list_of(SigKind::Str), &list_of(SigKind::Generic("T".to_string())), false, &gens, &mut bindings));
    assert_eq!(bindings, vec![("T".to_string(), SigKind::Str)]);
    let other = SigKind::GenericInst { name: "set".to_string(), args: vec![SigKind::Str] };
    assert!(!kind_matches(&other, &list_of(SigKind::Str), false, &gens, &mut vec![]));
}

#[test]
fn canonical_kinds_drop_compile_time_marks() {
    let kind = SigKind::tuple(vec![SigKind::CompileTimeInt, list_of(SigKind::CompileTimeStr), SigKind::Byte]);
    let expected = SigKind::tuple(vec![SigKind::Int, list_of(SigKind::Str), SigKind::Byte]);
    assert_eq!(canonicalize_kind(&kind), expected);
    assert_eq!(canonicalize_kind(&SigKind::CompileTimeStr), SigKind::Str);
}

#[test]
fn generic_kinds_are_found_at_depth() {
    let gens: Vec<String> = vec!["T".to_string()];
    assert!(has_generic_kind(&SigKind::Generic("U".to_string()), &gens));
    assert!(has_generic_kind(&SigKind::tuple(vec![SigKind::Int, list_of(ident("T"))]), &gens));
    assert!(!has_generic_kind(&SigKind::tuple(vec![SigKind::Int, list_of(ident("U"))]), &gens));
}

#[test]
fn undefined_type_names_are_reported() {
    let mut ctx = Context::new();
    let gens: Vec<String> = vec!["T".to_string()];
    let kind = SigKind::tuple(vec![ident("T"), ident("Pair")]);
    let err = ensure_sig_kind_exists(&ctx, &kind, &gens).unwrap_err();
    assert_eq!(err.code, Code::HIR);
    assert_eq!(err.message, "type `Pair` is not defined");
    ctx.add_type("Pair", "Pair", SigKind::tuple(vec![SigKind::Int, SigKind::Int]), Span::unknown(), false).unwrap();
    assert!(ensure_sig_kind_exists(&ctx, &kind, &gens).is_ok());
    let err = ensure_sig_kind_exists(&ctx, &list_of(SigKind::Int), &gens).unwrap_err();
    assert_eq!(err.message, "type `list` is not defined");
}

#[test]
fn variadic_parameter_is_not_required() {
    let sig = Signature {
        items: vec![item("fmt", SigKind::CompileTimeStr), item("args", SigKind::Variadic), item("ok", SigKind::tuple(vec![]))],
        generics: vec![],
    };
    assert_eq!(required_exec_arg_count(&sig, 2), 4);
    let plain = Signature { items: vec![item("a", SigKind::Int)], generics: vec![] };
    assert_eq!(required_exec_arg_count(&plain, 0), 1);
}

#[test]
fn first_gap_among_assigned_params() {
    assert_eq!(first_unassigned_param(3, &vec![0, 2]), Some(1));
    assert_eq!(first_unassigned_param(2, &vec![1, 0]), None);
    assert_eq!(first_unassigned_param(0, &vec![]), None);
    assert_eq!(first_unassigned_param(2, &vec![]), Some(0));
}

#[test]
fn kinds_are_written_as_source() {
    let kind = SigKind::tuple(vec![SigKind::Int, SigKind::CompileTimeStr, list_of(SigKind::Int), SigKind::tuple(vec![])]);
    assert_eq!(format_sig_kind(&kind), "(int, str!, list<int>, ())");
    assert_eq!(format_sig_kind(&SigKind::Variadic), "...");
    assert_eq!(format_sig_kind(&SigKind::Generic("T".to_string())), "T");
}

#[test]
fn literal_terms_have_compile_time_kinds() {
    let mut ctx = Context::new();
    assert_eq!(term_sig_kind(&mut ctx, &int_term(3), false), Some(SigKind::CompileTimeInt));
    assert_eq!(term_sig_kind(&mut ctx, &str_term("a"), false), Some(SigKind::CompileTimeStr));
    ctx.add_literal("x", SigKind::Int, Span::unknown()).unwrap();
    assert_eq!(term_sig_kind(&mut ctx, &ident_term("x"), false), None);
    assert_eq!(term_sig_kind(&mut ctx, &ident_term("x"), true), Some(SigKind::Int));
    assert_eq!(term_sig_kind(&mut ctx, &ident_term("y"), true), None);
}

#[test]
fn input_kinds_are_checked_against_params() {
    let mut ctx = Context::new();
    let gens: Vec<String> = vec![];
    let mut bindings: Vec<(String, SigKind)> = vec![];
    let int_param = item("n", SigKind::Int);
    let err = validate_input_type(&mut ctx, &str_term("a"), Some(&int_param), &gens, &mut bindings).unwrap_err();
    assert_eq!(err.code, Code::HIR);
    assert_eq!(err.message, "expected int, found str!");
    assert!(validate_input_type(&mut ctx, &int_term(4), Some(&int_param), &gens, &mut bindings).is_ok());
    let str_param = item("s", SigKind::Str);
    assert!(validate_input_type(&mut ctx, &str_term("a"), Some(&str_param), &gens, &mut bindings).is_ok());
    assert!(validate_input_type(&mut ctx, &str_term("a"), None, &gens, &mut bindings).is_ok());
    let variadic = item("args", SigKind::Variadic);
    assert!(validate_input_type(&mut ctx, &int_term(1), Some(&variadic), &gens, &mut bindings).is_ok());
    let missing = item("p", ident("Pair"));
    let err = validate_input_type(&mut ctx, &int_term(1), Some(&missing), &gens, &mut bindings).unwrap_err();
    assert_eq!(err.message, "type `Pair` is not defined");
}

#[test]
fn unbound_names_cannot_be_captured() {
    let mut ctx = Context::new().enter("f", None, false);
    let err = maybe_capture_name(&mut ctx, "zzz").unwrap_err();
    assert_eq!(err.code, Code::HIR);
    assert_eq!(err.message, "`zzz` is not defined");
}

#[test]
fn outer_function_bindings_become_captures() {
    let mut outer = Context::new().enter("f", None, false);
    outer.add_literal("x", SigKind::Int, Span::unknown()).unwrap();
    let mut inner = outer.enter("g", None, false);
    maybe_capture_name(&mut inner, "x").unwrap();
    let captures = inner.get_captures();
    assert_eq!(captures.len(), 1);
    assert_eq!(captures[0].name, "x");
    assert_eq!(captures[0].kind, SigKind::Int);
    maybe_capture_name(&mut inner, "x").unwrap();
    assert_eq!(inner.get_captures().len(), 1);
}

#[test]
fn repeated_generic_placeholder_is_a_duplicate() {
    let mut ctx = Context::new().enter("f", None, false);
    let generics = vec!["T".to_string(), "U".to_string()];
    register_generic_placeholders(&mut ctx, &generics).unwrap();
    assert!(ctx.get("T").is_some());
    assert!(ctx.get("U").is_some());
    let err = register_generic_placeholders(&mut ctx, &vec!["V".to_string(), "T".to_string()]).unwrap_err();
    assert_eq!(err.code, Code::Resolve);
    assert_eq!(err.message, "duplicate symbol `T` in this scope");
    assert!(ctx.get("V").is_some());
}
