use rgo::compiler::error::Code;
use rgo::compiler::hir_ast::{Closure, SigKind};
use rgo::compiler::hir_context::{register_import, Context};
use rgo::compiler::span::Span;
use std::collections::hash_map::DefaultHasher;
use std::hash::{Hash, Hasher};

#[test]
fn fresh_names_count_up() {
    let mut ctx = Context::new();
    assert_eq!(ctx.new_name_for_literal(), "_0");
    assert_eq!(ctx.new_name_for("x"), "_1_x");
    assert_eq!(ctx.new_name(), "_2_");
    assert_eq!(ctx.new_name_for_fn(Some("main")), "main");
    assert_eq!(ctx.counter, 3);
    let inner = ctx.enter("f", Some("f"), false);
    assert_eq!(inner.ns, "f");
    let mut inner = inner;
    assert_eq!(inner.new_name_for_fn(Some("g")), "_3_f_g");
    assert_eq!(inner.new_name_for_fn(None), "_4_f");
}

#[test]
fn duplicate_symbols_are_rejected() {
    let mut ctx = Context::new();
    ctx.add_literal("x", SigKind::Int, Span::unknown()).unwrap();
    let err = ctx.add_literal("x", SigKind::Str, Span::new(3, 4, 5)).unwrap_err();
    assert_eq!(err.code, Code::Resolve);
    assert_eq!(err.message, "duplicate symbol `x` in this scope");
    let err = ctx.add_param("x", SigKind::Int, Span::unknown(), false).unwrap_err();
    assert_eq!(err.message, "insert param, duplicate symbol `x` in this scope");
}

#[test]
fn inner_bindings_hide_outer_ones() {
    let mut ctx = Context::new();
    ctx.add_literal("x", SigKind::Int, Span::unknown()).unwrap();
    let mut inner = ctx.enter("f", None, false);
    assert_eq!(inner.get("x").unwrap().kind, SigKind::Int);
    inner.add_literal("x", SigKind::Str, Span::unknown()).unwrap();
    assert_eq!(inner.get("x").unwrap().kind, SigKind::Str);
    assert!(inner.get("y").is_none());
    inner.get_mut("x").unwrap().kind = SigKind::F64;
    assert_eq!(inner.get("x").unwrap().kind, SigKind::F64);
}

#[test]
fn params_list_captures_first() {
    let mut ctx = Context::new().enter("f", None, false);
    ctx.add_param("a", SigKind::Int, Span::unknown(), false).unwrap();
    ctx.add_param("c", SigKind::Str, Span::unknown(), true).unwrap();
    ctx.add_param("b", SigKind::Int, Span::unknown(), false).unwrap();
    let names: Vec<String> = ctx.get_params().iter().map(|p| p.name.clone()).collect();
    assert_eq!(names, vec!["c", "a", "b"]);
    let captures: Vec<String> = ctx.get_captures().iter().map(|p| p.name.clone()).collect();
    assert_eq!(captures, vec!["c"]);
}

#[test]
fn scope_ancestry() {
    let root = Context::new();
    let f = root.enter("f", None, false);
    let mut g = f.enter("g", None, false);
    g.add_literal("x", SigKind::Int, Span::unknown()).unwrap();
    let entry_in_g = g.get("x").unwrap().clone();
    let mut f2 = Context::new().enter("f", None, false);
    f2.add_literal("y", SigKind::Int, Span::unknown()).unwrap();
    let entry_in_f = f2.get("y").unwrap().clone();
    assert!(g.is_scope_ancestor(&entry_in_f));
    assert!(!g.is_scope_ancestor(&entry_in_g));
    assert!(f.is_scope_ancestor(&entry_in_g));
}

#[test]
fn closures_are_flattened() {
    let mut ctx = Context::new();
    ctx.register_closure(Closure { name: "c1".to_string(), of: "f".to_string(), args: vec!["a".to_string()] });
    ctx.register_closure(Closure { name: "c2".to_string(), of: "c1".to_string(), args: vec!["b".to_string()] });
    let c2 = &ctx.closure_defs[1];
    assert_eq!(c2.of, "f");
    assert_eq!(c2.args, vec!["a".to_string(), "b".to_string()]);
    ctx.register_closure(Closure { name: "c3".to_string(), of: "g".to_string(), args: vec![] });
    assert_eq!(ctx.emitted_closures, vec!["c3".to_string()]);
}

#[test]
fn cyclic_closures_terminate() {
    let mut ctx = Context::new();
    ctx.register_closure(Closure { name: "a".to_string(), of: "b".to_string(), args: vec!["x".to_string()] });
    ctx.register_closure(Closure { name: "b".to_string(), of: "a".to_string(), args: vec!["y".to_string()] });
    let b = &ctx.closure_defs[1];
    assert_eq!(b.of, "b");
    assert_eq!(b.args, vec!["x".to_string(), "y".to_string()]);
}

#[test]
fn imports_bind_builtins() {
    let mut ctx = Context::new();
    register_import(&mut ctx, "/std/printf", Span::unknown()).unwrap();
    register_import(&mut ctx, "/int", Span::unknown()).unwrap();
    let printf = ctx.get("printf").unwrap();
    assert!(printf.is_builtin);
    assert!(matches!(printf.kind, SigKind::Sig(_)));
    assert_eq!(ctx.get("int").unwrap().kind, SigKind::Int);
    let err = register_import(&mut ctx, "/nope", Span::unknown()).unwrap_err();
    assert_eq!(err.code, Code::Internal);
    assert_eq!(err.message, "unknown import '@/nope'");
}

#[test]
fn sibling_scopes_take_distinct_fresh_names() {
    let mut root = Context::new();
    let mut first = root.enter("a", None, false);
    let a = first.new_name();
    root.leave(&first);
    let mut second = root.enter("b", None, false);
    let b = second.new_name();
    assert_eq!(a, "_0_lambda");
    assert_eq!(b, "_1_lambda");
    assert_ne!(a, b);
    root.leave(&second);
    assert_eq!(root.counter, 2);
}

#[test]
fn spans_hash_alike() {
    let mut a = DefaultHasher::new();
    Span::new(1, 2, 3).hash(&mut a);
    let mut b = DefaultHasher::new();
    Span::new(7, 8, 9).hash(&mut b);
    assert_eq!(a.finish(), b.finish());
}

#[test]
fn a_duplicate_import_leaves_the_context_unchanged() {
    let mut ctx = Context::new();
    register_import(&mut ctx, "/str", Span::unknown()).expect("a builtin type");
    let before = ctx.inner.len();
    let err = register_import(&mut ctx, "/str", Span::unknown()).expect_err("bound already");
    assert_eq!(err.code, Code::Resolve);
    assert_eq!(ctx.inner.len(), before);
}
