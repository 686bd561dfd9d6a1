use rgo::compiler::ast;
use rgo::compiler::hir_ast::{SigIdent, SigItem, SigKind, Signature};
use rgo::compiler::hir_context::Context;
use rgo::compiler::signature::{
    ast_signature_to_hir, expected_params_for_args, hir_signature_to_ast, normalize_sig_kind,
    normalize_signature, resolve_signature, resolve_target_signature, signature_from_kind,
};
use rgo::compiler::span::Span;

fn item(name: &str, kind: SigKind) -> SigItem {
    SigItem { name: name.to_string(), kind, has_bang: false }
}

fn ident(name: &str) -> SigKind {
    SigKind::Ident(SigIdent { name: name.to_string() })
}

#[test]
fn lowering_sorts_and_dedups_generics() {
    let sig = ast::Signature {
        items: vec![ast::SigItem { name: "x".to_string(), ty: ast::SigKind::Generic("T".to_string()), has_bang: false, span: Span::unknown() }],
        span: Span::unknown(),
        generics: vec!["U".to_string(), "T".to_string(), "U".to_string()],
    };
    let hir = ast_signature_to_hir(sig);
    assert_eq!(hir.generics, vec!["T".to_string(), "U".to_string()]);
    assert_eq!(hir.items[0].name, "x");
    assert_eq!(hir.items[0].kind, SigKind::Generic("T".to_string()));
}

#[test]
fn hir_to_ast_and_back_is_identity() {
    let sig = Signature {
        items: vec![item("a", SigKind::Int), item("ok", SigKind::tuple(vec![SigKind::Str]))],
        generics: vec!["A".to_string(), "B".to_string()],
    };
    let back = ast_signature_to_hir(hir_signature_to_ast(sig.clone()));
    assert_eq!(back, sig);
    assert_eq!(back.generics, sig.generics);
    assert_eq!(back.names(), sig.names());
}

#[test]
fn expected_params_without_variadic() {
    let params = vec![item("a", SigKind::Int), item("b", SigKind::Str)];
    let expected = expected_params_for_args(&params, 3);
    assert_eq!(expected.len(), 3);
    assert_eq!(expected[0].unwrap().name, "a");
    assert_eq!(expected[1].unwrap().name, "b");
    assert!(expected[2].is_none());
}

#[test]
fn expected_params_with_variadic() {
    let params = vec![item("fmt", SigKind::CompileTimeStr), item("args", SigKind::Variadic), item("ok", SigKind::Int)];
    let expected: Vec<String> = expected_params_for_args(&params, 5)
        .iter()
        .map(|p| p.unwrap().name.clone())
        .collect();
    assert_eq!(expected, vec!["fmt", "args", "args", "args", "ok"]);
    let two: Vec<String> = expected_params_for_args(&params, 2).iter().map(|p| p.unwrap().name.clone()).collect();
    assert_eq!(two, vec!["fmt", "ok"]);
    assert!(expected_params_for_args(&params, 0).is_empty());
}

#[test]
fn normalize_follows_type_names() {
    let mut ctx = Context::new();
    ctx.add_type("num", "num", SigKind::Int, Span::unknown(), false).unwrap();
    ctx.add_type("alias", "alias", ident("num"), Span::unknown(), false).unwrap();
    assert_eq!(normalize_sig_kind(&ident("alias"), &ctx), SigKind::Int);
    assert_eq!(normalize_sig_kind(&ident("unbound"), &ctx), ident("unbound"));
    let sig = Signature { items: vec![item("x", ident("alias"))], generics: vec![] };
    let n = normalize_signature(&sig, &ctx);
    assert_eq!(n.items[0].kind, SigKind::Int);
}

#[test]
fn normalize_stops_on_cycles() {
    let mut ctx = Context::new();
    ctx.add_type("a", "a", ident("b"), Span::unknown(), false).unwrap();
    ctx.add_type("b", "b", ident("a"), Span::unknown(), false).unwrap();
    assert_eq!(normalize_sig_kind(&ident("a"), &ctx), ident("a"));
}

#[test]
fn target_signatures_follow_names() {
    let mut ctx = Context::new();
    let sig = Signature { items: vec![item("x", SigKind::Int)], generics: vec![] };
    ctx.add_sig("f", "f", sig.clone(), Span::unknown(), false).unwrap();
    ctx.add_type("g", "g", ident("f"), Span::unknown(), false).unwrap();
    ctx.add_type("loop", "loop", ident("loop"), Span::unknown(), false).unwrap();
    assert_eq!(resolve_target_signature("g", &ctx), Some(sig.clone()));
    assert_eq!(resolve_target_signature("loop", &ctx), None);
    assert_eq!(resolve_target_signature("missing", &ctx), None);
    let mut visited = vec!["f".to_string()];
    assert_eq!(signature_from_kind(&ident("f"), &ctx, &mut visited), None);
    assert_eq!(visited, vec!["f".to_string()]);
}

#[test]
fn resolve_names_unnamed_parameters_and_marks_compile_time() {
    let mut ctx = Context::new();
    ctx.ns = "main".to_string();
    let sig = Signature {
        items: vec![
            SigItem { name: String::new(), kind: SigKind::Int, has_bang: false },
            SigItem { name: "s".to_string(), kind: SigKind::Str, has_bang: true },
            SigItem { name: String::new(), kind: SigKind::Str, has_bang: false },
        ],
        generics: vec![],
    };
    let r = resolve_signature(&sig, &mut ctx);
    assert_eq!(r.items[0].name, "_0_main");
    assert_eq!(r.items[1].name, "s");
    assert_eq!(r.items[1].kind, SigKind::CompileTimeStr);
    assert_eq!(r.items[2].name, "_1_main");
    assert_eq!(ctx.counter, 2);
}

#[test]
fn resolve_instantiates_generic_signatures() {
    let mut ctx = Context::new();
    let list = Signature { items: vec![item("head", SigKind::Generic("T".to_string()))], generics: vec!["T".to_string()] };
    ctx.add_sig("list", "list", list, Span::unknown(), false).unwrap();
    let sig = Signature {
        items: vec![item("xs", SigKind::GenericInst { name: "list".to_string(), args: vec![SigKind::Int] })],
        generics: vec![],
    };
    let r = resolve_signature(&sig, &mut ctx);
    match &r.items[0].kind {
        SigKind::Sig(inner) => {
            assert_eq!(inner.items[0].kind, SigKind::Int);
            assert!(inner.generics.is_empty());
        }
        other => panic!("expected an instance, got {:?}", other),
    }
}
