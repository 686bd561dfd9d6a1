use rgo::compiler::ast;
use rgo::compiler::call_args::{create_named_arg_wrapper, resolve_call_arguments, CallArg};
use rgo::compiler::error::Code;
use rgo::compiler::hir_ast::{BlockItem, SigItem, SigKind, Signature};
use rgo::compiler::hir_context::{Context, ContextEntry};
use rgo::compiler::span::Span;

fn item(name: &str, kind: SigKind) -> SigItem {
    SigItem { name: name.to_string(), kind, has_bang: false }
}

fn int_arg(name: Option<&str>, value: i64) -> CallArg {
    CallArg {
        name: name.map(|n| n.to_string()),
        term: ast::Term::Int(ast::IntLiteral { value, span: Span::unknown() }),
    }
}

fn str_arg(name: Option<&str>, value: &str) -> CallArg {
    CallArg {
        name: name.map(|n| n.to_string()),
        term: ast::Term::String(ast::StrLiteral { value: value.to_string(), span: Span::unknown() }),
    }
}

fn setup(items: Vec<SigItem>) -> (Context, ContextEntry, Signature) {
    let mut ctx = Context::new();
    let sig = Signature { items, generics: vec![] };
    ctx.add_sig("f", "f", sig.clone(), Span::unknown(), false).unwrap();
    let target = ctx.get("f").unwrap().clone();
    (ctx, target, sig)
}

fn term_is_int(term: &ast::Term, value: i64) -> bool {
    matches!(term, ast::Term::Int(lit) if lit.value == value)
}

fn term_is_str(term: &ast::Term, value: &str) -> bool {
    matches!(term, ast::Term::String(lit) if lit.value == value)
}

#[test]
fn positional_arguments_keep_the_target() {
    let (mut ctx, target, sig) = setup(vec![item("a", SigKind::Int), item("b", SigKind::Str)]);
    let mut hoisted = vec![];
    let res = resolve_call_arguments(&mut ctx, &target, sig, vec![int_arg(None, 1), str_arg(None, "x")], &mut hoisted).unwrap();
    assert_eq!(res.target.name, "f");
    assert_eq!(res.terms.len(), 2);
    assert!(term_is_int(&res.terms[0], 1));
    assert!(term_is_str(&res.terms[1], "x"));
    assert!(hoisted.is_empty());
    assert_eq!(ctx.counter, 0);
}

#[test]
fn positional_arguments_are_not_counted_here() {
    let (mut ctx, target, sig) = setup(vec![item("a", SigKind::Int)]);
    let mut hoisted = vec![];
    let res = resolve_call_arguments(&mut ctx, &target, sig, vec![int_arg(None, 1), int_arg(None, 2)], &mut hoisted).unwrap();
    assert_eq!(res.terms.len(), 2);
    assert!(hoisted.is_empty());
}

#[test]
fn named_arguments_in_order_need_no_wrapper() {
    let (mut ctx, target, sig) = setup(vec![item("a", SigKind::Int), item("b", SigKind::Str)]);
    let mut hoisted = vec![];
    let args = vec![int_arg(Some("a"), 1), str_arg(Some("b"), "x")];
    let res = resolve_call_arguments(&mut ctx, &target, sig, args, &mut hoisted).unwrap();
    assert_eq!(res.target.name, "f");
    assert_eq!(res.signature.names(), vec!["a".to_string(), "b".to_string()]);
    assert!(hoisted.is_empty());
}

#[test]
fn reordered_named_arguments_go_through_a_wrapper() {
    let (mut ctx, target, sig) = setup(vec![item("a", SigKind::Int), item("b", SigKind::Str)]);
    let mut hoisted = vec![];
    let args = vec![str_arg(Some("b"), "x"), int_arg(Some("a"), 1)];
    let res = resolve_call_arguments(&mut ctx, &target, sig, args, &mut hoisted).unwrap();
    assert_eq!(res.target.name, "_0_lambda");
    assert_eq!(res.signature.names(), vec!["b".to_string(), "a".to_string()]);
    assert_eq!(res.signature.items[0].kind, SigKind::Str);
    assert_eq!(res.signature.items[1].kind, SigKind::Int);
    assert!(term_is_str(&res.terms[0], "x"));
    assert!(term_is_int(&res.terms[1], 1));
    assert!(res.target.captures.is_empty());
    assert_eq!(hoisted.len(), 1);
    match &hoisted[0] {
        BlockItem::FunctionDef(f) => {
            assert_eq!(f.name, "_0_lambda");
            assert_eq!(f.sig.names(), vec!["b".to_string(), "a".to_string()]);
            assert_eq!(f.body.items.len(), 1);
            match &f.body.items[0] {
                BlockItem::Exec(e) => {
                    assert_eq!(e.of, "f");
                    assert_eq!(e.args, vec!["a".to_string(), "b".to_string()]);
                },
                _ => panic!("wrapper body must execute the target"),
            }
        },
        _ => panic!("wrapper must be a function"),
    }
    assert_eq!(ctx.get("_0_lambda").unwrap().name, "_0_lambda");
}

#[test]
fn positional_arguments_fill_the_first_free_parameter() {
    let (mut ctx, target, sig) = setup(vec![item("", SigKind::Int), item("b", SigKind::Str)]);
    let mut hoisted = vec![];
    let args = vec![str_arg(Some("b"), "x"), int_arg(None, 7)];
    let res = resolve_call_arguments(&mut ctx, &target, sig, args, &mut hoisted).unwrap();
    assert_eq!(res.signature.names(), vec!["b".to_string(), "_named_arg_1".to_string()]);
    match &hoisted[0] {
        BlockItem::FunctionDef(f) => match &f.body.items[0] {
            BlockItem::Exec(e) => assert_eq!(e.args, vec!["_named_arg_1".to_string(), "b".to_string()]),
            _ => panic!("wrapper body must execute the target"),
        },
        _ => panic!("wrapper must be a function"),
    }
}

#[test]
fn unknown_parameter_name_is_an_error() {
    let (mut ctx, target, sig) = setup(vec![item("a", SigKind::Int)]);
    let mut hoisted = vec![];
    let err = resolve_call_arguments(&mut ctx, &target, sig, vec![int_arg(Some("c"), 1)], &mut hoisted).err().unwrap();
    assert_eq!(err.code, Code::HIR);
    assert_eq!(err.message, "function 'f' has no parameter named 'c'");
    assert!(hoisted.is_empty());
}

#[test]
fn repeated_argument_is_an_error() {
    let (mut ctx, target, sig) = setup(vec![item("a", SigKind::Int), item("b", SigKind::Int)]);
    let mut hoisted = vec![];
    let args = vec![int_arg(Some("a"), 1), int_arg(Some("a"), 2)];
    let err = resolve_call_arguments(&mut ctx, &target, sig, args, &mut hoisted).err().unwrap();
    assert_eq!(err.message, "function 'f' argument 'a' was provided more than once");
}

#[test]
fn too_many_arguments_with_names_is_an_error() {
    let (mut ctx, target, sig) = setup(vec![item("a", SigKind::Int), item("b", SigKind::Int)]);
    let mut hoisted = vec![];
    let args = vec![int_arg(Some("a"), 1), int_arg(None, 2), int_arg(None, 3)];
    let err = resolve_call_arguments(&mut ctx, &target, sig, args, &mut hoisted).err().unwrap();
    assert_eq!(err.code, Code::HIR);
    assert_eq!(err.message, "function 'f' expected 2 arguments but got 3");
}

#[test]
fn nested_target_is_captured_by_its_wrapper() {
    let mut ctx = Context::new().enter("main", None, false);
    let sig = Signature { items: vec![item("a", SigKind::Int), item("b", SigKind::Int)], generics: vec![] };
    ctx.add_sig("g", "g", sig.clone(), Span::unknown(), false).unwrap();
    let mut target = ctx.get("g").unwrap().clone();
    target.is_root = false;
    target.captures = vec![item("x", SigKind::Int)];
    let mut hoisted = vec![];
    let (w, s) = create_named_arg_wrapper(&mut ctx, &target, &sig, &vec![1, 0], &mut hoisted).unwrap();
    assert_eq!(s.names(), vec!["b".to_string(), "a".to_string()]);
    let capture_names: Vec<String> = w.captures.iter().map(|c| c.name.clone()).collect();
    assert_eq!(capture_names, vec!["g".to_string(), "x".to_string()]);
    match &hoisted[0] {
        BlockItem::FunctionDef(f) => {
            assert_eq!(f.sig.names(), vec!["g".to_string(), "x".to_string(), "b".to_string(), "a".to_string()]);
            match &f.body.items[0] {
                BlockItem::Exec(e) => assert_eq!(e.args, vec!["x".to_string(), "a".to_string(), "b".to_string()]),
                _ => panic!("wrapper body must execute the target"),
            }
        },
        _ => panic!("wrapper must be a function"),
    }
}
