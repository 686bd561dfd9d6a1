use rgo::compiler::ast;
use rgo::compiler::error::Code;
use rgo::compiler::format_hir::render_normalized_rgo;
use rgo::compiler::hir::Lowerer;
use rgo::compiler::hir_ast::BlockItem;
use rgo::compiler::hir_context::Context;
use rgo::compiler::hir_lower::append_scope_capture_arg;
use rgo::compiler::lexer::Lexer;
use rgo::compiler::parser::Parser;
use rgo::compiler::span::Span;

fn lower_source(source: &str) -> Result<Vec<BlockItem>, rgo::compiler::error::Error> {
    let mut parser = Parser::new(Lexer::new(source.as_bytes().to_vec()));
    let mut ctx = Context::new();
    let mut lowerer = Lowerer::new();
    let mut out = Vec::new();
    while let Some(item) = parser.next()? {
        lowerer.consume(&mut ctx, item)?;
        while let Some(lowered) = lowerer.produce() {
            out.push(lowered);
        }
    }
    Ok(out)
}

#[test]
fn literal_arguments_are_bound_first() {
    let items = lower_source("int: @/int\nexit: @/exit\nmain: () {\n    exit(0)\n}\n").unwrap();
    assert_eq!(render_normalized_rgo(&items), "int: @/int\nexit: @/exit\nmain: (){\n    _0: 0\n    exit(_0)\n}\n");
}

#[test]
fn nested_functions_capture_outer_values() {
    let source = "int: @/int\nexit: @/exit\nmain: () {\n    code: 7\n    inner: () {\n        exit(code)\n    }\n    inner()\n}\n";
    let items = lower_source(source).unwrap();
    let expected = "int: @/int\nexit: @/exit\n_0_main_inner: (code: int!){\n    exit(code)\n}\n\nmain: (){\n    code: 7\n    _0_main_inner(code)\n}\n";
    assert_eq!(render_normalized_rgo(&items), expected);
}

#[test]
fn undefined_target_is_reported() {
    let err = lower_source("main: () {\n    nowhere()\n}\n").err().unwrap();
    assert_eq!(err.code, Code::HIR);
    assert_eq!(err.message, "`nowhere` is not defined");
}

#[test]
fn wrong_argument_kind_is_reported() {
    let err = lower_source("int: @/int\nexit: @/exit\nmain: () {\n    exit(\"no\")\n}\n").err().unwrap();
    assert_eq!(err.code, Code::HIR);
    assert_eq!(err.message, "expected int, found str!");
}

#[test]
fn too_many_arguments_are_reported() {
    let err = lower_source("int: @/int\nexit: @/exit\nmain: () {\n    exit(1, 2)\n}\n").err().unwrap();
    assert_eq!(err.code, Code::HIR);
    assert_eq!(err.message, "function 'exit' expected 1 arguments but got 2");
}

#[test]
fn imports_are_queued_in_order() {
    let items = lower_source("int: @/int\nstr: @/str\n").unwrap();
    assert_eq!(items.len(), 2);
    assert!(matches!(&items[0], BlockItem::Import { label, .. } if label == "int"));
    assert!(matches!(&items[1], BlockItem::Import { label, .. } if label == "str"));
}

#[test]
fn scope_capture_appends_the_continuation() {
    let term = ast::Term::Ident(ast::Ident { name: "f".to_string(), args: vec![], span: Span::unknown() });
    let callback = ast::Term::Int(ast::IntLiteral { value: 1, span: Span::unknown() });
    match append_scope_capture_arg(term, callback).unwrap() {
        ast::Term::Ident(i) => {
            assert_eq!(i.name, "f");
            assert_eq!(i.args.len(), 1);
        },
        _ => panic!("a name stays a name"),
    }
    let literal = ast::Term::String(ast::StrLiteral { value: "x".to_string(), span: Span::unknown() });
    let callback = ast::Term::Int(ast::IntLiteral { value: 1, span: Span::unknown() });
    let err = append_scope_capture_arg(literal, callback).err().unwrap();
    assert_eq!(err.code, Code::Parse);
    assert_eq!(err.message, "ctx capture target must be callable");
}

#[test]
fn a_literal_name_is_bound_once_per_scope() {
    let items = lower_source("x: 1\ny: \"two\"\n").unwrap();
    assert_eq!(render_normalized_rgo(&items), "x: 1\ny: \"two\"\n");
    let err = lower_source("x: 1\nx: 2\n").err().unwrap();
    assert_eq!(err.code, Code::Resolve);
    assert_eq!(err.message, "duplicate symbol `x` in this scope");
}

#[test]
fn an_alias_needs_a_bound_target() {
    let items = lower_source("x: 1\ny: x\n").unwrap();
    assert_eq!(render_normalized_rgo(&items), "x: 1\n");
    let err = lower_source("y: nowhere\n").err().unwrap();
    assert_eq!(err.code, Code::HIR);
    assert_eq!(err.message, "could not resolve target 'nowhere'");
    let err = lower_source("x: 1\nx: x\n").err().unwrap();
    assert_eq!(err.code, Code::Resolve);
    assert_eq!(err.message, "duplicate symbol `x` in this scope");
}
