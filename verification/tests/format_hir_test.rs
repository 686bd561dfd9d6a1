use rgo::compiler::format_hir::render_normalized_rgo;
use rgo::compiler::hir_ast::{Block, BlockItem, Closure, Exec, Function, Lit, SigItem, SigKind, Signature};

fn item(name: &str, kind: SigKind) -> SigItem {
    SigItem { name: name.to_string(), kind, has_bang: false }
}

fn bang(name: &str, kind: SigKind) -> SigItem {
    SigItem { name: name.to_string(), kind, has_bang: true }
}

fn sig(items: Vec<SigItem>) -> Signature {
    Signature { items, generics: vec![] }
}

fn exec(of: &str, args: &[&str]) -> BlockItem {
    BlockItem::Exec(Exec { of: of.to_string(), args: args.iter().map(|a| a.to_string()).collect() })
}

fn closure(name: &str, of: &str, args: &[&str]) -> BlockItem {
    BlockItem::ClosureDef(Closure {
        name: name.to_string(),
        of: of.to_string(),
        args: args.iter().map(|a| a.to_string()).collect(),
    })
}

#[test]
fn program_renders_as_indented_source() {
    let inner = Function {
        name: "inner".to_string(),
        sig: sig(vec![bang("fmt", SigKind::CompileTimeStr)]),
        body: Block { items: vec![exec("printf", &["fmt", "n"])] },
    };
    let main = Function {
        name: "main".to_string(),
        sig: sig(vec![item("x", SigKind::Int), item("ok", SigKind::tuple(vec![]))]),
        body: Block {
            items: vec![
                BlockItem::LitDef { name: "n".to_string(), literal: Lit::Int(-5) },
                BlockItem::FunctionDef(inner),
                exec("ok", &[]),
            ],
        },
    };
    let helper = Function {
        name: "helper".to_string(),
        sig: sig(vec![bang("b", SigKind::Byte)]),
        body: Block { items: vec![closure("c", "helper", &["x", "y"])] },
    };
    let items = vec![
        BlockItem::Import { label: "str".to_string(), path: "str".to_string() },
        BlockItem::LitDef { name: "name".to_string(), literal: Lit::Str("Al\"ice\n".to_string()) },
        BlockItem::SigDef { name: "pair".to_string(), sig: sig(vec![item("a", SigKind::Int), item("b", SigKind::Int)]) },
        BlockItem::SigDef {
            name: "box".to_string(),
            sig: Signature { items: vec![item("v", SigKind::Generic("T".to_string()))], generics: vec!["T".to_string()] },
        },
        BlockItem::FunctionDef(main),
        BlockItem::FunctionDef(helper),
        closure("k", "main", &["a"]),
    ];
    let expected = "str: @str\n\
name: \"Al\\\"ice\\n\"\n\
pair: (int, int)\n\
box: <T>(T)\n\
main: (x: int, ok:()){\n\
\x20   n: -5\n\
\x20   inner: (fmt: str!){\n\
\x20       printf(fmt, n)\n\
\x20   }\n\
\x20   ok()\n\
}\n\
\n\
helper: (b: byte!){\n\
\x20   c: helper(x, y)\n\
}\n\
k: main(a)\n";
    assert_eq!(render_normalized_rgo(&items), expected);
}

#[test]
fn empty_program_renders_empty() {
    assert_eq!(render_normalized_rgo(&[]), "");
}

#[test]
fn adjacent_functions_get_one_blank_line() {
    let f = |name: &str| Function { name: name.to_string(), sig: sig(vec![]), body: Block { items: vec![exec("g", &[])] } };
    let items = vec![BlockItem::FunctionDef(f("a")), BlockItem::FunctionDef(f("b"))];
    assert_eq!(render_normalized_rgo(&items), "a: (){\n    g()\n}\n\nb: (){\n    g()\n}\n");
}
