use rgo::compiler::air_ast::{AirFunction, AirStmt, FunctionSig};
use rgo::compiler::air_lower::{
    build_closure_unwrapper, build_deep_copy_helper, build_deep_release_helper, count_block_uses, entry_function,
    lower_function, take_release_statements, FunctionLowerer,
};
use rgo::compiler::hir_ast::{Block, BlockItem, Closure, Exec, Function, Lit, SigItem, SigKind, Signature};
use rgo::compiler::span::Span;
use rgo::compiler::symbol::{register_builtin_import, SymbolRegistry};

fn item(name: &str, kind: SigKind) -> SigItem {
    SigItem { name: name.to_string(), kind, has_bang: false }
}

fn closure_kind(kinds: Vec<SigKind>) -> SigKind {
    SigKind::tuple(kinds)
}

fn sample_function() -> AirFunction {
    AirFunction {
        sig: FunctionSig {
            name: "f".to_string(),
            params: vec![
                item("a", SigKind::Int),
                item("k", closure_kind(vec![])),
                item("b", SigKind::Str),
                item("c", closure_kind(vec![SigKind::Int])),
            ],
            generics: vec![],
            builtin: None,
        },
        items: vec![],
    }
}

#[test]
fn unwrapper_reads_every_field_then_jumps() {
    let f = build_closure_unwrapper(&sample_function()).unwrap();
    let expected = "f_unwrapper($env_end: int):\n\
\x20   $__env_end = @pin($env_end)\n\
\x20   $a = @field($__env_end, -4)\n\
\x20   $k = @field($__env_end, -3)\n\
\x20   $b = @field($__env_end, -2)\n\
\x20   $c = @field($__env_end, -1)\n\
\x20   @release($__env_end)\n\
\x20   @jumpargs(f, $a: int, $k: (), $b: str, $c: ())\n";
    assert_eq!(f.to_text(), expected);
}

#[test]
fn deep_release_calls_each_filled_closure_field() {
    let f = build_deep_release_helper(&sample_function()).unwrap();
    let expected = "f_deep_release($env_end: int):\n\
\x20   $__env_end = @pin($env_end)\n\
\x20   $__num_remaining = @field($__env_end, 5)\n\
\x20   @gt(f_release_skip_1, $__num_remaining, 2)\n\
\x20   $f_release_field_1 = @field($__env_end, -3)\n\
\x20   @callptr($f_release_field_1)\n\
f_release_skip_1:\n\
\x20   @gt(f_release_skip_3, $__num_remaining, 0)\n\
\x20   $f_release_field_3 = @field($__env_end, -1)\n\
\x20   @callptr($f_release_field_3)\n\
f_release_skip_3:\n\
\x20   @release($__env_end)\n\
\x20   @return()\n";
    assert_eq!(f.to_text(), expected);
}

#[test]
fn deep_copy_copies_each_filled_closure_field() {
    let f = build_deep_copy_helper(&sample_function()).unwrap();
    let expected = "f_deepcopy($env_end: int):\n\
\x20   $__env_end = @pin($env_end)\n\
\x20   $num_remaining = @field($__env_end, 5)\n\
\x20   @gt(f_deepcopy_skip_1, $num_remaining, 2)\n\
\x20   @deepcopy($f_deepcopy_field_1, $__env_end, -3)\n\
f_deepcopy_skip_1:\n\
\x20   @gt(f_deepcopy_skip_3, $num_remaining, 0)\n\
\x20   @deepcopy($f_deepcopy_field_3, $__env_end, -1)\n\
f_deepcopy_skip_3:\n\
\x20   @return()\n";
    assert_eq!(f.to_text(), expected);
}

#[test]
fn helpers_without_closure_fields_are_short() {
    let plain = AirFunction {
        sig: FunctionSig { name: "g".to_string(), params: vec![item("a", SigKind::Int)], generics: vec![], builtin: None },
        items: vec![],
    };
    let release = build_deep_release_helper(&plain).unwrap();
    assert_eq!(release.to_text(), "g_deep_release($env_end: int):\n    $__env_end = @pin($env_end)\n    @release($__env_end)\n    @return()\n");
    let copy = build_deep_copy_helper(&plain).unwrap();
    assert_eq!(copy.to_text(), "g_deepcopy($env_end: int):\n    $__env_end = @pin($env_end)\n    @return()\n");
}

#[test]
fn unused_closures_are_released_in_name_order() {
    let mut unused = vec!["z".to_string(), "a".to_string(), "z".to_string()];
    let stmts = take_release_statements(&mut unused);
    let texts: Vec<String> = stmts.iter().map(|s| s.to_text()).collect();
    assert_eq!(texts, vec!["@release($a)".to_string(), "@release($z)".to_string()]);
    assert!(unused.is_empty());
}

#[test]
fn uses_are_counted_per_name() {
    let items = vec![
        BlockItem::LitDef { name: "x".to_string(), literal: Lit::Int(1) },
        BlockItem::ClosureDef(Closure { name: "c".to_string(), of: "f".to_string(), args: vec!["x".to_string()] }),
        BlockItem::Exec(Exec { of: "c".to_string(), args: vec!["x".to_string(), "f".to_string()] }),
    ];
    let mut uses = count_block_uses(&items);
    uses.sort();
    assert_eq!(uses, vec![("c".to_string(), 1), ("f".to_string(), 2), ("x".to_string(), 2)]);
}

#[test]
fn closure_parameter_is_jumped_to() {
    let main = Function {
        name: "main".to_string(),
        sig: Signature { items: vec![item("k", closure_kind(vec![]))], generics: vec![] },
        body: Block { items: vec![BlockItem::Exec(Exec { of: "k".to_string(), args: vec![] })] },
    };
    let mut symbols = SymbolRegistry::new();
    let mut lowerer = FunctionLowerer::new(vec![]);
    let functions = lower_function(&main, &mut symbols, &mut lowerer).unwrap();
    assert_eq!(functions.len(), 4);
    assert_eq!(functions[0].to_text(), "main($k: ()):\n    @jumpclosure($k)\n");
    assert_eq!(functions[1].sig.name, "main_unwrapper");
    assert_eq!(functions[2].sig.name, "main_deep_release");
    assert_eq!(functions[3].sig.name, "main_deepcopy");
    assert!(symbols.get_function("main").is_some());
}

#[test]
fn unused_closure_parameter_is_released_before_leaving() {
    let main = Function {
        name: "main".to_string(),
        sig: Signature { items: vec![item("k", closure_kind(vec![])), item("j", closure_kind(vec![]))], generics: vec![] },
        body: Block { items: vec![BlockItem::Exec(Exec { of: "k".to_string(), args: vec![] })] },
    };
    let mut symbols = SymbolRegistry::new();
    let mut lowerer = FunctionLowerer::new(vec![]);
    let functions = lower_function(&main, &mut symbols, &mut lowerer).unwrap();
    assert_eq!(functions[0].to_text(), "main($k: (), $j: ()):\n    @release($j)\n    @jumpclosure($k)\n");
}

#[test]
fn entry_code_calls_builtin_exit() {
    let mut symbols = SymbolRegistry::new();
    register_builtin_import("exit", "exit", Span::unknown(), &mut symbols).unwrap();
    let mut lowerer = FunctionLowerer::new(vec![]);
    let items = vec![
        BlockItem::Import { label: "exit".to_string(), path: "exit".to_string() },
        BlockItem::LitDef { name: "code".to_string(), literal: Lit::Int(0) },
        BlockItem::Exec(Exec { of: "exit".to_string(), args: vec!["code".to_string()] }),
    ];
    let functions = entry_function(items, &mut symbols, &mut lowerer).unwrap();
    assert_eq!(functions.len(), 1);
    assert_eq!(functions[0].to_text(), "_start():\n    @exit($code: int = 0)\n");
}

#[test]
fn referenced_functions_are_lowered_once() {
    let helper = Function {
        name: "helper".to_string(),
        sig: Signature { items: vec![item("k", closure_kind(vec![]))], generics: vec![] },
        body: Block { items: vec![BlockItem::Exec(Exec { of: "k".to_string(), args: vec![] })] },
    };
    let mut symbols = SymbolRegistry::new();
    symbols
        .declare_function(FunctionSig {
            name: "helper".to_string(),
            params: vec![item("k", closure_kind(vec![]))],
            generics: vec![],
            builtin: None,
        })
        .unwrap();
    let mut lowerer = FunctionLowerer::new(vec![("helper".to_string(), helper)]);
    lowerer.ensure("helper", &mut symbols).unwrap();
    lowerer.ensure("helper", &mut symbols).unwrap();
    assert!(lowerer.pending.is_empty());
    let generated = lowerer.take_generated_functions();
    assert_eq!(generated.len(), 4);
    assert_eq!(generated[0].sig.name, "helper");
    assert!(matches!(generated[0].items[0], AirStmt::Op(_)));
}

#[test]
fn continuation_called_with_a_parameter_lowers() {
    let f = Function {
        name: "f".to_string(),
        sig: Signature {
            items: vec![item("ok", closure_kind(vec![SigKind::Int])), item("x", SigKind::Int)],
            generics: vec![],
        },
        body: Block { items: vec![BlockItem::Exec(Exec { of: "ok".to_string(), args: vec!["x".to_string()] })] },
    };
    let mut symbols = SymbolRegistry::new();
    let mut lowerer = FunctionLowerer::new(vec![]);
    let functions = lower_function(&f, &mut symbols, &mut lowerer).expect("a call of a parameter lowers");
    assert!(functions[0].to_text().contains("@jumpclosure($ok"));
}
