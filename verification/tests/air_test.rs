use rgo::compiler::air::{
    build_builtin_statements, build_conditional_builtin_bridge, call_op, closure_deep_release_label,
    closure_deepcopy_label, closure_unwrapper_label, consume_signature_for_args, function_sig_from_hir,
    instruction_op, is_inline_builtin, suffix_word_counts,
};
use rgo::compiler::air_ast::{AirArg, AirOp, AirStmt, AirValue, FunctionSig};
use rgo::compiler::builtins::Builtin;
use rgo::compiler::hir_ast::{Block, Function, Lit, SigIdent, SigItem, SigKind, Signature};

fn arg(name: &str) -> AirArg {
    AirArg { name: name.to_string(), kind: SigKind::Int, literal: None }
}

fn lit_arg(name: &str, v: i64) -> AirArg {
    AirArg { name: name.to_string(), kind: SigKind::Int, literal: Some(Lit::Int(v)) }
}

#[test]
fn helper_labels() {
    assert_eq!(closure_unwrapper_label("f"), "f_unwrapper");
    assert_eq!(closure_deep_release_label("f"), "f_deep_release");
    assert_eq!(closure_deepcopy_label("f"), "f_deepcopy");
}

#[test]
fn generic_parameters_become_pointers() {
    let function = Function {
        name: "id".to_string(),
        sig: Signature {
            items: vec![
                SigItem { name: "x".to_string(), kind: SigKind::Ident(SigIdent { name: "T".to_string() }), has_bang: false },
                SigItem { name: "n".to_string(), kind: SigKind::Int, has_bang: false },
            ],
            generics: vec!["T".to_string()],
        },
        body: Block { items: vec![] },
    };
    let sig = function_sig_from_hir(&function);
    assert_eq!(sig.name, "id");
    assert_eq!(sig.params[0].kind, SigKind::Sig(Signature { items: vec![], generics: vec![] }));
    assert_eq!(sig.params[1].kind, SigKind::Int);
    assert_eq!(sig.generics, vec!["T".to_string()]);
}

#[test]
fn word_counts_from_the_end() {
    assert_eq!(suffix_word_counts(&vec![SigKind::Int, SigKind::Str, SigKind::Int]), vec![3, 2, 1]);
    assert!(suffix_word_counts(&vec![]).is_empty());
}

#[test]
fn arguments_take_parameter_kinds() {
    let params = vec![
        SigItem { name: "fmt".to_string(), kind: SigKind::CompileTimeStr, has_bang: false },
        SigItem { name: "args".to_string(), kind: SigKind::Variadic, has_bang: false },
        SigItem { name: "ok".to_string(), kind: SigKind::Str, has_bang: false },
    ];
    let args: Vec<String> = ["f", "a", "b", "k", "extra"].iter().map(|s| s.to_string()).collect();
    let literals = vec![("a".to_string(), Lit::Int(7))];
    let out = consume_signature_for_args(&params, &args, &literals);
    let kinds: Vec<SigKind> = out.iter().map(|a| a.kind.clone()).collect();
    assert_eq!(kinds, vec![SigKind::CompileTimeStr, SigKind::Int, SigKind::Int, SigKind::Int, SigKind::Str]);
    assert_eq!(out[1].literal, Some(Lit::Int(7)));
    assert_eq!(out[0].literal, None);
}

#[test]
fn arithmetic_builtins_become_instructions() {
    match instruction_op(Builtin::Add, vec![arg("x"), arg("y"), arg("k")]) {
        AirOp::Add(add) => {
            assert_eq!(add.input_a.name, "x");
            assert_eq!(add.input_b.name, "y");
            assert_eq!(add.target, "k");
        }
        other => panic!("unexpected {:?}", other),
    }
    match instruction_op(Builtin::Div, vec![arg("x"), arg("y"), arg("err"), arg("ok")]) {
        AirOp::DivInt(div) => {
            assert_eq!(div.err_target, "err");
            assert_eq!(div.ok_target, "ok");
        }
        other => panic!("unexpected {:?}", other),
    }
    match instruction_op(Builtin::Lt, vec![lit_arg("l", 3), arg("r"), arg("k")]) {
        AirOp::JumpLt(lt) => {
            assert!(matches!(lt.left, AirValue::Literal(3)));
            assert!(matches!(lt.right, AirValue::Binding(ref n) if n == "r"));
        }
        other => panic!("unexpected {:?}", other),
    }
}

#[test]
fn library_builtins_become_calls() {
    match call_op(Builtin::Printf, vec![arg("fmt"), arg("x"), arg("k")]) {
        AirOp::Printf(p) => {
            assert_eq!(p.args.len(), 2);
            assert_eq!(p.arg_kinds.len(), 2);
            assert_eq!(p.target, "k");
        }
        other => panic!("unexpected {:?}", other),
    }
    match call_op(Builtin::Exit, vec![arg("code")]) {
        AirOp::SysExit(e) => assert_eq!(e.args.len(), 1),
        other => panic!("unexpected {:?}", other),
    }
}

#[test]
fn equality_builtins_become_bridges() {
    let sig = FunctionSig { name: "cmp.x".to_string(), params: vec![], generics: vec![], builtin: None };
    let stmts = build_conditional_builtin_bridge(&sig, Builtin::Eqs, vec![arg("a"), arg("b"), arg("yes"), arg("no")]);
    assert_eq!(stmts.len(), 7);
    match &stmts[0] {
        AirStmt::Op(op) => match &**op {
            AirOp::JumpEqStr(eq) => {
                assert_eq!(eq.args.len(), 2);
                assert_eq!(eq.target, "cmp_x_yes_true_0_0");
            }
            other => panic!("unexpected {:?}", other),
        },
        other => panic!("unexpected {:?}", other),
    }
    match &stmts[1] {
        AirStmt::Label(l) => assert_eq!(l.name, "cmp_x_no_false_0_0"),
        other => panic!("unexpected {:?}", other),
    }
    let one = build_builtin_statements(&sig, Builtin::Mul, vec![arg("a"), arg("b"), arg("k")]);
    assert_eq!(one.len(), 1);
    assert!(is_inline_builtin(Builtin::Eqs));
    assert!(!is_inline_builtin(Builtin::Printf));
}
