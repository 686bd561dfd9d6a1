use rgo::compiler::air_ast::{
    AirAdd, AirArg, AirCloneClosure, AirDivInt, AirField, AirFunction, AirJump, AirJumpArgs, AirLabel,
    AirNewClosure, AirOp, AirPrintf, AirReturn, AirStmt, AirSysExit, FunctionSig,
};
use rgo::compiler::builtins::Builtin;
use rgo::compiler::format_air::{format_air_kind, format_binding_name, render_air_functions};
use rgo::compiler::hir_ast::{Lit, SigItem, SigKind};

fn arg(name: &str, kind: SigKind, literal: Option<Lit>) -> AirArg {
    AirArg { name: name.to_string(), kind, literal }
}

fn item(name: &str, kind: SigKind) -> SigItem {
    SigItem { name: name.to_string(), kind, has_bang: false }
}

fn sig(name: &str, params: Vec<SigItem>, builtin: Option<Builtin>) -> FunctionSig {
    FunctionSig { name: name.to_string(), params, generics: vec![], builtin }
}

fn op_text(op: AirOp) -> String {
    AirStmt::op(op).to_text()
}

#[test]
fn binding_names_get_one_dollar() {
    assert_eq!(format_binding_name("x"), "$x");
    assert_eq!(format_binding_name("$y"), "$y");
    assert_eq!(format_binding_name(""), "");
}

#[test]
fn air_kinds_show_item_names() {
    let kind = SigKind::tuple(vec![SigKind::Int, SigKind::Str]);
    assert_eq!(format_air_kind(&kind), "(int, str)");
    let named = SigKind::Sig(rgo::compiler::hir_ast::Signature {
        items: vec![item("a", SigKind::Int), item("k", SigKind::tuple(vec![SigKind::Int]))],
        generics: vec![],
    });
    assert_eq!(format_air_kind(&named), "($a: int, $k: ())");
    let list = SigKind::GenericInst { name: "list".to_string(), args: vec![SigKind::CompileTimeInt] };
    assert_eq!(format_air_kind(&list), "list<int!>");
}

#[test]
fn labels_end_with_colon() {
    assert_eq!(AirStmt::Label(AirLabel { name: "loop".to_string() }).to_text(), "loop:");
}

#[test]
fn arithmetic_shows_inputs_then_target() {
    let op = AirOp::Add(AirAdd {
        input_a: arg("a", SigKind::Int, None),
        input_b: arg("b", SigKind::Int, Some(Lit::Int(-3))),
        target: "k".to_string(),
    });
    assert_eq!(op_text(op), "@add($a: int, $b: int = -3, $k)");
    let div = AirOp::DivInt(AirDivInt {
        input_a: arg("a", SigKind::Int, None),
        input_b: arg("b", SigKind::Int, None),
        err_target: "err".to_string(),
        ok_target: "$ok".to_string(),
    });
    assert_eq!(op_text(div), "@div($a: int, $b: int, $err, $ok)");
}

#[test]
fn string_literals_are_quoted_with_escapes() {
    let op = AirOp::Printf(AirPrintf {
        args: vec![arg("fmt", SigKind::Str, Some(Lit::Str("hi \"x\"\n\t\\".to_string())))],
        arg_kinds: vec![SigKind::Str],
        target: "ok".to_string(),
    });
    assert_eq!(op_text(op), "@printf($fmt: str = \"hi \\\"x\\\"\\n\\t\\\\\", $ok)");
    let bare = AirOp::Printf(AirPrintf { args: vec![], arg_kinds: vec![], target: "ok".to_string() });
    assert_eq!(op_text(bare), "@printf($ok)");
}

#[test]
fn closures_show_layout_target_and_args() {
    let op = AirOp::NewClosure(AirNewClosure {
        name: "c".to_string(),
        target: sig("foo", vec![item("a", SigKind::Int), item("k", SigKind::tuple(vec![]))], None),
        args: vec![arg("x", SigKind::Int, None)],
    });
    assert_eq!(op_text(op), "$c = @newclosure<int, ()>(foo, $x: int)");
    let clone = AirOp::CloneClosure(AirCloneClosure {
        src: "s".to_string(),
        dst: "d".to_string(),
        remaining: vec![SigKind::Int, SigKind::Str],
    });
    assert_eq!(op_text(clone), "$d = @cloneclosure($s, int, str)");
}

#[test]
fn jumps_and_exits() {
    let jump = AirOp::JumpArgs(AirJumpArgs { target: sig("write", vec![], Some(Builtin::Write)), args: vec![] });
    assert_eq!(op_text(jump), "@jumpargs(@write)");
    let jump = AirOp::JumpArgs(AirJumpArgs {
        target: sig("next", vec![], None),
        args: vec![arg("k", SigKind::tuple(vec![]), None)],
    });
    assert_eq!(op_text(jump), "@jumpargs(next, $k: ())");
    assert_eq!(op_text(AirOp::SysExit(AirSysExit { args: vec![] })), "@exit()");
    assert_eq!(
        op_text(AirOp::SysExit(AirSysExit { args: vec![arg("c", SigKind::Int, Some(Lit::Int(0)))] })),
        "@exit($c: int = 0)"
    );
    assert_eq!(op_text(AirOp::Return(AirReturn { value: None })), "@return()");
    assert_eq!(op_text(AirOp::Return(AirReturn { value: Some("v".to_string()) })), "@return($v)");
    let field = AirOp::Field(AirField {
        result: "r".to_string(),
        ptr: "p".to_string(),
        offset: -8,
        kind: SigKind::Int,
    });
    assert_eq!(op_text(field), "$r = @field($p, -8)");
}

#[test]
fn functions_render_signature_then_lines() {
    let main = AirFunction {
        sig: sig("main", vec![item("x", SigKind::Int), item("k", SigKind::tuple(vec![]))], None),
        items: vec![
            AirStmt::Label(AirLabel { name: "main".to_string() }),
            AirStmt::op(AirOp::Jump(AirJump { target: "next".to_string() })),
        ],
    };
    let main_text = "main($x: int, $k: ()):\nmain:\n    @jump(next)\n";
    assert_eq!(main.to_text(), main_text);
    let bridge = AirFunction { sig: sig("w", vec![], Some(Builtin::Write)), items: vec![] };
    assert_eq!(bridge.to_text(), "w(): @write\n");
    let both = render_air_functions(&[main, bridge]);
    assert_eq!(both, format!("{}\n\n{}\n", main_text, "w(): @write\n"));
    assert_eq!(render_air_functions(&[]), "");
}
