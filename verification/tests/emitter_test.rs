use rgo::compiler::air_ast::{
    AirAdd, AirArg, AirCallPtr, AirCallPtrTarget, AirDivInt, AirField, AirFunction, AirJumpArgs,
    AirJumpClosure, AirJumpEq, AirLabel, AirNewClosure, AirOp, AirPrintf, AirReturn, AirSprintf,
    AirStmt, AirSysExit, AirValue, AirWrite, FunctionSig,
};
use rgo::compiler::codegen::{function, Artifacts, FrameLayout};
use rgo::compiler::emitter::{
    emit_clone_closure, emit_get_field, emit_function, emit_jump_closure, emit_mmap, emit_new_closure,
    emit_printf, emit_return, emit_sprintf, emit_value_jump, load_arg_into_reg,
    load_value_into_reg, move_args_to_registers, prepare_args, store_params, FunctionEmitter,
};
use rgo::compiler::error::Code;
use rgo::compiler::hir_ast::{Lit, SigItem, SigKind, Signature};
use rgo::compiler::pipeline::{
    emit_program, generate_air_functions, lower_program, reject_root_execution, render_normalized_hir,
};
use rgo::compiler::{ast, compile};

fn int_arg(name: &str) -> AirArg {
    AirArg { name: name.to_string(), kind: SigKind::Int, literal: None }
}

fn literal_arg(name: &str, value: i64) -> AirArg {
    AirArg { name: name.to_string(), kind: SigKind::Int, literal: Some(Lit::Int(value)) }
}

fn string_arg(name: &str, value: &str) -> AirArg {
    AirArg { name: name.to_string(), kind: SigKind::Str, literal: Some(Lit::Str(value.to_string())) }
}

fn param(name: &str, kind: SigKind) -> SigItem {
    SigItem { name: name.to_string(), kind, has_bang: false }
}

fn sig(name: &str, params: Vec<SigItem>) -> FunctionSig {
    FunctionSig { name: name.to_string(), params, generics: vec![], builtin: None }
}

fn frame_of(names: &[&str]) -> FrameLayout {
    let mut frame = FrameLayout::new();
    for n in names {
        frame.allocate_word(n).unwrap();
    }
    frame
}

fn emitter(frame: FrameLayout) -> FunctionEmitter {
    FunctionEmitter {
        out: String::new(),
        frame,
        prefix: "f".to_string(),
        terminated: false,
        write_loop_counter: 0,
        label_counter: 0,
    }
}

#[test]
fn operands_come_from_slots_or_literals() {
    let frame = frame_of(&["x", "y"]);
    let mut out = String::new();
    load_value_into_reg(&mut out, &frame, &AirValue::Binding("y".to_string()), "rax").unwrap();
    load_value_into_reg(&mut out, &frame, &AirValue::Literal(-3), "rbx").unwrap();
    load_arg_into_reg(&mut out, &frame, &string_arg("greeting", "hi"), "rcx").unwrap();
    load_arg_into_reg(&mut out, &frame, &literal_arg("n", 42), "rdx").unwrap();
    assert_eq!(
        out,
        "    mov rax, [rbp-16] ; load operand\n    mov rbx, -3 ; operand literal\n    lea rcx, [rel greeting] ; point to string literal\n    mov rdx, 42 ; operand literal\n"
    );
}

#[test]
fn unknown_bindings_are_codegen_errors() {
    let frame = frame_of(&["x"]);
    let mut out = String::new();
    let err = load_arg_into_reg(&mut out, &frame, &int_arg("nope"), "rax").unwrap_err();
    assert_eq!(err.code, Code::Codegen);
    assert_eq!(err.message, "unknown binding 'nope'");
    let err = emit_value_jump(&mut out, &frame, "k", true).unwrap_err();
    assert_eq!(err.message, "unknown binding 'k'");
}

#[test]
fn mmap_asks_for_at_least_one_byte() {
    let mut out = String::new();
    emit_mmap(&mut out, 0);
    assert!(out.contains("    mov rsi, 1 ; length for allocation\n"));
    let mut out = String::new();
    emit_mmap(&mut out, 64);
    assert_eq!(
        out,
        "    mov rax, 9 ; mmap syscall\n    xor rdi, rdi ; addr hint for kernel base selection\n    mov rsi, 64 ; length for allocation\n    mov rdx, 3 ; prot = read/write\n    mov r10, 34 ; flags: private & anonymous\n    mov r8, -1 ; fd = -1\n    xor r9, r9 ; offset = 0\n    syscall ; allocate env pages\n"
    );
}

#[test]
fn value_jump_stores_the_result_below_the_end_pointer() {
    let frame = frame_of(&["k"]);
    let mut out = String::new();
    emit_value_jump(&mut out, &frame, "k", true).unwrap();
    assert_eq!(
        out,
        "    mov r12, [rbp-8] ; load continuation env_end pointer\n    mov [r12-8], rax ; store env field\n    mov rax, [r12+0] ; load continuation entry point\n    mov rdi, r12 ; pass env_end pointer to continuation\n    leave ; unwind before jumping\n    jmp rax\n"
    );
    let mut plain = String::new();
    emit_value_jump(&mut plain, &frame, "k", false).unwrap();
    assert!(!plain.contains("store env field"));
}

#[test]
fn arguments_are_pushed_last_first_and_popped_into_registers() {
    let frame = frame_of(&["a"]);
    let mut out = String::new();
    prepare_args(&mut out, &frame, &vec![int_arg("a"), literal_arg("b", 5)]).unwrap();
    assert_eq!(
        out,
        "    mov rax, 5 ; operand literal\n    push rax ; stack arg\n    mov rax, [rbp-8] ; load operand\n    push rax ; stack arg\n"
    );
    let mut pops = String::new();
    let (slots, bytes) = move_args_to_registers(&mut pops, 8);
    assert_eq!((slots, bytes), (6, 16));
    assert_eq!(pops.lines().count(), 6);
    assert!(pops.starts_with("    pop rdi ; restore arg into register\n"));
    assert!(pops.ends_with("    pop r9 ; restore arg into register\n"));
}

#[test]
fn sprintf_needs_a_free_register_for_its_buffer() {
    let frame = frame_of(&[]);
    let args: Vec<AirArg> = (0..6).map(|i| literal_arg(&format!("v{i}"), i)).collect();
    let mut out = String::new();
    let err = emit_sprintf(&mut out, &frame, &args, 6).unwrap_err();
    assert_eq!(err.message, "sprintf requires at least one register slot for the buffer pointer");
    let mut out = String::new();
    emit_sprintf(&mut out, &frame, &vec![string_arg("fmt", "%d"), literal_arg("n", 1)], 2).unwrap();
    assert!(out.contains("    mov rdx, rsi ; shift sprintf args for buffer insertion\n    mov rsi, rdi ; shift sprintf args for buffer insertion\n"));
    assert!(out.contains("    mov rsi, 1024 ; length for allocation\n"));
    let err = emit_printf(&mut String::new(), &frame, &vec![], 0).unwrap_err();
    assert_eq!(err.message, "printf requires a format string before the continuation");
}

#[test]
fn closures_capture_their_arguments_and_fill_the_metadata() {
    let frame = frame_of(&["x", "c"]);
    let closure = AirNewClosure {
        name: "c".to_string(),
        target: sig("g", vec![param("a", SigKind::Int), param("b", SigKind::Int)]),
        args: vec![int_arg("x")],
    };
    let mut out = String::new();
    emit_new_closure(&mut out, &frame, &closure).unwrap();
    assert!(out.contains("    mov rsi, 64 ; length for allocation\n"));
    assert!(out.contains("    mov rax, [rbp-8] ; load operand\n    mov [rbx+0], rax ; capture arg into env\n"));
    assert!(out.contains("    add r12, 16 ; move pointer past env payload\n"));
    assert!(out.contains("    lea rax, [g_unwrapper] ; load unwrapper entry point\n"));
    assert!(out.contains("    lea rax, [g_deep_release] ; load release helper entry point\n"));
    assert!(out.contains("    lea rax, [g_deepcopy] ; load deep copy helper entry point\n"));
    assert!(out.contains("    mov qword [r12+40], 1 ; store num_remaining\n"));
    assert!(out.ends_with("    mov rax, r12 ; copy c closure env_end to rax\n"));
}

#[test]
fn a_captured_closure_is_copied() {
    let frame = frame_of(&["k", "c"]);
    let closure = AirNewClosure {
        name: "c".to_string(),
        target: sig("g", vec![param("k", SigKind::Sig(Signature { items: vec![], generics: vec![] }))]),
        args: vec![int_arg("k")],
    };
    let mut out = String::new();
    emit_new_closure(&mut out, &frame, &closure).unwrap();
    assert!(out.contains("    mov r12, rax ; shadow closure env_end pointer\n    push rbx ; save env base pointer\n    mov rbx, r12 ; clone source env_end pointer\n"));
    assert!(out.contains("    mov [rbx+0], r12 ; capture cloned closure pointer\n"));
    let mut copy = String::new();
    emit_clone_closure(&mut copy, &frame, "k", "d").unwrap();
    assert!(copy.starts_with("    mov rbx, [rbp-8] ; original closure k to d env_end pointer for clone\n"));
    assert!(copy.ends_with("    pop r12 ; restore cloned env_end pointer\n    mov rax, r12 ; copy cloned env_end pointer\n"));
}

#[test]
fn closure_calls_fill_the_last_words() {
    let frame = frame_of(&["k"]);
    let mut out = String::new();
    emit_jump_closure(&mut out, &frame, "k", &vec![literal_arg("a", 1), literal_arg("b", 2)]).unwrap();
    assert_eq!(
        out,
        "    mov rbx, [rbp-8] ; load k closure env_end pointer\n    mov rax, 1 ; operand literal\n    mov [rbx-16], rax ; store env field\n    mov rax, 2 ; operand literal\n    mov [rbx-8], rax ; store env field\n    mov rdi, rbx ; pass env_end pointer to closure\n    mov rax, [rdi+0] ; load closure unwrapper entry point\n    leave ; unwind before jumping\n    jmp rax ; tail call into closure\n"
    );
}

#[test]
fn returns_load_the_value_and_leave() {
    let frame = frame_of(&["v"]);
    let mut out = String::new();
    emit_return(&mut out, &frame, &Some("v".to_string())).unwrap();
    assert_eq!(out, "    mov rax, [rbp-8] ; load return value\n    leave\n    ret\n\n");
}

#[test]
fn parameters_beyond_six_come_from_the_stack() {
    let names = ["a", "b", "c", "d", "e", "f", "g"];
    let frame = frame_of(&names);
    let params: Vec<SigItem> = names.iter().map(|n| param(n, SigKind::Int)).collect();
    let mut out = String::new();
    store_params(&mut out, &frame, &params).unwrap();
    assert!(out.starts_with("    mov [rbp-8], rdi ; store a arg in frame\n"));
    assert!(out.contains("    mov [rbp-48], r9 ; store f arg in frame\n"));
    assert!(out.ends_with("    mov rax, [rbp+8] ; load spilled g arg\n    mov [rbp-56], rax ; store spilled arg\n"));
    let err = store_params(&mut String::new(), &frame_of(&[]), &params).unwrap_err();
    assert_eq!(err.message, "missing binding");
}

#[test]
fn string_equality_uses_two_local_labels() {
    let mut e = emitter(frame_of(&["s"]));
    e.emit_eq_str_jump(&vec![int_arg("s"), string_arg("lit", "x")], "yes").unwrap();
    assert!(e.out.contains("f_eqs_loop_1:\n"));
    assert!(e.out.contains("    jne f_eqs_false_0 ; bytes differ\n"));
    assert!(e.out.ends_with("    jmp f_eqs_loop_1\nf_eqs_false_0:\n"));
    assert_eq!(e.label_counter, 2);
}

#[test]
fn division_checks_for_zero() {
    let mut e = emitter(frame_of(&["err", "ok"]));
    e.emit_div(&literal_arg("a", 7), &literal_arg("b", 2), "err", "ok").unwrap();
    assert!(e.out.contains("    cmp rbx, 0 ; check for division by zero\n    je f_div_zero_0\n    cqo ; sign extend dividend\n    idiv rbx ; divide by divisor\n"));
    assert!(e.out.contains("f_div_zero_0:\n    mov r12, [rbp-8] ; load continuation env_end pointer\n"));
}

#[test]
fn unreachable_operations_are_skipped_until_a_label() {
    let frame = frame_of(&["k"]);
    let mut e = emitter(frame);
    let items = vec![
        AirStmt::op(AirOp::SysExit(AirSysExit { args: vec![] })),
        AirStmt::op(AirOp::CallPtr(AirCallPtr { target: AirCallPtrTarget::Binding("k".to_string()) })),
        AirStmt::Label(AirLabel { name: "again".to_string() }),
        AirStmt::op(AirOp::Return(AirReturn { value: None })),
    ];
    e.emit_block(&items).unwrap();
    assert_eq!(
        e.out,
        "    ; load exit code\n    mov rdi, 0 ; exit code\n    call exit ; call libc exit to flush buffers\nagain:\n    leave\n    ret\n\n"
    );
    assert!(e.terminated);
}

#[test]
fn write_loops_are_numbered_per_function() {
    let mut e = emitter(frame_of(&["k"]));
    let w = |target: &str| {
        AirStmt::op(AirOp::Write(AirWrite { args: vec![string_arg("msg", "hi")], arg_kinds: vec![SigKind::Str], target: target.to_string() }))
    };
    e.emit_block(&vec![w("k"), AirStmt::Label(AirLabel { name: "l".to_string() }), w("k")]).unwrap();
    assert!(e.out.contains("f_write_strlen_loop_0:\n"));
    assert!(e.out.contains("f_write_strlen_done_1:\n"));
    assert_eq!(e.write_loop_counter, 2);
}

#[test]
fn floating_point_operations_have_no_code() {
    let mut e = emitter(frame_of(&[]));
    let op = AirOp::AddF64(rgo::compiler::air_ast::AirAddF64 { input_a: int_arg("a"), input_b: int_arg("b"), target: "k".to_string() });
    let err = e.emit_air_op(&op).unwrap_err();
    assert_eq!(err.code, Code::Codegen);
    assert_eq!(err.message, "floating-point arithmetic has no code generation");
}

fn add_function() -> AirFunction {
    AirFunction {
        sig: sig("add_five", vec![param("ok", SigKind::Sig(Signature { items: vec![], generics: vec![] }))]),
        items: vec![AirStmt::op(AirOp::Add(AirAdd { input_a: literal_arg("a", 5), input_b: literal_arg("b", 0), target: "ok".to_string() }))],
    }
}

#[test]
fn frames_hold_parameters_then_bound_names() {
    let mut f = add_function();
    f.items.push(AirStmt::op(AirOp::Field(AirField { result: "x".to_string(), ptr: "env".to_string(), offset: -1, kind: SigKind::Int })));
    let frame = FrameLayout::build(&f).unwrap();
    assert_eq!(frame.stack_size, 16);
    assert_eq!(frame.binding("ok").unwrap().offset, 8);
    assert_eq!(frame.binding("x").unwrap().offset, 16);
}

#[test]
fn a_function_starts_with_its_label_and_frame() {
    let f = add_function();
    let frame = FrameLayout::build(&f).unwrap();
    let text = emit_function(&f, frame).unwrap();
    assert_eq!(
        text,
        "global add_five\nadd_five:\n    push rbp ; save executor frame pointer\n    mov rbp, rsp ; establish new frame base\n    sub rsp, 16 ; reserve stack space for locals\n    mov [rbp-8], rdi ; store ok arg in frame\n    mov rax, 5 ; operand literal\n    mov rbx, 0 ; operand literal\n    add rax, rbx ; add second integer\n    mov r12, [rbp-8] ; load continuation env_end pointer\n    mov [r12-8], rax ; store env field\n    mov rax, [r12+0] ; load continuation entry point\n    mov rdi, r12 ; pass env_end pointer to continuation\n    leave ; unwind before jumping\n    jmp rax\n"
    );
}

#[test]
fn each_function_name_is_emitted_once() {
    let mut artifacts = Artifacts::new();
    let first = function(&add_function(), &mut artifacts).unwrap();
    assert!(first.starts_with("global add_five\n"));
    let second = function(&add_function(), &mut artifacts).unwrap();
    assert_eq!(second, "");
}

#[test]
fn helpers_come_before_the_function_that_needs_them() {
    let mut f = add_function();
    f.items.insert(0, AirStmt::op(AirOp::CallPtr(AirCallPtr { target: AirCallPtrTarget::Binding("ok".to_string()) })));
    let mut artifacts = Artifacts::collect(&vec![]);
    artifacts.externs.push("release_heap_ptr".to_string());
    let text = function(&f, &mut artifacts).unwrap();
    assert!(text.starts_with("global release_heap_ptr\n"));
    assert!(text.contains("global add_five\n"));
    assert!(artifacts.externs.is_empty());
}

#[test]
fn collect_gathers_literals_and_externs() {
    let f = AirFunction {
        sig: sig("main", vec![]),
        items: vec![
            AirStmt::op(AirOp::Printf(AirPrintf { args: vec![string_arg("fmt", "%d\n")], arg_kinds: vec![SigKind::Str], target: "k".to_string() })),
            AirStmt::op(AirOp::Sprintf(AirSprintf { args: vec![string_arg("fmt", "other")], arg_kinds: vec![SigKind::Str], target: "k".to_string() })),
            AirStmt::op(AirOp::SysExit(AirSysExit { args: vec![] })),
            AirStmt::op(AirOp::DivInt(AirDivInt { input_a: string_arg("s", "q"), input_b: literal_arg("b", 1), err_target: "e".to_string(), ok_target: "o".to_string() })),
        ],
    };
    let artifacts = Artifacts::collect(&vec![f]);
    assert_eq!(artifacts.externs, vec!["exit".to_string(), "printf".to_string(), "sprintf".to_string()]);
    assert_eq!(
        artifacts.string_literals().clone(),
        vec![("fmt".to_string(), "%d\n".to_string()), ("s".to_string(), "q".to_string())]
    );
}

#[test]
fn jump_args_rebuild_the_frame_link_for_stack_arguments() {
    let target = sig("many", (0..7).map(|i| param(&format!("p{i}"), SigKind::Int)).collect());
    let args: Vec<AirArg> = (0..7).map(|i| literal_arg(&format!("v{i}"), i)).collect();
    let f = AirFunction { sig: sig("caller", vec![]), items: vec![AirStmt::op(AirOp::JumpArgs(AirJumpArgs { target, args }))] };
    let frame = FrameLayout::build(&f).unwrap();
    let text = emit_function(&f, frame).unwrap();
    assert!(text.contains("    sub rsp, 8 ; allocate slot for saved rbp\n"));
    assert!(text.ends_with("    leave ; unwind before named jump\n    jmp many\n"));
    assert!(!text.contains("reserve stack space"));
}

#[test]
fn a_program_is_preamble_functions_externs_and_data() {
    let f = AirFunction {
        sig: sig("_start", vec![]),
        items: vec![
            AirStmt::op(AirOp::Printf(AirPrintf { args: vec![string_arg("fmt", "hi")], arg_kinds: vec![SigKind::Str], target: "k".to_string() })),
        ],
    };
    let err = emit_program(&vec![f]).unwrap_err();
    assert_eq!(err.message, "unknown binding 'k'");
    let f = AirFunction { sig: sig("_start", vec![]), items: vec![AirStmt::op(AirOp::SysExit(AirSysExit { args: vec![string_arg("m", "bye")] }))] };
    let text = emit_program(&vec![f]).unwrap();
    assert!(text.starts_with("bits 64\ndefault rel\nsection .text\nglobal _start\n_start:\n"));
    assert!(text.ends_with("extern exit\nsection .rodata\nm:\n    db \"bye\", 0\n"));
}

#[test]
fn closure_calls_need_their_binding() {
    let f = AirFunction {
        sig: sig("f", vec![]),
        items: vec![AirStmt::op(AirOp::JumpClosure(AirJumpClosure { env_end: "k".to_string(), args: vec![] }))],
    };
    let mut artifacts = Artifacts::new();
    let err = function(&f, &mut artifacts).unwrap_err();
    assert_eq!(err.code, Code::Codegen);
    assert_eq!(err.message, "unknown binding 'k'");
}

#[test]
fn jump_eq_int_needs_two_arguments() {
    let mut e = emitter(frame_of(&[]));
    let err = e.emit_air_op(&AirOp::JumpEqInt(AirJumpEq { args: vec![literal_arg("a", 1)], target: "t".to_string() })).unwrap_err();
    assert_eq!(err.message, "eq builtin requires two arguments");
}

#[test]
fn root_invocations_are_refused() {
    let item = ast::BlockItem::Ident(ast::Ident { name: "main".to_string(), args: vec![], span: rgo::compiler::span::Span::unknown() });
    let err = reject_root_execution(&item).unwrap_err();
    assert_eq!(err.code, Code::Parse);
    assert_eq!(err.message, "root-level invocation is not supported; choose a target function");
    let source = b"int: @/int\nexit: @/exit\nmain: () {\n    exit(0)\n}\nmain()\n".to_vec();
    let err = compile(source, "main").unwrap_err();
    assert_eq!(err.message, "root-level invocation is not supported; choose a target function");
}

#[test]
fn compile_a_program_with_a_target() {
    let source = r#"
int: @/int
str: @/str
add: @/add
exit: @/exit
write: @/write
sprintf: @/sprintf

print_int: (value: int) {
    sprintf("%d", value, (res: str){
        write(res, exit(0))
    })
}

add_five: (ok:(int)) {
    add(5, 0, ok)
}

main: () {
    add_five((res: int) {
        print_int(res)
    })
}
"#;
    let text = compile(source.as_bytes().to_vec(), "main").expect("compiler produced text");
    assert!(text.starts_with("bits 64\ndefault rel\nsection .text\n"));
    assert!(text.contains("global _start"));
    assert!(text.contains("global add_five"));
}

#[test]
fn the_entry_function_comes_last() {
    let source = b"int: @/int\nexit: @/exit\nmain: () {\n    exit(0)\n}\n".to_vec();
    let functions = lower_program(source, "main").unwrap();
    assert_eq!(functions.last().unwrap().sig.name, "_start");
    let text = compile(b"int: @/int\nexit: @/exit\nmain: () {\n    exit(0)\n}\n".to_vec(), "main").unwrap();
    assert!(text.contains("call exit ; call libc exit to flush buffers\n"));
    assert!(text.contains("extern exit\n"));
}

#[test]
fn air_functions_come_from_lowered_items() {
    assert!(generate_air_functions(vec![]).unwrap().is_empty());
}

#[test]
fn normalized_hir_of_a_target() {
    let source = b"int: @/int\nexit: @/exit\nmain: () {\n    exit(0)\n}\n".to_vec();
    let text = render_normalized_hir(source, "main").unwrap();
    assert!(text.starts_with("int: @/int\nexit: @/exit\n"));
    assert!(text.contains("main: (){\n    _0: 0\n    exit(_0)\n}\n"));
}

#[test]
fn an_undefined_target_is_reported() {
    let source = b"int: @/int\nexit: @/exit\nmain: () {\n    exit(0)\n}\n".to_vec();
    let err = compile(source, "nosuch").unwrap_err();
    assert_eq!(err.code, Code::HIR);
    assert_eq!(err.message, "`nosuch` is not defined");
}

#[test]
fn environment_offsets_are_bounded() {
    let frame = frame_of(&["x"]);
    let err = emit_get_field(&mut String::new(), &frame, 1 << 40, "x").unwrap_err();
    assert_eq!(err.code, Code::Codegen);
    assert_eq!(err.message, "environment offset out of range");
    let mut out = String::new();
    emit_get_field(&mut out, &frame, -2, "x").unwrap();
    assert_eq!(out, "    mov rax, [r12-16] ; load x env field\n    mov [rbp-8], rax ; store value\n");
}

#[test]
fn write_and_eqs_need_their_arguments() {
    let mut e = emitter(frame_of(&[]));
    let err = e.emit_write(&vec![], 0).unwrap_err();
    assert_eq!(err.message, "write requires a buffer before the continuation");
    let err = e.emit_eq_str_jump(&vec![literal_arg("a", 1)], "t").unwrap_err();
    assert_eq!(err.message, "eqs builtin requires two arguments");
}

#[test]
fn declarations_alone_give_no_functions() {
    let items = vec![
        rgo::compiler::hir_ast::BlockItem::Import { label: "printf".to_string(), path: "/printf".to_string() },
        rgo::compiler::hir_ast::BlockItem::Import { label: "int".to_string(), path: "/int".to_string() },
    ];
    assert!(generate_air_functions(items).unwrap().is_empty());
}

#[test]
fn an_unknown_import_is_an_internal_error() {
    let items = vec![rgo::compiler::hir_ast::BlockItem::Import {
        label: "nope".to_string(),
        path: "/nope".to_string(),
    }];
    let err = generate_air_functions(items).expect_err("no builtin is named nope");
    assert_eq!(err.code, Code::Internal);
    assert!(err.to_string().contains("unknown import '@/nope'"));
}

#[test]
fn a_first_root_invocation_is_refused() {
    let err = compile(b"\nmain\n".to_vec(), "main").expect_err("a root invocation");
    assert_eq!(err.code, Code::Parse);
    assert!(err
        .to_string()
        .contains("root-level invocation is not supported; choose a target function"));
}

#[test]
fn a_body_local_type_in_an_unreached_function_compiles() {
    let source = b"helper: () {\n    t: (int)\n    helper\n}\nmain: () {\n    main\n}\n".to_vec();
    assert!(compile(source, "main").is_ok());
}

#[test]
fn reaching_a_function_with_a_body_local_type_is_an_internal_error() {
    let source = b"helper: () {\n    t: (int)\n    helper\n}\n".to_vec();
    let err = compile(source, "helper").expect_err("the function cannot be lowered");
    assert_eq!(err.code, Code::Internal);
    assert!(err.to_string().contains("a function body holds a declaration"));
}
