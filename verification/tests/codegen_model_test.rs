use rgo::compiler::codegen_model::{AsmFunction, AsmLiteral, AsmModule, AsmStatement};

#[test]
fn literals_are_written_as_source() {
    assert_eq!(AsmLiteral::Int(-7).to_text(), "-7");
    assert_eq!(AsmLiteral::Str("a\"b\\\n".to_string()).to_text(), "\"a\\\"b\\\\\\n\"");
}

#[test]
fn statements_are_written_one_per_kind() {
    let lit = AsmStatement::Literal { target: "x".to_string(), value: AsmLiteral::Int(1) };
    assert_eq!(lit.to_text(), "x = 1");
    let call = AsmStatement::Invocation { target: Some("r".to_string()), callee: "f".to_string(), args: vec!["a".to_string(), "b".to_string()], tail: false };
    assert_eq!(call.to_text(), "r = f(a, b)");
    let tail = AsmStatement::Invocation { target: None, callee: "g".to_string(), args: vec![], tail: true };
    assert_eq!(tail.to_text(), "g()");
    let alloc = AsmStatement::HeapAlloc { size: 64, prot: 3, flags: 34, fd: -1, offset: 0 };
    assert_eq!(alloc.to_text(), "heap_alloc mmap(size=64, prot=3, flags=34, fd=-1, offset=0)");
}

#[test]
fn functions_and_modules_are_written_in_blocks() {
    let f = AsmFunction::new("main".to_string(), vec!["a".to_string()], vec![AsmStatement::Literal { target: "x".to_string(), value: AsmLiteral::Int(2) }]);
    assert_eq!(f.block.label, "main");
    assert_eq!(f.to_text(), "main(a) {\n    x = 2\n}\n");
    let g = AsmFunction::new("g".to_string(), vec![], vec![]);
    let module = AsmModule::new(vec![f, g]);
    assert_eq!(module.to_text(), "main(a) {\n    x = 2\n}\n\n\ng() {\n}\n\n");
    assert_eq!(AsmModule::default().to_text(), "");
}
