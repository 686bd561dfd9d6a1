use rgo::compiler::builtins::AirRuntimeHelper;
use rgo::compiler::codegen::{
    align_to, emit_data, emit_externs, emit_runtime_helper_once, write_preamble, Artifacts, Binding,
    FrameLayout,
};
use rgo::compiler::runtime::{emit_memcpy_helper, emit_release_heap_ptr};

#[test]
fn preamble_text() {
    assert_eq!(write_preamble(), "bits 64\ndefault rel\nsection .text\n");
}

#[test]
fn externs_are_sorted_and_unique() {
    let names = vec!["write".to_string(), "exit".to_string(), "printf".to_string(), "exit".to_string()];
    assert_eq!(emit_externs(&names), "extern exit\nextern printf\nextern write\n");
    assert_eq!(emit_externs(&vec![]), "");
}

#[test]
fn data_section_lists_literals() {
    let literals = vec![("l0".to_string(), "hi\n".to_string())];
    assert_eq!(emit_data(&literals), "section .rodata\nl0:\n    db \"hi\", 10, 0\n");
    assert_eq!(emit_data(&vec![]), "");
}

#[test]
fn string_literals_keep_the_first_value_per_label() {
    let mut artifacts = Artifacts::new();
    artifacts.add_string_literal("a", "one");
    artifacts.add_string_literal("a", "two");
    artifacts.add_string_literal("b", "three");
    assert_eq!(artifacts.string_literals().len(), 2);
    assert_eq!(artifacts.string_literals()[0].1, "one");
}

#[test]
fn runtime_helpers_are_emitted_once() {
    let mut artifacts = Artifacts::new();
    artifacts.externs.push("release_heap_ptr".to_string());
    let first = emit_runtime_helper_once(AirRuntimeHelper::ReleaseHeapPtr, &mut artifacts);
    assert_eq!(first, emit_release_heap_ptr());
    assert!(artifacts.externs.is_empty());
    let second = emit_runtime_helper_once(AirRuntimeHelper::ReleaseHeapPtr, &mut artifacts);
    assert_eq!(second, "");
    assert!(emit_runtime_helper_once(AirRuntimeHelper::MemcpyHelper, &mut artifacts).starts_with("global memcpy_helper\n"));
}

#[test]
fn runtime_text_uses_the_metadata_offsets() {
    let text = emit_release_heap_ptr();
    assert!(text.contains("    mov rcx, [rbx+24] ; load env size metadata\n"));
    assert!(text.contains("    mov rax, 11 ; munmap syscall\n"));
    assert!(emit_memcpy_helper().ends_with("    ret\n"));
}

#[test]
fn frame_words_are_allocated_downwards() {
    let mut frame = FrameLayout::new();
    frame.allocate_word("a").unwrap();
    frame.allocate_word("b").unwrap();
    assert_eq!(frame.binding("a").unwrap().offset, 8);
    assert_eq!(frame.binding("b").unwrap().offset, 16);
    assert!(frame.binding("c").is_none());
    frame.binding_mut("a").unwrap().offset = 40;
    assert_eq!(frame.binding("a").unwrap().offset, 40);
    assert_eq!(Binding { offset: 16 }.slot_addr(1), 8);
}

#[test]
fn alignment_rounds_up() {
    assert_eq!(align_to(0, 16), 0);
    assert_eq!(align_to(8, 16), 16);
    assert_eq!(align_to(32, 16), 32);
}
