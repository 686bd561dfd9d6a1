//! The text of the runtime helpers and builtins that are written in assembly.

use vstd::prelude::*;

use crate::compiler::air_ast::AirFunction;
use crate::compiler::codegen::{
    has_label, Artifacts, CLOSURE_ENV_REG, ENV_METADATA_DEEP_COPY_OFFSET, ENV_METADATA_ENV_SIZE_OFFSET,
    ENV_METADATA_HEAP_SIZE_OFFSET, MAP_ANONYMOUS, MAP_PRIVATE, PROT_READ, PROT_WRITE, SYSCALL_MMAP,
    SYSCALL_MUNMAP,
};
use crate::text::{decimal_text, i64_to_string, int_text, push_str, str_eq, usize_to_string};

verus! {

/// The label of the static string that holds the minimum integer's text.
pub const ITOA_MIN_LABEL: &'static str = "itoa_min_value";

/// The text of the minimum integer.
pub const ITOA_MIN_VALUE: &'static str = "-9223372036854775808";

/// The text of `release_heap_ptr`: unmaps a closure environment, given a pointer to its end.
pub open spec fn release_heap_ptr_text() -> Seq<char> {
    "global release_heap_ptr\nrelease_heap_ptr:\n    push rbp ; save caller frame\n    mov rbp, rsp ; establish frame\n    push rbx ; preserve rbx\n    mov rbx, rdi ; keep env_end pointer\n    mov rcx, [rbx+"@ + decimal_text(ENV_METADATA_ENV_SIZE_OFFSET as nat) + "] ; load env size metadata\n    mov rdx, [rbx+"@ + decimal_text(ENV_METADATA_HEAP_SIZE_OFFSET as nat) + "] ; load heap size metadata\n    mov rdi, rbx\n    sub rdi, rcx ; compute env base pointer\n    mov rsi, rdx ; heap size for munmap\n    mov rax, "@ + int_text((SYSCALL_MUNMAP) as int) + " ; munmap syscall\n    syscall\n    pop rbx\n    pop rbp\n    ret\n"@
}

/// The `release_heap_ptr` helper.
pub fn emit_release_heap_ptr() -> (r: String)
    ensures
        r@ == release_heap_ptr_text(),
{
    let mut out = "global release_heap_ptr\nrelease_heap_ptr:\n    push rbp ; save caller frame\n    mov rbp, rsp ; establish frame\n    push rbx ; preserve rbx\n    mov rbx, rdi ; keep env_end pointer\n    mov rcx, [rbx+".to_string();
    push_str(&mut out, usize_to_string(ENV_METADATA_ENV_SIZE_OFFSET).as_str());
    push_str(&mut out, "] ; load env size metadata\n    mov rdx, [rbx+");
    push_str(&mut out, usize_to_string(ENV_METADATA_HEAP_SIZE_OFFSET).as_str());
    push_str(&mut out, "] ; load heap size metadata\n    mov rdi, rbx\n    sub rdi, rcx ; compute env base pointer\n    mov rsi, rdx ; heap size for munmap\n    mov rax, ");
    push_str(&mut out, i64_to_string((SYSCALL_MUNMAP) as i64).as_str());
    push_str(&mut out, " ; munmap syscall\n    syscall\n    pop rbx\n    pop rbp\n    ret\n");
    out
}

/// The text of `deepcopy_heap_ptr`: maps a new environment, copies the given one into it,
/// and lets the environment's own deep-copy helper copy what it points to.
pub open spec fn deepcopy_heap_ptr_text() -> Seq<char> {
    "global deepcopy_heap_ptr\ndeepcopy_heap_ptr:\n    push rbp ; prologue: save executor frame pointer\n    mov rbp, rsp ; prologue: establish new frame\n    push rbx ; preserve callee-saved registers\n    push r12\n    push r13\n    push r14\n    push r15\n    mov r12, rdi ; capture env_end pointer\n    mov r14, [r12+"@ + decimal_text(ENV_METADATA_ENV_SIZE_OFFSET as nat) + "] ; load env size metadata\n    mov r15, [r12+"@ + decimal_text(ENV_METADATA_HEAP_SIZE_OFFSET as nat) + "] ; load heap size metadata\n    mov rbx, r12 ; keep env_end pointer\n    sub rbx, r14 ; compute env base pointer\n    mov rdi, 0 ; addr hint so kernel picks mmap base\n    mov rsi, r15 ; length = heap size\n    mov rdx, "@ + int_text((PROT_READ | PROT_WRITE) as int) + " ; prot = read/write\n    mov r10, "@ + int_text((MAP_PRIVATE | MAP_ANONYMOUS) as int) + " ; flags = private & anonymous\n    mov r8, -1 ; fd = -1\n    xor r9, r9 ; offset = 0\n    mov rax, "@ + int_text((SYSCALL_MMAP) as int) + " ; mmap syscall\n    syscall ; allocate new closure env\n    mov r13, rax ; new env base pointer\n    mov rdi, r13 ; memcpy dest\n    mov rsi, rbx ; memcpy src\n    mov rdx, r15 ; memcpy length\n    call memcpy_helper ; copy env contents\n    mov rax, r13 ; compute new env_end pointer\n    add rax, r14\n    mov r15, rax ; preserve new env_end pointer\n    mov rax, [r15+"@ + decimal_text(ENV_METADATA_DEEP_COPY_OFFSET as nat) + "] ; load deep copy helper entry\n    mov rdi, r15 ; pass new env_end pointer\n    call rax ; invoke helper\n    mov rax, r15 ; return new env_end pointer\n    pop r15\n    pop r14\n    pop r13\n    pop r12\n    pop rbx\n    pop rbp\n    ret\n"@
}

/// The `deepcopy_heap_ptr` helper.
pub fn emit_deepcopy_heap_ptr() -> (r: String)
    ensures
        r@ == deepcopy_heap_ptr_text(),
{
    let mut out = "global deepcopy_heap_ptr\ndeepcopy_heap_ptr:\n    push rbp ; prologue: save executor frame pointer\n    mov rbp, rsp ; prologue: establish new frame\n    push rbx ; preserve callee-saved registers\n    push r12\n    push r13\n    push r14\n    push r15\n    mov r12, rdi ; capture env_end pointer\n    mov r14, [r12+".to_string();
    push_str(&mut out, usize_to_string(ENV_METADATA_ENV_SIZE_OFFSET).as_str());
    push_str(&mut out, "] ; load env size metadata\n    mov r15, [r12+");
    push_str(&mut out, usize_to_string(ENV_METADATA_HEAP_SIZE_OFFSET).as_str());
    push_str(&mut out, "] ; load heap size metadata\n    mov rbx, r12 ; keep env_end pointer\n    sub rbx, r14 ; compute env base pointer\n    mov rdi, 0 ; addr hint so kernel picks mmap base\n    mov rsi, r15 ; length = heap size\n    mov rdx, ");
    push_str(&mut out, i64_to_string((PROT_READ | PROT_WRITE) as i64).as_str());
    push_str(&mut out, " ; prot = read/write\n    mov r10, ");
    push_str(&mut out, i64_to_string((MAP_PRIVATE | MAP_ANONYMOUS) as i64).as_str());
    push_str(&mut out, " ; flags = private & anonymous\n    mov r8, -1 ; fd = -1\n    xor r9, r9 ; offset = 0\n    mov rax, ");
    push_str(&mut out, i64_to_string((SYSCALL_MMAP) as i64).as_str());
    push_str(&mut out, " ; mmap syscall\n    syscall ; allocate new closure env\n    mov r13, rax ; new env base pointer\n    mov rdi, r13 ; memcpy dest\n    mov rsi, rbx ; memcpy src\n    mov rdx, r15 ; memcpy length\n    call memcpy_helper ; copy env contents\n    mov rax, r13 ; compute new env_end pointer\n    add rax, r14\n    mov r15, rax ; preserve new env_end pointer\n    mov rax, [r15+");
    push_str(&mut out, usize_to_string(ENV_METADATA_DEEP_COPY_OFFSET).as_str());
    push_str(&mut out, "] ; load deep copy helper entry\n    mov rdi, r15 ; pass new env_end pointer\n    call rax ; invoke helper\n    mov rax, r15 ; return new env_end pointer\n    pop r15\n    pop r14\n    pop r13\n    pop r12\n    pop rbx\n    pop rbp\n    ret\n");
    out
}

/// The text of `memcpy_helper`: copies `rdx` bytes from `rsi` to `rdi`, a word at a time.
pub open spec fn memcpy_helper_text() -> Seq<char> {
    "global memcpy_helper\nmemcpy_helper:\n    push rbp ; prologue\n    mov rbp, rsp\n    xor rcx, rcx ; counter = 0\ninternal_memcpy_loop:\n    cmp rcx, rdx ; counter < count?\n    jge internal_memcpy_done\n    mov rax, [rsi+rcx] ; load 8 bytes from source\n    mov [rdi+rcx], rax ; store 8 bytes to destination\n    add rcx, 8 ; advance counter by 8\n    jmp internal_memcpy_loop\ninternal_memcpy_done:\n    pop rbp\n    ret\n"@
}

/// The `memcpy_helper` helper.
pub fn emit_memcpy_helper() -> (r: String)
    ensures
        r@ == memcpy_helper_text(),
{
    let mut out = "global memcpy_helper\nmemcpy_helper:\n    push rbp ; prologue\n    mov rbp, rsp\n    xor rcx, rcx ; counter = 0\ninternal_memcpy_loop:\n    cmp rcx, rdx ; counter < count?\n    jge internal_memcpy_done\n    mov rax, [rsi+rcx] ; load 8 bytes from source\n    mov [rdi+rcx], rax ; store 8 bytes to destination\n    add rcx, 8 ; advance counter by 8\n    jmp internal_memcpy_loop\ninternal_memcpy_done:\n    pop rbp\n    ret\n".to_string();
    out
}

/// The text of `itoa`: formats the integer in `rdi` in decimal into a fresh buffer (the
/// minimum value from a static string) and passes it to the continuation.
pub open spec fn builtin_itoa_text() -> Seq<char> {
    "global itoa\nitoa:\n    push rbp ; save executor frame pointer\n    mov rbp, rsp ; establish new frame\n    push rsi ; preserve continuation code pointer\n    push "@ + CLOSURE_ENV_REG@ + " ; preserve continuation env pointer\n    mov rax, rdi ; capture integer argument\n    mov r10, 0x8000000000000000 ; i64 min constant\n    cmp rax, r10\n    je itoa_min_value\n    push rdi ; keep integer while mmap runs\n    mov rax, "@ + int_text((SYSCALL_MMAP) as int) + " ; mmap syscall\n    xor rdi, rdi ; addr hint for kernel base selection\n    mov rsi, 64 ; allocate buffer for digits\n    mov rdx, "@ + int_text((PROT_READ | PROT_WRITE) as int) + " ; prot = read/write\n    mov r10, "@ + int_text((MAP_PRIVATE | MAP_ANONYMOUS) as int) + " ; flags: private & anonymous\n    mov r8, -1 ; fd = -1\n    xor r9, r9 ; offset = 0\n    syscall ; allocate buffer pages\n    pop rdi ; restore integer argument\n    mov r8, rax ; buffer base pointer\n    xor r10, r10 ; reuse r10 as sign flag\n    mov rax, rdi\n    cmp rax, 0\n    jge itoa_abs_done\n    neg rax\n    mov r10, 1\nitoa_abs_done:\n    lea r9, [r8+64] ; pointer past buffer end\n    mov byte [r9-1], 0 ; string terminator\n    mov r11, r9 ; cursor for digits\n    mov rcx, 10\n    cmp rax, 0\n    jne itoa_digit_loop\n    dec r11\n    mov byte [r11], '0'\n    jmp itoa_check_sign\nitoa_digit_loop:\n    xor rdx, rdx\n    div rcx\n    dec r11\n    add dl, '0'\n    mov [r11], dl\n    test rax, rax\n    jne itoa_digit_loop\nitoa_check_sign:\n    cmp r10, 0\n    je itoa_set_pointer\n    dec r11\n    mov byte [r11], '-'\nitoa_set_pointer:\n    mov r8, r11 ; string start\n    jmp itoa_tail\nitoa_min_value:\n    lea r8, [rel "@ + ITOA_MIN_LABEL@ + "] ; reuse static string\n    jmp itoa_tail\nitoa_tail:\n    mov rsi, [rbp-8] ; continuation code pointer\n    mov "@ + CLOSURE_ENV_REG@ + ", [rbp-16] ; continuation env pointer\n    sub rsp, 16 ; allocate temp stack for closure state\n    mov [rsp], rsi ; save code pointer\n    mov [rsp+8], "@ + CLOSURE_ENV_REG@ + " ; save env_end cursor\n    mov r10, [rsp+8] ; env_end cursor\n    sub r10, 8 ; reserve space for string argument\n    mov [r10], r8 ; store string pointer\n    mov rax, [rsp] ; restore code pointer\n    mov "@ + CLOSURE_ENV_REG@ + ", [rsp+8] ; restore env_end pointer\n    add rsp, 16 ; pop temp state\n    mov rdi, "@ + CLOSURE_ENV_REG@ + " ; pass env_end pointer to continuation\n    leave ; unwind before jump\n    jmp rax ; jump into continuation\n\n"@
}

/// The `itoa` builtin. It records the static string of the minimum value.
pub fn emit_builtin_itoa(artifacts: &mut Artifacts) -> (r: String)
    ensures
        r@ == builtin_itoa_text(),
        final(artifacts).literal_table() == (if has_label(old(artifacts).literal_table(), ITOA_MIN_LABEL@) {
            old(artifacts).literal_table()
        } else {
            old(artifacts).literal_table().push((ITOA_MIN_LABEL@, ITOA_MIN_VALUE@))
        }),
        final(artifacts).externs == old(artifacts).externs,
        final(artifacts).builtins_used == old(artifacts).builtins_used,
{
    artifacts.add_string_literal(ITOA_MIN_LABEL, ITOA_MIN_VALUE);
    let mut out = "global itoa\nitoa:\n    push rbp ; save executor frame pointer\n    mov rbp, rsp ; establish new frame\n    push rsi ; preserve continuation code pointer\n    push ".to_string();
    push_str(&mut out, CLOSURE_ENV_REG);
    push_str(&mut out, " ; preserve continuation env pointer\n    mov rax, rdi ; capture integer argument\n    mov r10, 0x8000000000000000 ; i64 min constant\n    cmp rax, r10\n    je itoa_min_value\n    push rdi ; keep integer while mmap runs\n    mov rax, ");
    push_str(&mut out, i64_to_string((SYSCALL_MMAP) as i64).as_str());
    push_str(&mut out, " ; mmap syscall\n    xor rdi, rdi ; addr hint for kernel base selection\n    mov rsi, 64 ; allocate buffer for digits\n    mov rdx, ");
    push_str(&mut out, i64_to_string((PROT_READ | PROT_WRITE) as i64).as_str());
    push_str(&mut out, " ; prot = read/write\n    mov r10, ");
    push_str(&mut out, i64_to_string((MAP_PRIVATE | MAP_ANONYMOUS) as i64).as_str());
    push_str(&mut out, " ; flags: private & anonymous\n    mov r8, -1 ; fd = -1\n    xor r9, r9 ; offset = 0\n    syscall ; allocate buffer pages\n    pop rdi ; restore integer argument\n    mov r8, rax ; buffer base pointer\n    xor r10, r10 ; reuse r10 as sign flag\n    mov rax, rdi\n    cmp rax, 0\n    jge itoa_abs_done\n    neg rax\n    mov r10, 1\nitoa_abs_done:\n    lea r9, [r8+64] ; pointer past buffer end\n    mov byte [r9-1], 0 ; string terminator\n    mov r11, r9 ; cursor for digits\n    mov rcx, 10\n    cmp rax, 0\n    jne itoa_digit_loop\n    dec r11\n    mov byte [r11], '0'\n    jmp itoa_check_sign\nitoa_digit_loop:\n    xor rdx, rdx\n    div rcx\n    dec r11\n    add dl, '0'\n    mov [r11], dl\n    test rax, rax\n    jne itoa_digit_loop\nitoa_check_sign:\n    cmp r10, 0\n    je itoa_set_pointer\n    dec r11\n    mov byte [r11], '-'\nitoa_set_pointer:\n    mov r8, r11 ; string start\n    jmp itoa_tail\nitoa_min_value:\n    lea r8, [rel ");
    push_str(&mut out, ITOA_MIN_LABEL);
    push_str(&mut out, "] ; reuse static string\n    jmp itoa_tail\nitoa_tail:\n    mov rsi, [rbp-8] ; continuation code pointer\n    mov ");
    push_str(&mut out, CLOSURE_ENV_REG);
    push_str(&mut out, ", [rbp-16] ; continuation env pointer\n    sub rsp, 16 ; allocate temp stack for closure state\n    mov [rsp], rsi ; save code pointer\n    mov [rsp+8], ");
    push_str(&mut out, CLOSURE_ENV_REG);
    push_str(&mut out, " ; save env_end cursor\n    mov r10, [rsp+8] ; env_end cursor\n    sub r10, 8 ; reserve space for string argument\n    mov [r10], r8 ; store string pointer\n    mov rax, [rsp] ; restore code pointer\n    mov ");
    push_str(&mut out, CLOSURE_ENV_REG);
    push_str(&mut out, ", [rsp+8] ; restore env_end pointer\n    add rsp, 16 ; pop temp state\n    mov rdi, ");
    push_str(&mut out, CLOSURE_ENV_REG);
    push_str(&mut out, " ; pass env_end pointer to continuation\n    leave ; unwind before jump\n    jmp rax ; jump into continuation\n\n");
    out
}

/// The text of a builtin that is written in assembly: `itoa` and the runtime helpers,
/// for a function of that name without statements of its own; none for any other.
pub fn emit_builtin_function(air: &AirFunction, artifacts: &mut Artifacts) -> (r: Option<String>)
    ensures
        r is Some <==> air.items@.len() == 0 && (air.sig.name@ == "itoa"@ || air.sig.name@ == "release_heap_ptr"@
            || air.sig.name@ == "deepcopy_heap_ptr"@ || air.sig.name@ == "memcpy_helper"@),
        r matches Some(t) ==> t@ == (if air.sig.name@ == "itoa"@ {
            builtin_itoa_text()
        } else if air.sig.name@ == "release_heap_ptr"@ {
            release_heap_ptr_text()
        } else if air.sig.name@ == "deepcopy_heap_ptr"@ {
            deepcopy_heap_ptr_text()
        } else {
            memcpy_helper_text()
        }),
        air.sig.name@ != "itoa"@ || air.items@.len() != 0 ==> *final(artifacts) == *old(artifacts),
        final(artifacts).externs == old(artifacts).externs,
        final(artifacts).builtins_used == old(artifacts).builtins_used,
        air.sig.name@ == "itoa"@ && air.items@.len() == 0 ==> final(artifacts).literal_table() == (if has_label(old(artifacts).literal_table(), ITOA_MIN_LABEL@) {
            old(artifacts).literal_table()
        } else {
            old(artifacts).literal_table().push((ITOA_MIN_LABEL@, ITOA_MIN_VALUE@))
        }),
{
    if air.items.len() != 0 {
        return None;
    }
    let name = air.sig.name.as_str();
    if str_eq(name, "itoa") {
        Some(emit_builtin_itoa(artifacts))
    } else if str_eq(name, "release_heap_ptr") {
        Some(emit_release_heap_ptr())
    } else if str_eq(name, "deepcopy_heap_ptr") {
        Some(emit_deepcopy_heap_ptr())
    } else if str_eq(name, "memcpy_helper") {
        Some(emit_memcpy_helper())
    } else {
        None
    }
}

} // verus!
