//! The NASM text of one AIR function: a frame of one word per binding below `rbp`,
//! closures as heap environments whose end pointer travels in `r12`, and every call
//! a tail jump into a continuation.

use vstd::prelude::*;
use vstd::seq_lib::lemma_concat_associative;

use crate::compiler::air::{instruction_args_ok, instruction_op_ok, operand_of};
use crate::compiler::air_ast::{AirArg, AirCallPtrTarget, AirFunction, AirNewClosure, AirOp, AirStmt, AirValue};
use crate::compiler::builtins::Builtin;
use crate::compiler::codegen::{FrameLayout, FrameView};
use crate::compiler::error::{error_from_str, Code, Error};
use crate::compiler::hir_ast::{Lit, SigItem, SigKind};
use crate::compiler::span::Span;
use crate::{sanitize_function_name, sanitized};
use crate::text::{i64_to_string, int_text, push_str, usize_to_string};

verus! {

// ---------------------------------------------------------------------------
// Text
// ---------------------------------------------------------------------------

/// A line of assembly: the text and a newline.
pub open spec fn ln(s: Seq<char>) -> Seq<char> {
    s + "\n"@
}

/// The registers that carry the first six arguments of a call.
pub open spec fn arg_reg(i: int) -> Seq<char> {
    if i == 0 {
        "rdi"@
    } else if i == 1 {
        "rsi"@
    } else if i == 2 {
        "rdx"@
    } else if i == 3 {
        "rcx"@
    } else if i == 4 {
        "r8"@
    } else {
        "r9"@
    }
}

/// How many arguments travel in registers.
pub const ARG_REG_COUNT: usize = 6;

/// The register of argument `i`.
pub fn arg_reg_name(i: usize) -> (r: &'static str)
    requires
        i < ARG_REG_COUNT,
    ensures
        r@ == arg_reg(i as int),
{
    if i == 0 {
        "rdi"
    } else if i == 1 {
        "rsi"
    } else if i == 2 {
        "rdx"
    } else if i == 3 {
        "rcx"
    } else if i == 4 {
        "r8"
    } else {
        "r9"
    }
}

/// The message of a reference to a name that has no frame slot.
pub open spec fn unknown_binding_message(name: Seq<char>) -> Seq<char> {
    "unknown binding '"@ + name + "'"@
}

fn unknown_binding(name: &str) -> (e: Error)
    ensures
        e.code == Code::Codegen,
        e.message@ == unknown_binding_message(name@),
{
    let mut m = "unknown binding '".to_string();
    push_str(&mut m, name);
    push_str(&mut m, "'");
    error_from_str(Code::Codegen, m.as_str(), Span::unknown())
}

fn codegen_error(message: &str) -> (e: Error)
    ensures
        e.code == Code::Codegen,
        e.message@ == message@,
{
    error_from_str(Code::Codegen, message, Span::unknown())
}

/// Whether an outcome is the code generator's error with the given message.
pub open spec fn is_codegen_error(r: Result<(), Error>, message: Seq<char>) -> bool {
    r matches Err(e) && e.code == Code::Codegen && e.message@ == message
}

fn put(out: &mut String, s: &str)
    ensures
        final(out)@ == old(out)@ + s@,
{
    push_str(out, s);
}

fn put_int(out: &mut String, v: i64)
    ensures
        final(out)@ == old(out)@ + int_text(v as int),
{
    let t = i64_to_string(v);
    push_str(out, t.as_str());
}

fn put_usize(out: &mut String, n: usize)
    ensures
        final(out)@ == old(out)@ + int_text(n as int),
{
    let t = usize_to_string(n);
    push_str(out, t.as_str());
}

/// A new text of one line.
fn new_text(line: &str) -> (t: String)
    ensures
        t@ == ln(line@),
{
    let mut t = line.to_string();
    push_str(&mut t, "\n");
    t
}

/// Appends one line.
fn add_line(t: &mut String, line: &str)
    ensures
        final(t)@ == old(t)@ + ln(line@),
{
    let ghost start = t@;
    push_str(t, line);
    push_str(t, "\n");
    assert(t@ =~= start + ln(line@));
}

/// `a` followed by `b`.
fn join2(a: &str, b: &str) -> (r: String)
    ensures
        r@ == a@ + b@,
{
    let mut r = a.to_string();
    push_str(&mut r, b);
    r
}

/// `a`, `b` and `c` in a row.
fn join3(a: &str, b: &str, c: &str) -> (r: String)
    ensures
        r@ == a@ + b@ + c@,
{
    let mut r = a.to_string();
    push_str(&mut r, b);
    push_str(&mut r, c);
    r
}

/// `a`, the decimal text of `v`, and `c`.
fn join_int(a: &str, v: i64, c: &str) -> (r: String)
    ensures
        r@ == a@ + int_text(v as int) + c@,
{
    let mut r = a.to_string();
    put_int(&mut r, v);
    push_str(&mut r, c);
    r
}

/// `a`, the decimal text of `n`, and `c`.
fn join_usize(a: &str, n: usize, c: &str) -> (r: String)
    ensures
        r@ == a@ + int_text(n as int) + c@,
{
    let mut r = a.to_string();
    put_usize(&mut r, n);
    push_str(&mut r, c);
    r
}

// ---------------------------------------------------------------------------
// Operands
// ---------------------------------------------------------------------------

/// `mov {reg}, [rbp-{offset}] ; load operand`.
pub open spec fn load_slot_text(reg: Seq<char>, offset: i32) -> Seq<char> {
    ln("    mov "@ + reg + ", [rbp-"@ + int_text(offset as int) + "] ; load operand"@)
}

/// `mov {reg}, {value} ; operand literal`.
pub open spec fn load_literal_text(reg: Seq<char>, value: i64) -> Seq<char> {
    ln("    mov "@ + reg + ", "@ + int_text(value as int) + " ; operand literal"@)
}

/// `lea {reg}, [rel {label}] ; point to string literal`.
pub open spec fn load_label_text(reg: Seq<char>, label: Seq<char>) -> Seq<char> {
    ln("    lea "@ + reg + ", [rel "@ + label + "] ; point to string literal"@)
}

/// The text that loads a value into `reg`, or the error of an unknown binding.
#[verifier::opaque]
pub open spec fn load_value_text(frame: FrameView, v: AirValue, reg: Seq<char>) -> Result<Seq<char>, Seq<char>> {
    match v {
        AirValue::Binding(name) => match frame.offset_of(name@) {
            Some(o) => Ok(load_slot_text(reg, o)),
            None => Err(unknown_binding_message(name@)),
        },
        AirValue::Literal(value) => Ok(load_literal_text(reg, value)),
    }
}

/// The text that loads an argument into `reg`: an integer literal by value, a string
/// literal by the address of the data label that bears the argument's name, anything
/// else from the frame slot of its binding.
#[verifier::opaque]
pub open spec fn load_arg_text(frame: FrameView, a: AirArg, reg: Seq<char>) -> Result<Seq<char>, Seq<char>> {
    match a.literal {
        Some(Lit::Int(value)) => Ok(load_literal_text(reg, value)),
        Some(Lit::Str(_)) => Ok(load_label_text(reg, a.name@)),
        None => match frame.offset_of(a.name@) {
            Some(o) => Ok(load_slot_text(reg, o)),
            None => Err(unknown_binding_message(a.name@)),
        },
    }
}

/// Appends the text that loads `v` into `reg`.
pub fn load_value_into_reg(out: &mut String, frame: &FrameLayout, v: &AirValue, reg: &str) -> (r: Result<(), Error>)
    ensures
        match load_value_text(frame@, *v, reg@) {
            Ok(t) => r is Ok && final(out)@ == old(out)@ + t,
            Err(m) => is_codegen_error(r, m),
        },
{
    reveal(load_value_text);
    match v {
        AirValue::Binding(name) => {
            match frame.binding(name.as_str()) {
                Some(b) => {
                    let o = b.offset;
                    put(out, "    mov ");
                    put(out, reg);
                    put(out, ", [rbp-");
                    put_int(out, o as i64);
                    put(out, "] ; load operand");
                    put(out, "\n");
                    assert(final(out)@ =~= old(out)@ + load_slot_text(reg@, o));
                    Ok(())
                },
                None => Err(unknown_binding(name.as_str())),
            }
        },
        AirValue::Literal(value) => {
            put(out, "    mov ");
            put(out, reg);
            put(out, ", ");
            put_int(out, *value);
            put(out, " ; operand literal");
            put(out, "\n");
            assert(final(out)@ =~= old(out)@ + load_literal_text(reg@, *value));
            Ok(())
        },
    }
}

/// Appends the text that loads the argument into `reg`.
pub fn load_arg_into_reg(out: &mut String, frame: &FrameLayout, a: &AirArg, reg: &str) -> (r: Result<(), Error>)
    ensures
        match load_arg_text(frame@, *a, reg@) {
            Ok(t) => r is Ok && final(out)@ == old(out)@ + t,
            Err(m) => is_codegen_error(r, m),
        },
{
    reveal(load_arg_text);
    match &a.literal {
        Some(Lit::Int(value)) => {
            put(out, "    mov ");
            put(out, reg);
            put(out, ", ");
            put_int(out, *value);
            put(out, " ; operand literal");
            put(out, "\n");
            assert(final(out)@ =~= old(out)@ + load_literal_text(reg@, *value));
            Ok(())
        },
        Some(Lit::Str(_)) => {
            put(out, "    lea ");
            put(out, reg);
            put(out, ", [rel ");
            put(out, a.name.as_str());
            put(out, "] ; point to string literal");
            put(out, "\n");
            assert(final(out)@ =~= old(out)@ + load_label_text(reg@, a.name@));
            Ok(())
        },
        None => {
            match frame.binding(a.name.as_str()) {
                Some(b) => {
                    let o = b.offset;
                    put(out, "    mov ");
                    put(out, reg);
                    put(out, ", [rbp-");
                    put_int(out, o as i64);
                    put(out, "] ; load operand");
                    put(out, "\n");
                    assert(final(out)@ =~= old(out)@ + load_slot_text(reg@, o));
                    Ok(())
                },
                None => Err(unknown_binding(a.name.as_str())),
            }
        },
    }
}

/// The largest environment offset, in words, that the emitter addresses.
pub const MAX_ENV_OFFSET: isize = 0x1000_0000;

/// `{base}+{bytes}` or `{base}-{bytes}`: the address of environment word `offset`
/// (negative words lie below the environment's end pointer).
pub open spec fn env_field_text(base: Seq<char>, offset: int) -> Seq<char> {
    if offset >= 0 {
        base + "+"@ + int_text(offset * 8)
    } else {
        base + "-"@ + int_text(-offset * 8)
    }
}

/// Appends the address of environment word `offset` relative to `base`.
pub fn env_field_operand(out: &mut String, base: &str, offset: isize)
    requires
        -MAX_ENV_OFFSET <= offset <= MAX_ENV_OFFSET,
    ensures
        final(out)@ == old(out)@ + env_field_text(base@, offset as int),
{
    let bytes: i64 = (offset as i64) * 8;
    put(out, base);
    if bytes >= 0 {
        put(out, "+");
        put_int(out, bytes);
    } else {
        put(out, "-");
        put_int(out, -bytes);
    }
}

/// `mov [{address}], {reg} ; store env field`.
pub open spec fn store_at_text(base: Seq<char>, offset: int, reg: Seq<char>) -> Seq<char> {
    ln("    mov ["@ + env_field_text(base, offset) + "], "@ + reg + " ; store env field"@)
}

/// Appends the store of `reg` into environment word `offset` relative to `base`.
pub fn store_at(out: &mut String, base: &str, offset: isize, reg: &str)
    requires
        -MAX_ENV_OFFSET <= offset <= MAX_ENV_OFFSET,
    ensures
        final(out)@ == old(out)@ + store_at_text(base@, offset as int, reg@),
{
    put(out, "    mov [");
    env_field_operand(out, base, offset);
    put(out, "], ");
    put(out, reg);
    put(out, " ; store env field");
    put(out, "\n");
    assert(final(out)@ =~= old(out)@ + store_at_text(base@, offset as int, reg@));
}

/// `mov [rbp-{offset}], rax ; store value`.
pub open spec fn store_value_text(offset: i32) -> Seq<char> {
    ln("    mov [rbp-"@ + int_text(offset as int) + "], rax ; store value"@)
}

/// The text that stores `rax` into the slot of `name`.
#[verifier::opaque]
pub open spec fn store_binding_text(frame: FrameView, name: Seq<char>) -> Result<Seq<char>, Seq<char>> {
    match frame.offset_of(name) {
        Some(o) => Ok(store_value_text(o)),
        None => Err(unknown_binding_message(name)),
    }
}

/// Appends the store of `rax` into the slot of `name`.
pub fn store_binding_value(out: &mut String, frame: &FrameLayout, name: &str) -> (r: Result<(), Error>)
    ensures
        match store_binding_text(frame@, name@) {
            Ok(t) => r is Ok && final(out)@ == old(out)@ + t,
            Err(m) => is_codegen_error(r, m),
        },
{
    reveal(store_binding_text);
    match frame.binding(name) {
        Some(b) => {
            let o = b.offset;
            put(out, "    mov [rbp-");
            put_int(out, o as i64);
            put(out, "], rax ; store value");
            put(out, "\n");
            assert(final(out)@ =~= old(out)@ + store_value_text(o));
            Ok(())
        },
        None => Err(unknown_binding(name)),
    }
}


/// The outcome of `a` followed by `b`: the first error, or both texts.
pub open spec fn cat(a: Result<Seq<char>, Seq<char>>, b: Result<Seq<char>, Seq<char>>) -> Result<Seq<char>, Seq<char>> {
    match a {
        Err(m) => Err(m),
        Ok(x) => match b {
            Err(m) => Err(m),
            Ok(y) => Ok(x + y),
        },
    }
}

/// The counter after `c`, wrapping at the end of its range.
pub open spec fn next_count(c: usize) -> usize {
    if c == usize::MAX {
        0
    } else {
        (c + 1) as usize
    }
}

fn bump(c: usize) -> (r: usize)
    ensures
        r == next_count(c),
{
    if c == usize::MAX {
        0
    } else {
        c + 1
    }
}

// ---------------------------------------------------------------------------
// The emitter
// ---------------------------------------------------------------------------

/// The state of the emission of one function: the text so far, the frame of its
/// bindings, the sanitized function name that prefixes its local labels, whether the
/// last instruction left the function (so that what follows up to the next label is
/// unreachable and skipped), and the counters of its local labels.
pub struct FunctionEmitter {
    pub out: String,
    pub frame: FrameLayout,
    pub prefix: String,
    pub terminated: bool,
    pub write_loop_counter: usize,
    pub label_counter: usize,
}

/// `{prefix}_{suffix}_{index}`.
pub open spec fn local_label(prefix: Seq<char>, suffix: Seq<char>, index: usize) -> Seq<char> {
    prefix + "_"@ + suffix + "_"@ + int_text(index as int)
}

/// `{label}:`.
pub open spec fn label_line(label: Seq<char>) -> Seq<char> {
    ln(label + ":"@)
}

impl FunctionEmitter {
    /// Whether everything but the text, the flag and the counters is as in `old`.
    pub open spec fn same_frame(self, old: Self) -> bool {
        self.frame == old.frame && self.prefix == old.prefix
    }

    /// The next local label with the given suffix.
    pub fn new_label(&mut self, suffix: &str) -> (r: String)
        ensures
            r@ == local_label(old(self).prefix@, suffix@, old(self).label_counter),
            final(self).label_counter == next_count(old(self).label_counter),
            final(self).out == old(self).out,
            final(self).frame == old(self).frame,
            final(self).prefix == old(self).prefix,
            final(self).terminated == old(self).terminated,
            final(self).write_loop_counter == old(self).write_loop_counter,
    {
        let idx = self.label_counter;
        self.label_counter = bump(idx);
        let mut r = self.prefix.clone();
        put(&mut r, "_");
        put(&mut r, suffix);
        put(&mut r, "_");
        put_usize(&mut r, idx);
        assert(r@ =~= local_label(self.prefix@, suffix@, idx));
        r
    }

    /// The labels of the next string-length loop of `write`.
    pub fn next_write_loop_labels(&mut self) -> (r: (String, String))
        ensures
            r.0@ == local_label(old(self).prefix@, "write_strlen_loop"@, old(self).write_loop_counter),
            r.1@ == local_label(old(self).prefix@, "write_strlen_done"@, old(self).write_loop_counter),
            final(self).write_loop_counter == next_count(old(self).write_loop_counter),
            final(self).out == old(self).out,
            final(self).frame == old(self).frame,
            final(self).prefix == old(self).prefix,
            final(self).terminated == old(self).terminated,
            final(self).label_counter == old(self).label_counter,
    {
        let idx = self.write_loop_counter;
        self.write_loop_counter = bump(idx);
        let mut a = self.prefix.clone();
        put(&mut a, "_");
        put(&mut a, "write_strlen_loop");
        put(&mut a, "_");
        put_usize(&mut a, idx);
        let mut b = self.prefix.clone();
        put(&mut b, "_");
        put(&mut b, "write_strlen_done");
        put(&mut b, "_");
        put_usize(&mut b, idx);
        assert(a@ =~= local_label(self.prefix@, "write_strlen_loop"@, idx));
        assert(b@ =~= local_label(self.prefix@, "write_strlen_done"@, idx));
        (a, b)
    }
}

/// The jump into a continuation: its environment end pointer into `r12`, the result
/// (when there is one) into the environment's last word, then a tail jump to the entry
/// point stored in its metadata.
#[verifier::opaque]
pub open spec fn value_jump_text(frame: FrameView, target: Seq<char>, has_result: bool) -> Result<Seq<char>, Seq<char>> {
    match frame.offset_of(target) {
        None => Err(unknown_binding_message(target)),
        Some(o) => Ok(
            ln("    mov r12, [rbp-"@ + int_text(o as int) + "] ; load continuation env_end pointer"@)
            + (if has_result { store_at_text("r12"@, -1, "rax"@) } else { seq![] })
            + ln("    mov rax, [r12+0] ; load continuation entry point"@)
            + ln("    mov rdi, r12 ; pass env_end pointer to continuation"@)
            + ln("    leave ; unwind before jumping"@)
            + ln("    jmp rax"@)
        ),
    }
}

/// Appends the jump into the continuation bound to `target`.
pub fn emit_value_jump(out: &mut String, frame: &FrameLayout, target: &str, has_result: bool) -> (r: Result<(), Error>)
    ensures
        match value_jump_text(frame@, target@, has_result) {
            Ok(t) => r is Ok && final(out)@ == old(out)@ + t,
            Err(m) => is_codegen_error(r, m),
        },
{
    reveal(value_jump_text);
    let o = match frame.binding(target) {
        Some(b) => b.offset,
        None => { return Err(unknown_binding(target)); },
    };
    let ghost start = out@;
    put(out, "    mov r12, [rbp-");
    put_int(out, o as i64);
    put(out, "] ; load continuation env_end pointer");
    put(out, "\n");
    let ghost mid = out@;
    if has_result {
        store_at(out, "r12", -1, "rax");
    }
    assert(out@ =~= mid + (if has_result { store_at_text("r12"@, -1, "rax"@) } else { seq![] }));
    put(out, "    mov rax, [r12+0] ; load continuation entry point");
    put(out, "\n");
    put(out, "    mov rdi, r12 ; pass env_end pointer to continuation");
    put(out, "\n");
    put(out, "    leave ; unwind before jumping");
    put(out, "\n");
    put(out, "    jmp rax");
    put(out, "\n");
    assert(out@ =~= start + value_jump_text(frame@, target@, has_result)->Ok_0);
    Ok(())
}


// ---------------------------------------------------------------------------
// Jumps and conditions
// ---------------------------------------------------------------------------

/// `jmp {target}`.
pub open spec fn jump_text(target: Seq<char>) -> Seq<char> {
    ln("    jmp "@ + target)
}

/// The comparison of two integer arguments that jumps to `target` when they are equal.
pub open spec fn int_condition_text(frame: FrameView, args: Seq<AirArg>, target: Seq<char>) -> Result<Seq<char>, Seq<char>> {
    if args.len() < 2 {
        Err("eq builtin requires two arguments"@)
    } else {
        cat(load_arg_text(frame, args[0], "rax"@), cat(load_arg_text(frame, args[1], "rbx"@),
            Ok(ln("    cmp rax, rbx"@) + ln("    je "@ + target))))
    }
}

/// Appends the integer equality test of `args` that jumps to `target`.
pub fn emit_builtin_int_condition(out: &mut String, frame: &FrameLayout, args: &Vec<AirArg>, target: &str) -> (r: Result<(), Error>)
    ensures
        match int_condition_text(frame@, args@, target@) {
            Ok(t) => r is Ok && final(out)@ == old(out)@ + t,
            Err(m) => is_codegen_error(r, m),
        },
{
    if args.len() < 2 {
        return Err(codegen_error("eq builtin requires two arguments"));
    }
    let ghost start = out@;
    match load_arg_into_reg(out, frame, &args[0], "rax") {
        Err(e) => { return Err(e); },
        Ok(()) => {},
    }
    let ghost first = out@;
    match load_arg_into_reg(out, frame, &args[1], "rbx") {
        Err(e) => { return Err(e); },
        Ok(()) => {},
    }
    let ghost second = out@;
    put(out, "    cmp rax, rbx");
    put(out, "\n");
    put(out, "    je ");
    put(out, target);
    put(out, "\n");
    assert(out@ =~= second + (ln("    cmp rax, rbx"@) + ln("    je "@ + target@)));
    assert(out@ =~= start + int_condition_text(frame@, args@, target@)->Ok_0);
    Ok(())
}

/// The byte-by-byte comparison of two string arguments: to `true_label` when they are
/// equal, to `false_label` at the first difference.
pub open spec fn string_condition_text(
    frame: FrameView,
    args: Seq<AirArg>,
    true_label: Seq<char>,
    false_label: Seq<char>,
    loop_label: Seq<char>,
) -> Result<Seq<char>, Seq<char>> {
    if args.len() < 2 {
        Err("eqs builtin requires two arguments"@)
    } else {
        cat(load_arg_text(frame, args[0], "rax"@), cat(load_arg_text(frame, args[1], "rbx"@),
            Ok(string_loop_text(true_label, false_label, loop_label))))
    }
}

/// The comparison loop over the strings at `r10` and `r11`.
pub open spec fn string_loop_text(true_label: Seq<char>, false_label: Seq<char>, loop_label: Seq<char>) -> Seq<char> {
    string_loop_head_text(loop_label) + string_loop_tail_text(true_label, false_label, loop_label)
}

/// The pointers into `r10` and `r11`, and the comparison of their current bytes.
pub open spec fn string_loop_head_text(loop_label: Seq<char>) -> Seq<char> {
    ln("    mov r10, rax ; load first string pointer"@)
    + ln("    mov r11, rbx ; load second string pointer"@)
    + label_line(loop_label)
    + ln("    mov al, byte [r10]"@)
    + ln("    mov dl, byte [r11]"@)
    + ln("    cmp al, dl"@)
}

/// The exits of the loop and the step to the next bytes.
pub open spec fn string_loop_tail_text(true_label: Seq<char>, false_label: Seq<char>, loop_label: Seq<char>) -> Seq<char> {
    ln("    jne "@ + false_label + " ; bytes differ"@)
    + ln("    test al, al"@)
    + ln("    je "@ + true_label)
    + ln("    inc r10"@)
    + ln("    inc r11"@)
    + ln("    jmp "@ + loop_label)
}

fn put_string_loop_head(out: &mut String, loop_label: &str)
    ensures
        final(out)@ == old(out)@ + string_loop_head_text(loop_label@),
{
    let mut t = new_text("    mov r10, rax ; load first string pointer");
    add_line(&mut t, "    mov r11, rbx ; load second string pointer");
    add_line(&mut t, join2(loop_label, ":").as_str());
    add_line(&mut t, "    mov al, byte [r10]");
    add_line(&mut t, "    mov dl, byte [r11]");
    add_line(&mut t, "    cmp al, dl");
    put(out, t.as_str());
}

fn put_string_loop_tail(out: &mut String, true_label: &str, false_label: &str, loop_label: &str)
    ensures
        final(out)@ == old(out)@ + string_loop_tail_text(true_label@, false_label@, loop_label@),
{
    let mut t = new_text(join3("    jne ", false_label, " ; bytes differ").as_str());
    add_line(&mut t, "    test al, al");
    add_line(&mut t, join2("    je ", true_label).as_str());
    add_line(&mut t, "    inc r10");
    add_line(&mut t, "    inc r11");
    add_line(&mut t, join2("    jmp ", loop_label).as_str());
    put(out, t.as_str());
}

fn put_string_loop(out: &mut String, true_label: &str, false_label: &str, loop_label: &str)
    ensures
        final(out)@ == old(out)@ + string_loop_text(true_label@, false_label@, loop_label@),
{
    let ghost start = out@;
    put_string_loop_head(out, loop_label);
    put_string_loop_tail(out, true_label, false_label, loop_label);
    assert(out@ =~= start + string_loop_text(true_label@, false_label@, loop_label@));
}

/// The string equality test of `args` that jumps to `target`, with the local labels
/// numbered from `counter`: the label after the test (reached when the strings differ)
/// first, then the label of the comparison loop.
pub open spec fn eq_str_text(frame: FrameView, prefix: Seq<char>, counter: usize, args: Seq<AirArg>, target: Seq<char>) -> Result<Seq<char>, Seq<char>> {
    let false_label = local_label(prefix, "eqs_false"@, counter);
    let loop_label = local_label(prefix, "eqs_loop"@, next_count(counter));
    cat(string_condition_text(frame, args, target, false_label, loop_label), Ok(label_line(false_label)))
}

/// The comparison of two values that jumps to `target` when `mnemonic` holds of them.
pub open spec fn compare_jump_text(frame: FrameView, left: AirValue, right: AirValue, mnemonic: Seq<char>, target: Seq<char>) -> Result<Seq<char>, Seq<char>> {
    cat(load_value_text(frame, left, "rax"@), cat(load_value_text(frame, right, "rbx"@),
        Ok(ln("    cmp rax, rbx"@) + ln("    "@ + mnemonic + " "@ + target))))
}

/// Appends the comparison of `left` and `right` that jumps to `target` when `mnemonic`
/// holds of them.
pub fn emit_compare_jump(out: &mut String, frame: &FrameLayout, left: &AirValue, right: &AirValue, mnemonic: &str, target: &str) -> (r: Result<(), Error>)
    ensures
        match compare_jump_text(frame@, *left, *right, mnemonic@, target@) {
            Ok(t) => r is Ok && final(out)@ == old(out)@ + t,
            Err(m) => is_codegen_error(r, m),
        },
{
    let ghost start = out@;
    match load_value_into_reg(out, frame, left, "rax") {
        Err(e) => { return Err(e); },
        Ok(()) => {},
    }
    match load_value_into_reg(out, frame, right, "rbx") {
        Err(e) => { return Err(e); },
        Ok(()) => {},
    }
    let ghost second = out@;
    put(out, "    cmp rax, rbx");
    put(out, "\n");
    put(out, "    ");
    put(out, mnemonic);
    put(out, " ");
    put(out, target);
    put(out, "\n");
    assert(out@ =~= second + (ln("    cmp rax, rbx"@) + ln("    "@ + mnemonic@ + " "@ + target@)));
    assert(out@ =~= start + compare_jump_text(frame@, *left, *right, mnemonic@, target@)->Ok_0);
    Ok(())
}

impl FunctionEmitter {
    /// Appends the string equality test of `args` that jumps to `target`.
    pub fn emit_eq_str_jump(&mut self, args: &Vec<AirArg>, target: &str) -> (r: Result<(), Error>)
        ensures
            final(self).same_frame(*old(self)),
            final(self).terminated == old(self).terminated,
            final(self).write_loop_counter == old(self).write_loop_counter,
            match eq_str_text(old(self).frame@, old(self).prefix@, old(self).label_counter, args@, target@) {
                Ok(t) => r is Ok && final(self).out@ == old(self).out@ + t
                    && final(self).label_counter == next_count(next_count(old(self).label_counter)),
                Err(m) => is_codegen_error(r, m),
            },
    {
        let false_label = self.new_label("eqs_false");
        if args.len() < 2 {
            return Err(codegen_error("eqs builtin requires two arguments"));
        }
        let ghost start = self.out@;
        match load_arg_into_reg(&mut self.out, &self.frame, &args[0], "rax") {
            Err(e) => { return Err(e); },
            Ok(()) => {},
        }
        match load_arg_into_reg(&mut self.out, &self.frame, &args[1], "rbx") {
            Err(e) => { return Err(e); },
            Ok(()) => {},
        }
        let loop_label = self.new_label("eqs_loop");
        put_string_loop(&mut self.out, target, false_label.as_str(), loop_label.as_str());
        put(&mut self.out, false_label.as_str());
        put(&mut self.out, ":");
        put(&mut self.out, "\n");
        assert(self.out@ =~= start + eq_str_text(old(self).frame@, old(self).prefix@, old(self).label_counter, args@, target@)->Ok_0);
        Ok(())
    }
}

// ---------------------------------------------------------------------------
// Environments and heap pointers
// ---------------------------------------------------------------------------

/// Whether an environment offset lies in the range that the emitter addresses.
pub open spec fn offset_in_range(offset: isize) -> bool {
    -MAX_ENV_OFFSET <= offset <= MAX_ENV_OFFSET
}

/// The message for an environment offset outside that range.
pub open spec fn offset_range_message() -> Seq<char> {
    "environment offset out of range"@
}

/// The release of a closure environment through the runtime helper: the end pointer
/// from the binding's slot, or from `r12` where the name has no slot (the pinned
/// environment).
pub open spec fn release_text(frame: FrameView, name: Seq<char>) -> Seq<char> {
    (match frame.offset_of(name) {
        Some(o) => ln("    mov rdi, [rbp-"@ + int_text(o as int) + "] ; load "@ + name + " closure env_end pointer"@),
        None => ln("    mov rdi, r12 ; use pinned "@ + name + " env_end pointer"@),
    }) + ln("    call release_heap_ptr ; release "@ + name + " closure environment"@)
}

/// Appends the release of the environment of `name`.
pub fn emit_release_heap_ptr(out: &mut String, frame: &FrameLayout, name: &str)
    ensures
        final(out)@ == old(out)@ + release_text(frame@, name@),
{
    let ghost start = out@;
    match frame.binding(name) {
        Some(b) => {
            let o = b.offset;
            put(out, "    mov rdi, [rbp-");
            put_int(out, o as i64);
            put(out, "] ; load ");
            put(out, name);
            put(out, " closure env_end pointer");
            put(out, "\n");
        },
        None => {
            put(out, "    mov rdi, r12 ; use pinned ");
            put(out, name);
            put(out, " env_end pointer");
            put(out, "\n");
        },
    }
    put(out, "    call release_heap_ptr ; release ");
    put(out, name);
    put(out, " closure environment");
    put(out, "\n");
    assert(out@ =~= start + release_text(frame@, name@));
}

/// The load of environment word `offset` (relative to `r12`) into the slot of `result`.
pub open spec fn get_field_text(frame: FrameView, offset: isize, result: Seq<char>) -> Result<Seq<char>, Seq<char>> {
    if !offset_in_range(offset) {
        Err(offset_range_message())
    } else {
        cat(Ok(ln("    mov rax, ["@ + env_field_text("r12"@, offset as int) + "] ; load "@ + result + " env field"@)),
            store_binding_text(frame, result))
    }
}

/// Appends the load of environment word `offset` into the slot of `result`.
pub fn emit_get_field(out: &mut String, frame: &FrameLayout, offset: isize, result: &str) -> (r: Result<(), Error>)
    ensures
        match get_field_text(frame@, offset, result@) {
            Ok(t) => r is Ok && final(out)@ == old(out)@ + t,
            Err(m) => is_codegen_error(r, m),
        },
{
    if offset < -MAX_ENV_OFFSET || offset > MAX_ENV_OFFSET {
        return Err(codegen_error("environment offset out of range"));
    }
    let ghost start = out@;
    put(out, "    mov rax, [");
    env_field_operand(out, "r12", offset);
    put(out, "] ; load ");
    put(out, result);
    put(out, " env field");
    put(out, "\n");
    let ghost mid = out@;
    assert(mid =~= start + ln("    mov rax, ["@ + env_field_text("r12"@, offset as int) + "] ; load "@ + result@ + " env field"@));
    let r = store_binding_value(out, frame, result);
    proof {
        if r is Ok {
            assert(out@ =~= start + get_field_text(frame@, offset, result@)->Ok_0);
        }
    }
    r
}

/// The store of an argument into environment word `offset` (relative to `r12`).
pub open spec fn set_field_text(frame: FrameView, offset: isize, value: AirArg) -> Result<Seq<char>, Seq<char>> {
    if !offset_in_range(offset) {
        Err(offset_range_message())
    } else {
        cat(load_arg_text(frame, value, "rcx"@), Ok(store_at_text("r12"@, offset as int, "rcx"@)))
    }
}

/// Appends the store of `value` into environment word `offset`.
pub fn emit_set_field(out: &mut String, frame: &FrameLayout, offset: isize, value: &AirArg) -> (r: Result<(), Error>)
    ensures
        match set_field_text(frame@, offset, *value) {
            Ok(t) => r is Ok && final(out)@ == old(out)@ + t,
            Err(m) => is_codegen_error(r, m),
        },
{
    if offset < -MAX_ENV_OFFSET || offset > MAX_ENV_OFFSET {
        return Err(codegen_error("environment offset out of range"));
    }
    let ghost start = out@;
    match load_arg_into_reg(out, frame, value, "rcx") {
        Err(e) => { return Err(e); },
        Ok(()) => {},
    }
    store_at(out, "r12", offset, "rcx");
    assert(out@ =~= start + set_field_text(frame@, offset, *value)->Ok_0);
    Ok(())
}

/// The deep copy of the heap pointer in environment word `offset` (relative to `r12`),
/// written back to the word and stored into the slot of `result`.
pub open spec fn copy_field_text(frame: FrameView, offset: isize, result: Seq<char>) -> Result<Seq<char>, Seq<char>> {
    if !offset_in_range(offset) {
        Err(offset_range_message())
    } else {
        let addr = env_field_text("r12"@, offset as int);
        cat(Ok(ln("    mov rcx, ["@ + addr + "] ; load field pointer"@)
            + ln("    mov rdi, rcx ; copy pointer argument for deepcopy"@)
            + ln("    call deepcopy_heap_ptr ; duplicate heap pointer"@)
            + ln("    mov ["@ + addr + "], rax ; store duplicated pointer"@)),
            store_binding_text(frame, result))
    }
}

/// Appends the deep copy of the heap pointer in environment word `offset`.
pub fn emit_copy_field(out: &mut String, frame: &FrameLayout, offset: isize, result: &str) -> (r: Result<(), Error>)
    ensures
        match copy_field_text(frame@, offset, result@) {
            Ok(t) => r is Ok && final(out)@ == old(out)@ + t,
            Err(m) => is_codegen_error(r, m),
        },
{
    if offset < -MAX_ENV_OFFSET || offset > MAX_ENV_OFFSET {
        return Err(codegen_error("environment offset out of range"));
    }
    let ghost start = out@;
    let ghost addr = env_field_text("r12"@, offset as int);
    put(out, "    mov rcx, [");
    env_field_operand(out, "r12", offset);
    put(out, "] ; load field pointer");
    put(out, "\n");
    put(out, "    mov rdi, rcx ; copy pointer argument for deepcopy");
    put(out, "\n");
    put(out, "    call deepcopy_heap_ptr ; duplicate heap pointer");
    put(out, "\n");
    put(out, "    mov [");
    env_field_operand(out, "r12", offset);
    put(out, "], rax ; store duplicated pointer");
    put(out, "\n");
    let ghost mid = out@;
    assert(mid =~= start + (ln("    mov rcx, ["@ + addr + "] ; load field pointer"@)
        + ln("    mov rdi, rcx ; copy pointer argument for deepcopy"@)
        + ln("    call deepcopy_heap_ptr ; duplicate heap pointer"@)
        + ln("    mov ["@ + addr + "], rax ; store duplicated pointer"@)));
    let r = store_binding_value(out, frame, result);
    proof {
        if r is Ok {
            assert(out@ =~= start + copy_field_text(frame@, offset, result@)->Ok_0);
        }
    }
    r
}

/// The release of the heap pointer held by `name` through the runtime helper.
pub open spec fn call_ptr_text(frame: FrameView, name: String) -> Result<Seq<char>, Seq<char>> {
    cat(load_value_text(frame, AirValue::Binding(name), "rdi"@), Ok(ln("    call release_heap_ptr ; release heap pointer"@)))
}

/// Appends the release of the heap pointer held by `name`.
pub fn emit_call_ptr(out: &mut String, frame: &FrameLayout, name: &String) -> (r: Result<(), Error>)
    ensures
        match call_ptr_text(frame@, *name) {
            Ok(t) => r is Ok && final(out)@ == old(out)@ + t,
            Err(m) => is_codegen_error(r, m),
        },
{
    let ghost start = out@;
    let v = AirValue::Binding(name.clone());
    assert(v == AirValue::Binding(*name));
    match load_value_into_reg(out, frame, &v, "rdi") {
        Err(e) => { return Err(e); },
        Ok(()) => {},
    }
    put(out, "    call release_heap_ptr ; release heap pointer");
    put(out, "\n");
    assert(out@ =~= start + call_ptr_text(frame@, *name)->Ok_0);
    Ok(())
}

// ---------------------------------------------------------------------------
// Arithmetic
// ---------------------------------------------------------------------------

/// Two integer arguments into `rax` and `rbx`, one instruction, and the jump that hands
/// `rax` to the continuation `target`.
pub open spec fn binary_text(frame: FrameView, a: AirArg, b: AirArg, target: Seq<char>, opcode: Seq<char>, comment: Seq<char>) -> Result<Seq<char>, Seq<char>> {
    cat(load_arg_text(frame, a, "rax"@), cat(load_arg_text(frame, b, "rbx"@),
        cat(Ok(ln("    "@ + opcode + " rax, rbx ; "@ + comment)), value_jump_text(frame, target, true))))
}

/// Appends an integer operation and the jump into its continuation.
pub fn emit_binary_op(out: &mut String, frame: &FrameLayout, a: &AirArg, b: &AirArg, target: &str, opcode: &str, comment: &str) -> (r: Result<(), Error>)
    ensures
        match binary_text(frame@, *a, *b, target@, opcode@, comment@) {
            Ok(t) => r is Ok && final(out)@ == old(out)@ + t,
            Err(m) => is_codegen_error(r, m),
        },
{
    let ghost start = out@;
    match load_arg_into_reg(out, frame, a, "rax") {
        Err(e) => { return Err(e); },
        Ok(()) => {},
    }
    match load_arg_into_reg(out, frame, b, "rbx") {
        Err(e) => { return Err(e); },
        Ok(()) => {},
    }
    put(out, "    ");
    put(out, opcode);
    put(out, " rax, rbx ; ");
    put(out, comment);
    put(out, "\n");
    let r = emit_value_jump(out, frame, target, true);
    proof {
        if r is Ok {
            assert(out@ =~= start + binary_text(frame@, *a, *b, target@, opcode@, comment@)->Ok_0);
        }
    }
    r
}

/// Checked division: to the error continuation (with the dividend) when the divisor is
/// zero, else the quotient to the success continuation; the local label of the error
/// branch is numbered `counter`.
pub open spec fn div_text(frame: FrameView, prefix: Seq<char>, counter: usize, a: AirArg, b: AirArg, err_target: Seq<char>, ok_target: Seq<char>) -> Result<Seq<char>, Seq<char>> {
    let zero = local_label(prefix, "div_zero"@, counter);
    cat(load_arg_text(frame, a, "rax"@), cat(load_arg_text(frame, b, "rbx"@),
        cat(Ok(div_core_text(zero)),
        cat(value_jump_text(frame, ok_target, true),
        cat(Ok(label_line(zero)), value_jump_text(frame, err_target, true))))))
}

impl FunctionEmitter {
    /// Appends checked division of `a` by `b`.
    /// Appends checked division of `a` by `b`.
    pub fn emit_div(&mut self, a: &AirArg, b: &AirArg, err_target: &str, ok_target: &str) -> (r: Result<(), Error>)
        ensures
            final(self).same_frame(*old(self)),
            final(self).terminated == old(self).terminated,
            final(self).write_loop_counter == old(self).write_loop_counter,
            match div_text(old(self).frame@, old(self).prefix@, old(self).label_counter, *a, *b, err_target@, ok_target@) {
                Ok(t) => r is Ok && final(self).out@ == old(self).out@ + t
                    && final(self).label_counter == next_count(old(self).label_counter),
                Err(m) => is_codegen_error(r, m),
            },
    {
        let zero = self.new_label("div_zero");
        let ghost start = self.out@;
        match load_arg_into_reg(&mut self.out, &self.frame, a, "rax") {
            Err(e) => { return Err(e); },
            Ok(()) => {},
        }
        let ghost s1 = self.out@;
        match load_arg_into_reg(&mut self.out, &self.frame, b, "rbx") {
            Err(e) => { return Err(e); },
            Ok(()) => {},
        }
        let ghost s2 = self.out@;
        put_div_core(&mut self.out, zero.as_str());
        let ghost s3 = self.out@;
        match emit_value_jump(&mut self.out, &self.frame, ok_target, true) {
            Err(e) => { return Err(e); },
            Ok(()) => {},
        }
        let ghost s4 = self.out@;
        put(&mut self.out, zero.as_str());
        put(&mut self.out, ":");
        put(&mut self.out, "\n");
        let ghost s5 = self.out@;
        assert(s5 =~= s4 + label_line(zero@));
        match emit_value_jump(&mut self.out, &self.frame, err_target, true) {
            Err(e) => { return Err(e); },
            Ok(()) => {},
        }
        proof {
            let ta = s1.subrange(start.len() as int, s1.len() as int);
            let f = old(self).frame@;
            let ghost t = div_text(f, old(self).prefix@, old(self).label_counter, *a, *b, err_target@, ok_target@);
            let ghost ok_jump = value_jump_text(f, ok_target@, true)->Ok_0;
            let ghost err_jump = value_jump_text(f, err_target@, true)->Ok_0;
            let ghost la = load_arg_text(f, *a, "rax"@)->Ok_0;
            let ghost lb = load_arg_text(f, *b, "rbx"@)->Ok_0;
            assert(s3 == s2 + div_core_text(zero@));
            assert(t == Ok::<Seq<char>, Seq<char>>(la + (lb + (div_core_text(zero@) + (ok_jump + (label_line(zero@) + err_jump))))));
            assert(self.out@ =~= start + (la + (lb + (div_core_text(zero@) + (ok_jump + (label_line(zero@) + err_jump))))));
        }
        Ok(())
    }
}

/// The test for a zero divisor and the division of `rax` by `rbx`.
pub open spec fn div_core_text(zero: Seq<char>) -> Seq<char> {
    ln("    cmp rbx, 0 ; check for division by zero"@)
    + ln("    je "@ + zero)
    + ln("    cqo ; sign extend dividend"@)
    + ln("    idiv rbx ; divide by divisor"@)
}

fn put_div_core(out: &mut String, zero: &str)
    ensures
        final(out)@ == old(out)@ + div_core_text(zero@),
{
    let mut t = new_text("    cmp rbx, 0 ; check for division by zero");
    add_line(&mut t, join2("    je ", zero).as_str());
    add_line(&mut t, "    cqo ; sign extend dividend");
    add_line(&mut t, "    idiv rbx ; divide by divisor");
    put(out, t.as_str());
}

// ---------------------------------------------------------------------------
// Leaving the function
// ---------------------------------------------------------------------------

/// The exit through libc's `exit`, which flushes the output buffers.
pub open spec fn exit_text() -> Seq<char> {
    ln("    ; load exit code"@) + ln("    mov rdi, 0 ; exit code"@) + ln("    call exit ; call libc exit to flush buffers"@)
}

/// Appends the exit of the program.
pub fn emit_exit_syscall(out: &mut String)
    ensures
        final(out)@ == old(out)@ + exit_text(),
{
    let mut t = new_text("    ; load exit code");
    add_line(&mut t, "    mov rdi, 0 ; exit code");
    add_line(&mut t, "    call exit ; call libc exit to flush buffers");
    put(out, t.as_str());
}

/// The return from the function, with the value of a binding in `rax` when it has one.
pub open spec fn return_text(frame: FrameView, value: Option<String>) -> Result<Seq<char>, Seq<char>> {
    cat(match value {
        Some(name) => match frame.offset_of(name@) {
            Some(o) => Ok(ln("    mov rax, [rbp-"@ + int_text(o as int) + "] ; load return value"@)),
            None => Err(unknown_binding_message(name@)),
        },
        None => Ok(seq![]),
    }, Ok(ln("    leave"@) + ln("    ret"@) + ln(seq![])))
}

/// Appends the return from the function.
pub fn emit_return(out: &mut String, frame: &FrameLayout, value: &Option<String>) -> (r: Result<(), Error>)
    ensures
        match return_text(frame@, *value) {
            Ok(t) => r is Ok && final(out)@ == old(out)@ + t,
            Err(m) => is_codegen_error(r, m),
        },
{
    let ghost start = out@;
    match value {
        Some(name) => {
            match frame.binding(name.as_str()) {
                Some(b) => {
                    let o = b.offset;
                    put(out, "    mov rax, [rbp-");
                    put_int(out, o as i64);
                    put(out, "] ; load return value");
                    put(out, "\n");
                },
                None => { return Err(unknown_binding(name.as_str())); },
            }
        },
        None => {},
    }
    put(out, "    leave");
    put(out, "\n");
    put(out, "    ret");
    put(out, "\n");
    put(out, "\n");
    assert(out@ =~= start + return_text(frame@, *value)->Ok_0);
    Ok(())
}


// ---------------------------------------------------------------------------
// Heap environments
// ---------------------------------------------------------------------------

/// An anonymous private mapping of `size` bytes (at least one) through the `mmap`
/// system call; its address comes back in `rax`.
pub open spec fn mmap_text(size: usize) -> Seq<char> {
    ln("    mov rax, 9 ; mmap syscall"@)
    + ln("    xor rdi, rdi ; addr hint for kernel base selection"@)
    + ln("    mov rsi, "@ + int_text(if size == 0 { 1 } else { size as int }) + " ; length for allocation"@)
    + ln("    mov rdx, 3 ; prot = read/write"@)
    + ln("    mov r10, 34 ; flags: private & anonymous"@)
    + ln("    mov r8, -1 ; fd = -1"@)
    + ln("    xor r9, r9 ; offset = 0"@)
    + ln("    syscall ; allocate env pages"@)
}

/// Appends a mapping of `size` bytes.
pub fn emit_mmap(out: &mut String, size: usize)
    ensures
        final(out)@ == old(out)@ + mmap_text(size),
{
    let length: usize = if size == 0 { 1 } else { size };
    let mut t = new_text("    mov rax, 9 ; mmap syscall");
    add_line(&mut t, "    xor rdi, rdi ; addr hint for kernel base selection");
    add_line(&mut t, join_usize("    mov rsi, ", length, " ; length for allocation").as_str());
    add_line(&mut t, "    mov rdx, 3 ; prot = read/write");
    add_line(&mut t, "    mov r10, 34 ; flags: private & anonymous");
    add_line(&mut t, "    mov r8, -1 ; fd = -1");
    add_line(&mut t, "    xor r9, r9 ; offset = 0");
    add_line(&mut t, "    syscall ; allocate env pages");
    put(out, t.as_str());
}

/// The first part of a copy of a closure environment: its sizes from the metadata below
/// the end pointer in `src`, and a mapping of the environment's size.
pub open spec fn clone_env_head_text(src: Seq<char>) -> Seq<char> {
    ln("    mov rbx, "@ + src + " ; clone source env_end pointer"@)
    + ln("    mov r13, [rbx+24] ; load env size metadata for clone"@)
    + ln("    mov r14, [rbx+32] ; load heap size metadata for clone"@)
    + ln("    mov r12, rbx ; compute env base pointer for clone"@)
    + ln("    sub r12, r13 ; env base pointer for clone source"@)
    + ln("    mov rax, 9 ; mmap syscall"@)
    + ln("    xor rdi, rdi ; addr hint for kernel base selection"@)
    + ln("    mov rsi, r14 ; length for cloned environment"@)
    + ln("    mov rdx, 3 ; prot = read/write"@)
}

/// The second part: the rest of the mapping and the byte copy.
pub open spec fn clone_env_copy_text() -> Seq<char> {
    ln("    mov r10, 34 ; flags: private & anonymous"@)
    + ln("    mov r8, -1 ; fd = -1"@)
    + ln("    xor r9, r9 ; offset = 0"@)
    + ln("    syscall ; allocate cloned env pages"@)
    + ln("    mov r15, rax ; cloned closure env base pointer"@)
    + ln("    mov rsi, r12 ; source env base for clone copy"@)
    + ln("    mov rdi, r15 ; destination env base for clone copy"@)
    + ln("    mov rcx, r14 ; bytes to copy for cloned env"@)
    + ln("    cld ; ensure forward copy for env clone"@)
    + ln("    rep movsb ; duplicate closure env data"@)
}

/// The last part: the copy's end pointer into `dst`, and the deep copy of its captured
/// heap values through the helper recorded in its metadata.
pub open spec fn clone_env_tail_text(dst: Seq<char>) -> Seq<char> {
    ln("    mov rbx, r15 ; start from cloned env base"@)
    + ln("    add rbx, r13 ; compute cloned env_end pointer"@)
    + ln("    mov "@ + dst + ", rbx ; cloned env_end pointer"@)
    + ln("    mov rax, ["@ + dst + "+16] ; load deepcopy helper entry point"@)
    + ln("    push "@ + dst + " ; preserve cloned env_end pointer"@)
    + ln("    mov rdi, "@ + dst + " ; pass env_end pointer to deepcopy helper"@)
    + ln("    call rax ; deepcopy reference fields"@)
    + ln("    pop "@ + dst + " ; restore cloned env_end pointer"@)
}

/// The copy of the closure environment whose end pointer is in `src`; the copy's end
/// pointer ends in `dst`.
pub open spec fn clone_env_text(src: Seq<char>, dst: Seq<char>) -> Seq<char> {
    clone_env_head_text(src) + clone_env_copy_text() + clone_env_tail_text(dst)
}

fn put_clone_env_head(out: &mut String, src: &str)
    ensures
        final(out)@ == old(out)@ + clone_env_head_text(src@),
{
    let mut t = new_text(join3("    mov rbx, ", src, " ; clone source env_end pointer").as_str());
    add_line(&mut t, "    mov r13, [rbx+24] ; load env size metadata for clone");
    add_line(&mut t, "    mov r14, [rbx+32] ; load heap size metadata for clone");
    add_line(&mut t, "    mov r12, rbx ; compute env base pointer for clone");
    add_line(&mut t, "    sub r12, r13 ; env base pointer for clone source");
    add_line(&mut t, "    mov rax, 9 ; mmap syscall");
    add_line(&mut t, "    xor rdi, rdi ; addr hint for kernel base selection");
    add_line(&mut t, "    mov rsi, r14 ; length for cloned environment");
    add_line(&mut t, "    mov rdx, 3 ; prot = read/write");
    put(out, t.as_str());
}

fn put_clone_env_copy(out: &mut String)
    ensures
        final(out)@ == old(out)@ + clone_env_copy_text(),
{
    let mut t = new_text("    mov r10, 34 ; flags: private & anonymous");
    add_line(&mut t, "    mov r8, -1 ; fd = -1");
    add_line(&mut t, "    xor r9, r9 ; offset = 0");
    add_line(&mut t, "    syscall ; allocate cloned env pages");
    add_line(&mut t, "    mov r15, rax ; cloned closure env base pointer");
    add_line(&mut t, "    mov rsi, r12 ; source env base for clone copy");
    add_line(&mut t, "    mov rdi, r15 ; destination env base for clone copy");
    add_line(&mut t, "    mov rcx, r14 ; bytes to copy for cloned env");
    add_line(&mut t, "    cld ; ensure forward copy for env clone");
    add_line(&mut t, "    rep movsb ; duplicate closure env data");
    put(out, t.as_str());
}

fn put_clone_env_tail(out: &mut String, dst: &str)
    ensures
        final(out)@ == old(out)@ + clone_env_tail_text(dst@),
{
    let mut t = new_text("    mov rbx, r15 ; start from cloned env base");
    add_line(&mut t, "    add rbx, r13 ; compute cloned env_end pointer");
    add_line(&mut t, join3("    mov ", dst, ", rbx ; cloned env_end pointer").as_str());
    add_line(&mut t, join3("    mov rax, [", dst, "+16] ; load deepcopy helper entry point").as_str());
    add_line(&mut t, join3("    push ", dst, " ; preserve cloned env_end pointer").as_str());
    add_line(&mut t, join3("    mov rdi, ", dst, " ; pass env_end pointer to deepcopy helper").as_str());
    add_line(&mut t, "    call rax ; deepcopy reference fields");
    add_line(&mut t, join3("    pop ", dst, " ; restore cloned env_end pointer").as_str());
    put(out, t.as_str());
}

/// Appends the copy of the closure environment whose end pointer is in `src`.
pub fn emit_clone_env_from_env_end(out: &mut String, src: &str, dst: &str)
    ensures
        final(out)@ == old(out)@ + clone_env_text(src@, dst@),
{
    let ghost start = out@;
    put_clone_env_head(out, src);
    put_clone_env_copy(out);
    put_clone_env_tail(out, dst);
    assert(out@ =~= start + clone_env_text(src@, dst@));
}

/// The copy of the closure held by `src`, its end pointer left in `rax` (and `r12`).
pub open spec fn clone_closure_text(frame: FrameView, src: Seq<char>, dst: Seq<char>) -> Result<Seq<char>, Seq<char>> {
    match frame.offset_of(src) {
        None => Err(unknown_binding_message(src)),
        Some(o) => Ok(ln("    mov rbx, [rbp-"@ + int_text(o as int) + "] ; original closure "@ + src + " to "@ + dst + " env_end pointer for clone"@)
            + clone_env_text("rbx"@, "r12"@)
            + ln("    mov rax, r12 ; copy cloned env_end pointer"@)),
    }
}

/// Appends the copy of the closure held by `src`.
pub fn emit_clone_closure(out: &mut String, frame: &FrameLayout, src: &str, dst: &str) -> (r: Result<(), Error>)
    ensures
        match clone_closure_text(frame@, src@, dst@) {
            Ok(t) => r is Ok && final(out)@ == old(out)@ + t,
            Err(m) => is_codegen_error(r, m),
        },
{
    let o = match frame.binding(src) {
        Some(b) => b.offset,
        None => { return Err(unknown_binding(src)); },
    };
    let mut first = join_int("    mov rbx, [rbp-", o as i64, "] ; original closure ");
    push_str(&mut first, src);
    push_str(&mut first, " to ");
    push_str(&mut first, dst);
    push_str(&mut first, " env_end pointer for clone");
    let mut t = new_text(first.as_str());
    emit_clone_env_from_env_end(&mut t, "rbx", "r12");
    add_line(&mut t, "    mov rax, r12 ; copy cloned env_end pointer");
    put(out, t.as_str());
    Ok(())
}


/// The capture of argument `a` into environment word `index` (from `rbx`, the
/// environment's base): a closure is copied, so that the environment owns its own.
pub open spec fn capture_text(frame: FrameView, a: AirArg, kind: SigKind, index: int) -> Result<Seq<char>, Seq<char>> {
    cat(load_arg_text(frame, a, "rax"@), Ok(if kind is Sig {
        ln("    mov r12, rax ; shadow closure env_end pointer"@)
        + ln("    push rbx ; save env base pointer"@)
        + clone_env_text("r12"@, "r12"@)
        + ln("    mov rax, r12 ; copy closure env_end to rax"@)
        + ln("    pop rbx ; restore env base pointer"@)
        + ln("    mov [rbx+"@ + int_text(index * 8) + "], r12 ; capture cloned closure pointer"@)
    } else {
        ln("    mov [rbx+"@ + int_text(index * 8) + "], rax ; capture arg into env"@)
    }))
}

/// The captures of the first `k` arguments.
pub open spec fn captures_text(frame: FrameView, args: Seq<AirArg>, params: Seq<SigItem>, k: int) -> Result<Seq<char>, Seq<char>>
    decreases k,
{
    if k <= 0 {
        Ok(seq![])
    } else {
        cat(captures_text(frame, args, params, k - 1), capture_text(frame, args[k - 1], params[k - 1].kind, k - 1))
    }
}

/// Once a prefix of the captures fails, all longer ones fail the same way.
pub proof fn lemma_captures_err(frame: FrameView, args: Seq<AirArg>, params: Seq<SigItem>, k: int, k2: int)
    requires
        0 <= k <= k2,
        captures_text(frame, args, params, k) is Err,
    ensures
        captures_text(frame, args, params, k2) == captures_text(frame, args, params, k),
    decreases k2 - k,
{
    if k2 > k {
        lemma_captures_err(frame, args, params, k, k2 - 1);
    }
}

/// The largest number of words in a closure environment or an argument list.
pub const MAX_WORDS: usize = 0x1000_0000;

/// The text after the captures: the end pointer past the payload into `r12`, and the
/// metadata below it (sizes, entry points of the helpers, remaining parameters).
pub open spec fn closure_metadata_text(words: int, target: Seq<char>, remaining: int, name: Seq<char>) -> Seq<char> {
    (if words > 0 {
        ln("    mov r12, rbx ; env_end pointer before metadata"@)
        + ln("    add r12, "@ + int_text(words * 8) + " ; move pointer past env payload"@)
    } else {
        ln("    mov r12, rbx ; env_end pointer before metadata"@)
    })
    + ln("    mov rax, "@ + int_text(words * 8) + " ; store env size metadata"@)
    + ln("    mov qword [r12+24], rax ; env size metadata"@)
    + ln("    mov rax, "@ + int_text(words * 8 + 48) + " ; store heap size metadata"@)
    + ln("    mov qword [r12+32], rax ; heap size metadata"@)
    + ln("    lea rax, ["@ + (target + "_unwrapper"@) + "] ; load unwrapper entry point"@)
    + ln("    mov qword [r12+0], rax ; store unwrapper entry in metadata"@)
    + ln("    lea rax, ["@ + (target + "_deep_release"@) + "] ; load release helper entry point"@)
    + ln("    mov qword [r12+8], rax ; store release pointer in metadata"@)
    + ln("    lea rax, ["@ + (target + "_deepcopy"@) + "] ; load deep copy helper entry point"@)
    + ln("    mov qword [r12+16], rax ; store deep copy pointer in metadata"@)
    + ln("    mov qword [r12+40], "@ + int_text(remaining) + " ; store num_remaining"@)
    + ln("    mov rax, r12 ; copy "@ + name + " closure env_end to rax"@)
}

/// The creation of a closure: a heap environment of one word per parameter of its
/// target plus the metadata, the arguments captured in order, and the metadata filled
/// in; the end pointer is left in `rax`.
pub open spec fn new_closure_text(frame: FrameView, c: AirNewClosure) -> Result<Seq<char>, Seq<char>> {
    let words = c.target.params@.len();
    let count = if c.args@.len() < words { c.args@.len() } else { words };
    let remaining = if words >= c.args@.len() { words - c.args@.len() } else { 0 };
    if words > MAX_WORDS {
        Err(too_many_words_message())
    } else {
        cat(Ok(mmap_text((words * 8 + 48) as usize) + ln("    mov rbx, rax ; closure env base pointer"@)),
            cat(captures_text(frame, c.args@, c.target.params@, count as int),
                Ok(closure_metadata_text(words as int, c.target.name@, remaining as int, c.name@))))
    }
}

/// The message for an environment or argument list beyond `MAX_WORDS`.
pub open spec fn too_many_words_message() -> Seq<char> {
    "too many words in an environment or argument list"@
}

fn emit_capture(out: &mut String, frame: &FrameLayout, a: &AirArg, kind: &SigKind, index: usize) -> (r: Result<(), Error>)
    requires
        index < MAX_WORDS,
    ensures
        match capture_text(frame@, *a, *kind, index as int) {
            Ok(t) => r is Ok && final(out)@ == old(out)@ + t,
            Err(m) => is_codegen_error(r, m),
        },
{
    match load_arg_into_reg(out, frame, a, "rax") {
        Err(e) => { return Err(e); },
        Ok(()) => {},
    }
    let bytes: usize = index * 8;
    let mut t: String;
    if let SigKind::Sig(_) = kind {
        t = new_text("    mov r12, rax ; shadow closure env_end pointer");
        add_line(&mut t, "    push rbx ; save env base pointer");
        emit_clone_env_from_env_end(&mut t, "r12", "r12");
        add_line(&mut t, "    mov rax, r12 ; copy closure env_end to rax");
        add_line(&mut t, "    pop rbx ; restore env base pointer");
        add_line(&mut t, join_usize("    mov [rbx+", bytes, "], r12 ; capture cloned closure pointer").as_str());
    } else {
        t = new_text(join_usize("    mov [rbx+", bytes, "], rax ; capture arg into env").as_str());
    }
    put(out, t.as_str());
    Ok(())
}

fn emit_closure_metadata(out: &mut String, words: usize, c: &AirNewClosure, remaining: usize)
    requires
        words <= MAX_WORDS,
    ensures
        final(out)@ == old(out)@ + closure_metadata_text(words as int, c.target.name@, remaining as int, c.name@),
{
    let env_size: usize = words * 8;
    let heap_size: usize = env_size + 48;
    let mut t = new_text("    mov r12, rbx ; env_end pointer before metadata");
    if words > 0 {
        add_line(&mut t, join_usize("    add r12, ", env_size, " ; move pointer past env payload").as_str());
    }
    add_line(&mut t, join_usize("    mov rax, ", env_size, " ; store env size metadata").as_str());
    add_line(&mut t, "    mov qword [r12+24], rax ; env size metadata");
    add_line(&mut t, join_usize("    mov rax, ", heap_size, " ; store heap size metadata").as_str());
    add_line(&mut t, "    mov qword [r12+32], rax ; heap size metadata");
    let unwrapper = c.unwrapper_label();
    add_line(&mut t, join3("    lea rax, [", unwrapper.as_str(), "] ; load unwrapper entry point").as_str());
    add_line(&mut t, "    mov qword [r12+0], rax ; store unwrapper entry in metadata");
    let release = c.deep_release_label();
    add_line(&mut t, join3("    lea rax, [", release.as_str(), "] ; load release helper entry point").as_str());
    add_line(&mut t, "    mov qword [r12+8], rax ; store release pointer in metadata");
    let deepcopy = c.deepcopy_label();
    add_line(&mut t, join3("    lea rax, [", deepcopy.as_str(), "] ; load deep copy helper entry point").as_str());
    add_line(&mut t, "    mov qword [r12+16], rax ; store deep copy pointer in metadata");
    add_line(&mut t, join_usize("    mov qword [r12+40], ", remaining, " ; store num_remaining").as_str());
    add_line(&mut t, join3("    mov rax, r12 ; copy ", c.name.as_str(), " closure env_end to rax").as_str());
    put(out, t.as_str());
}

/// Appends the creation of the closure `c`.
pub fn emit_new_closure(out: &mut String, frame: &FrameLayout, c: &AirNewClosure) -> (r: Result<(), Error>)
    ensures
        match new_closure_text(frame@, *c) {
            Ok(t) => r is Ok && final(out)@ == old(out)@ + t,
            Err(m) => is_codegen_error(r, m),
        },
{
    let words = c.target.params.len();
    if words > MAX_WORDS {
        return Err(codegen_error("too many words in an environment or argument list"));
    }
    let n_args = c.args.len();
    let count = if n_args < words { n_args } else { words };
    let remaining = if words >= n_args { words - n_args } else { 0 };
    let ghost start = out@;
    let mut head = String::new();
    emit_mmap(&mut head, words * 8 + 48);
    add_line(&mut head, "    mov rbx, rax ; closure env base pointer");
    assert(head@ =~= mmap_text((words * 8 + 48) as usize) + ln("    mov rbx, rax ; closure env base pointer"@));
    put(out, head.as_str());
    let ghost after_head = out@;
    let mut i: usize = 0;
    while i < count
        invariant
            count <= c.args@.len(),
            count <= c.target.params@.len(),
            words == c.target.params@.len(),
            words <= MAX_WORDS,
            count as int == (if c.args@.len() < c.target.params@.len() { c.args@.len() } else { c.target.params@.len() }),
            i <= count,
            captures_text(frame@, c.args@, c.target.params@, i as int) matches Ok(t) && out@ == after_head + t,
        decreases count - i,
    {
        let ghost prev = captures_text(frame@, c.args@, c.target.params@, i as int)->Ok_0;
        match emit_capture(out, frame, &c.args[i], &c.target.params[i].kind, i) {
            Err(e) => {
                proof {
                    assert(captures_text(frame@, c.args@, c.target.params@, i + 1)
                        == capture_text(frame@, c.args@[i as int], c.target.params@[i as int].kind, i as int));
                    lemma_captures_err(frame@, c.args@, c.target.params@, i + 1, count as int);
                    let cap = captures_text(frame@, c.args@, c.target.params@, count as int);
                    assert(cap is Err);
                    assert(new_closure_text(frame@, *c) == cap);
                }
                return Err(e);
            },
            Ok(()) => {},
        }
        proof {
            let piece = capture_text(frame@, c.args@[i as int], c.target.params@[i as int].kind, i as int)->Ok_0;
            lemma_concat_associative(after_head, prev, piece);
        }
        i = i + 1;
    }
    emit_closure_metadata(out, words, c, remaining);
    proof {
        let captured = captures_text(frame@, c.args@, c.target.params@, count as int)->Ok_0;
        let meta = closure_metadata_text(words as int, c.target.name@, remaining as int, c.name@);
        lemma_concat_associative(after_head, captured, meta);
        lemma_concat_associative(start, head@, captured + meta);
    }
    Ok(())
}

// ---------------------------------------------------------------------------
// Argument passing
// ---------------------------------------------------------------------------

/// The push of argument `a`.
pub open spec fn push_arg_text(frame: FrameView, a: AirArg) -> Result<Seq<char>, Seq<char>> {
    cat(load_arg_text(frame, a, "rax"@), Ok(ln("    push rax ; stack arg"@)))
}

/// The pushes of the last `k` arguments, the last argument first.
pub open spec fn prepare_args_text(frame: FrameView, args: Seq<AirArg>, k: int) -> Result<Seq<char>, Seq<char>>
    decreases k,
{
    if k <= 0 {
        Ok(seq![])
    } else {
        cat(prepare_args_text(frame, args, k - 1), push_arg_text(frame, args[args.len() - k]))
    }
}

/// Once the pushes fail, more pushes fail the same way.
pub proof fn lemma_prepare_args_err(frame: FrameView, args: Seq<AirArg>, k: int, k2: int)
    requires
        0 <= k <= k2,
        prepare_args_text(frame, args, k) is Err,
    ensures
        prepare_args_text(frame, args, k2) == prepare_args_text(frame, args, k),
    decreases k2 - k,
{
    if k2 > k {
        lemma_prepare_args_err(frame, args, k, k2 - 1);
    }
}

/// Appends the pushes of all arguments onto the stack, the last one first.
pub fn prepare_args(out: &mut String, frame: &FrameLayout, args: &Vec<AirArg>) -> (r: Result<(), Error>)
    ensures
        match prepare_args_text(frame@, args@, args@.len() as int) {
            Ok(t) => r is Ok && final(out)@ == old(out)@ + t,
            Err(m) => is_codegen_error(r, m),
        },
{
    let ghost start = out@;
    let n = args.len();
    let mut k: usize = 0;
    while k < n
        invariant
            n == args@.len(),
            k <= n,
            prepare_args_text(frame@, args@, k as int) matches Ok(t) && out@ == start + t,
        decreases n - k,
    {
        let ghost prev = prepare_args_text(frame@, args@, k as int)->Ok_0;
        match load_arg_into_reg(out, frame, &args[n - 1 - k], "rax") {
            Err(e) => {
                proof {
                    lemma_prepare_args_err(frame@, args@, k + 1, n as int);
                }
                return Err(e);
            },
            Ok(()) => {},
        }
        add_line(out, "    push rax ; stack arg");
        proof {
            let piece = push_arg_text(frame@, args@[n - 1 - k])->Ok_0;
            assert(out@ =~= start + (prev + piece));
        }
        k = k + 1;
    }
    Ok(())
}

/// How many of `n` arguments travel in registers.
pub open spec fn reg_slots(n: int) -> int {
    if n < 6 { n } else { 6 }
}

/// The bytes of stack that the other arguments take.
pub open spec fn stack_bytes(n: int) -> int {
    (n - reg_slots(n)) * 8
}

/// The pops of the first `k` register arguments, in register order.
pub open spec fn pops_text(k: int) -> Seq<char>
    decreases k,
{
    if k <= 0 {
        seq![]
    } else {
        pops_text(k - 1) + ln("    pop "@ + arg_reg(k - 1) + " ; restore arg into register"@)
    }
}

/// Appends the pops of the register arguments among `n` pushed ones; returns how many
/// registers they fill and how many bytes of arguments stay on the stack.
pub fn move_args_to_registers(out: &mut String, n: usize) -> (r: (usize, usize))
    requires
        n <= MAX_WORDS,
    ensures
        r.0 == reg_slots(n as int),
        r.1 == stack_bytes(n as int),
        final(out)@ == old(out)@ + pops_text(reg_slots(n as int)),
{
    let ghost start = out@;
    let slots: usize = if n < ARG_REG_COUNT { n } else { ARG_REG_COUNT };
    let mut i: usize = 0;
    while i < slots
        invariant
            slots <= ARG_REG_COUNT,
            i <= slots,
            out@ == start + pops_text(i as int),
        decreases slots - i,
    {
        add_line(out, join3("    pop ", arg_reg_name(i), " ; restore arg into register").as_str());
        proof {
            lemma_concat_associative(start, pops_text(i as int), ln("    pop "@ + arg_reg(i as int) + " ; restore arg into register"@));
        }
        i = i + 1;
    }
    (slots, (n - slots) * 8)
}

/// The call of a variadic libc function with the stack aligned to 16 bytes.
pub open spec fn variadic_call_text(name: Seq<char>) -> Seq<char> {
    ln("    push rbp ; helper prologue"@)
    + ln("    mov rbp, rsp"@)
    + ln("    push r12"@)
    + ln("    mov rax, rsp ; align stack for variadic "@ + name + " call"@)
    + ln("    and rax, 15"@)
    + ln("    mov r12, rax"@)
    + ln("    sub rsp, r12"@)
    + ln("    call "@ + name + " ; invoke libc "@ + name)
    + ln("    add rsp, r12"@)
    + ln("    pop r12"@)
    + ln("    pop rbp"@)
}

fn emit_variadic_libc_call(out: &mut String, name: &str)
    ensures
        final(out)@ == old(out)@ + variadic_call_text(name@),
{
    let mut t = new_text("    push rbp ; helper prologue");
    add_line(&mut t, "    mov rbp, rsp");
    add_line(&mut t, "    push r12");
    add_line(&mut t, join3("    mov rax, rsp ; align stack for variadic ", name, " call").as_str());
    add_line(&mut t, "    and rax, 15");
    add_line(&mut t, "    mov r12, rax");
    add_line(&mut t, "    sub rsp, r12");
    let mut call = join3("    call ", name, " ; invoke libc ");
    push_str(&mut call, name);
    add_line(&mut t, call.as_str());
    add_line(&mut t, "    add rsp, r12");
    add_line(&mut t, "    pop r12");
    add_line(&mut t, "    pop rbp");
    put(out, t.as_str());
}

/// The release of the stack arguments after a libc call.
pub open spec fn cleanup_text(bytes: int) -> Seq<char> {
    if bytes > 0 {
        ln("    add rsp, "@ + int_text(bytes) + " ; pop stack args after libc call"@)
    } else {
        seq![]
    }
}

fn cleanup_libc_stack(out: &mut String, bytes: usize)
    ensures
        final(out)@ == old(out)@ + cleanup_text(bytes as int),
{
    if bytes > 0 {
        add_line(out, join_usize("    add rsp, ", bytes, " ; pop stack args after libc call").as_str());
    } else {
        assert(out@ =~= old(out)@ + cleanup_text(bytes as int));
    }
}

// ---------------------------------------------------------------------------
// libc calls
// ---------------------------------------------------------------------------

/// `printf` with the arguments pushed and popped into registers by their kinds.
pub open spec fn printf_text(frame: FrameView, args: Seq<AirArg>, n_kinds: int) -> Result<Seq<char>, Seq<char>> {
    if args.len() == 0 {
        Err("printf requires a format string before the continuation"@)
    } else if n_kinds > MAX_WORDS {
        Err(too_many_words_message())
    } else {
        cat(prepare_args_text(frame, args, args.len() as int),
            Ok(pops_text(reg_slots(n_kinds)) + variadic_call_text("printf"@) + cleanup_text(stack_bytes(n_kinds))))
    }
}

/// The `i`-th of the moves that shift the register arguments one register up, to make
/// room for the buffer in the first one; the highest register moves first.
pub open spec fn shift_line(i: int) -> Seq<char> {
    ln("    mov "@ + arg_reg(i + 1) + ", "@ + arg_reg(i) + " ; shift sprintf args for buffer insertion"@)
}

/// The first `m` of the moves that shift `slots` register arguments.
pub open spec fn shifts_text(slots: int, m: int) -> Seq<char>
    decreases m,
{
    if m <= 0 {
        seq![]
    } else {
        shifts_text(slots, m - 1) + shift_line(slots - m)
    }
}

/// `sprintf` into a fresh buffer of `FMT_BUFFER_SIZE` bytes, whose address is the
/// result; the buffer takes the first argument register, so one must be free.
pub open spec fn sprintf_text(frame: FrameView, args: Seq<AirArg>, n_kinds: int) -> Result<Seq<char>, Seq<char>> {
    if args.len() == 0 {
        Err("sprintf requires a format string before the continuation"@)
    } else if n_kinds > MAX_WORDS {
        Err(too_many_words_message())
    } else {
        cat(prepare_args_text(frame, args, args.len() as int),
            if reg_slots(n_kinds) == 6 {
                Err("sprintf requires at least one register slot for the buffer pointer"@)
            } else {
                Ok(mmap_text(1024) + ln("    mov rbx, rax ; keep sprintf buffer pointer"@)
                    + pops_text(reg_slots(n_kinds))
                    + shifts_text(reg_slots(n_kinds), reg_slots(n_kinds))
                    + ln("    mov rdi, rbx ; destination buffer for sprintf"@)
                    + variadic_call_text("sprintf"@)
                    + ln("    mov rax, rbx ; return formatted string pointer"@)
                    + cleanup_text(stack_bytes(n_kinds)))
            })
    }
}

/// The length of the string at `rdi` counted up to its terminator, then `write` of
/// that many bytes to standard output.
pub open spec fn write_loop_text(loop_label: Seq<char>, done_label: Seq<char>) -> Seq<char> {
    ln("    mov r8, rdi ; keep string pointer"@)
    + ln("    xor rcx, rcx ; reset length counter"@)
    + label_line(loop_label)
    + ln("    mov dl, byte [r8+rcx] ; load current character"@)
    + ln("    cmp dl, 0 ; stop at terminator"@)
    + ln("    je "@ + done_label)
    + ln("    inc rcx ; advance char counter"@)
    + ln("    jmp "@ + loop_label)
    + label_line(done_label)
    + ln("    mov rdx, rcx ; length to write"@)
    + ln("    mov rsi, r8 ; buffer start"@)
    + ln("    mov rdi, 1 ; stdout fd"@)
    + ln("    call write ; invoke libc write"@)
}

/// `write` of a string, with the labels of its length loop numbered `counter`.
pub open spec fn write_text(frame: FrameView, prefix: Seq<char>, counter: usize, args: Seq<AirArg>, n_kinds: int) -> Result<Seq<char>, Seq<char>> {
    if args.len() == 0 {
        Err("write requires a buffer before the continuation"@)
    } else if n_kinds > MAX_WORDS {
        Err(too_many_words_message())
    } else {
        cat(prepare_args_text(frame, args, args.len() as int),
            Ok(pops_text(reg_slots(n_kinds))
                + write_loop_text(local_label(prefix, "write_strlen_loop"@, counter), local_label(prefix, "write_strlen_done"@, counter))
                + cleanup_text(stack_bytes(n_kinds))))
    }
}

/// Appends `printf` of `args`.
pub fn emit_printf(out: &mut String, frame: &FrameLayout, args: &Vec<AirArg>, n_kinds: usize) -> (r: Result<(), Error>)
    ensures
        match printf_text(frame@, args@, n_kinds as int) {
            Ok(t) => r is Ok && final(out)@ == old(out)@ + t,
            Err(m) => is_codegen_error(r, m),
        },
{
    if args.len() == 0 {
        return Err(codegen_error("printf requires a format string before the continuation"));
    }
    if n_kinds > MAX_WORDS {
        return Err(codegen_error("too many words in an environment or argument list"));
    }
    let ghost start = out@;
    match prepare_args(out, frame, args) {
        Err(e) => { return Err(e); },
        Ok(()) => {},
    }
    let ghost prepared = out@;
    let mut t = String::new();
    let (_slots, bytes) = move_args_to_registers(&mut t, n_kinds);
    assert(t@ =~= pops_text(reg_slots(n_kinds as int)));
    emit_variadic_libc_call(&mut t, "printf");
    cleanup_libc_stack(&mut t, bytes);
    put(out, t.as_str());
    proof {
        lemma_concat_associative(start, prepared.subrange(start.len() as int, prepared.len() as int), t@);
        assert(prepared =~= start + prepared.subrange(start.len() as int, prepared.len() as int));
    }
    Ok(())
}

fn emit_shifts(out: &mut String, slots: usize)
    requires
        slots < ARG_REG_COUNT,
    ensures
        final(out)@ == old(out)@ + shifts_text(slots as int, slots as int),
{
    let ghost start = out@;
    let mut m: usize = 0;
    while m < slots
        invariant
            slots < ARG_REG_COUNT,
            m <= slots,
            out@ == start + shifts_text(slots as int, m as int),
        decreases slots - m,
    {
        let i = slots - 1 - m;
        let mut line = join2("    mov ", arg_reg_name(i + 1));
        push_str(&mut line, ", ");
        push_str(&mut line, arg_reg_name(i));
        push_str(&mut line, " ; shift sprintf args for buffer insertion");
        add_line(out, line.as_str());
        proof {
            lemma_concat_associative(start, shifts_text(slots as int, m as int), shift_line(i as int));
        }
        m = m + 1;
    }
}

/// Appends `sprintf` of `args`.
pub fn emit_sprintf(out: &mut String, frame: &FrameLayout, args: &Vec<AirArg>, n_kinds: usize) -> (r: Result<(), Error>)
    ensures
        match sprintf_text(frame@, args@, n_kinds as int) {
            Ok(t) => r is Ok && final(out)@ == old(out)@ + t,
            Err(m) => is_codegen_error(r, m),
        },
{
    if args.len() == 0 {
        return Err(codegen_error("sprintf requires a format string before the continuation"));
    }
    if n_kinds > MAX_WORDS {
        return Err(codegen_error("too many words in an environment or argument list"));
    }
    let ghost start = out@;
    match prepare_args(out, frame, args) {
        Err(e) => { return Err(e); },
        Ok(()) => {},
    }
    let ghost prepared = out@;
    let mut t = String::new();
    emit_mmap(&mut t, 1024);
    assert(t@ =~= mmap_text(1024));
    add_line(&mut t, "    mov rbx, rax ; keep sprintf buffer pointer");
    let (slots, bytes) = move_args_to_registers(&mut t, n_kinds);
    if slots == ARG_REG_COUNT {
        return Err(codegen_error("sprintf requires at least one register slot for the buffer pointer"));
    }
    emit_shifts(&mut t, slots);
    add_line(&mut t, "    mov rdi, rbx ; destination buffer for sprintf");
    emit_variadic_libc_call(&mut t, "sprintf");
    add_line(&mut t, "    mov rax, rbx ; return formatted string pointer");
    cleanup_libc_stack(&mut t, bytes);
    put(out, t.as_str());
    proof {
        lemma_concat_associative(start, prepared.subrange(start.len() as int, prepared.len() as int), t@);
        assert(prepared =~= start + prepared.subrange(start.len() as int, prepared.len() as int));
    }
    Ok(())
}

fn write_loop_body(loop_label: &str, done_label: &str) -> (t: String)
    ensures
        t@ == write_loop_text(loop_label@, done_label@),
{
    let mut t = new_text("    mov r8, rdi ; keep string pointer");
    add_line(&mut t, "    xor rcx, rcx ; reset length counter");
    add_line(&mut t, join2(loop_label, ":").as_str());
    add_line(&mut t, "    mov dl, byte [r8+rcx] ; load current character");
    add_line(&mut t, "    cmp dl, 0 ; stop at terminator");
    add_line(&mut t, join2("    je ", done_label).as_str());
    add_line(&mut t, "    inc rcx ; advance char counter");
    add_line(&mut t, join2("    jmp ", loop_label).as_str());
    add_line(&mut t, join2(done_label, ":").as_str());
    add_line(&mut t, "    mov rdx, rcx ; length to write");
    add_line(&mut t, "    mov rsi, r8 ; buffer start");
    add_line(&mut t, "    mov rdi, 1 ; stdout fd");
    add_line(&mut t, "    call write ; invoke libc write");
    t
}

impl FunctionEmitter {
    /// Appends `write` of `args`.
    pub fn emit_write(&mut self, args: &Vec<AirArg>, n_kinds: usize) -> (r: Result<(), Error>)
        ensures
            final(self).same_frame(*old(self)),
            final(self).terminated == old(self).terminated,
            final(self).label_counter == old(self).label_counter,
            match write_text(old(self).frame@, old(self).prefix@, old(self).write_loop_counter, args@, n_kinds as int) {
                Ok(t) => r is Ok && final(self).out@ == old(self).out@ + t
                    && final(self).write_loop_counter == next_count(old(self).write_loop_counter),
                Err(m) => is_codegen_error(r, m),
            },
    {
        if args.len() == 0 {
            return Err(codegen_error("write requires a buffer before the continuation"));
        }
        if n_kinds > MAX_WORDS {
            return Err(codegen_error("too many words in an environment or argument list"));
        }
        let ghost start = self.out@;
        match prepare_args(&mut self.out, &self.frame, args) {
            Err(e) => { return Err(e); },
            Ok(()) => {},
        }
        let ghost prepared = self.out@;
        let mut t = String::new();
        let (_slots, bytes) = move_args_to_registers(&mut t, n_kinds);
        assert(t@ =~= pops_text(reg_slots(n_kinds as int)));
        let (loop_label, done_label) = self.next_write_loop_labels();
        let body = write_loop_body(loop_label.as_str(), done_label.as_str());
        put(&mut t, body.as_str());
        cleanup_libc_stack(&mut t, bytes);
        put(&mut self.out, t.as_str());
        proof {
            let pops = pops_text(reg_slots(n_kinds as int));
            lemma_concat_associative(start, prepared.subrange(start.len() as int, prepared.len() as int), t@);
            assert(prepared =~= start + prepared.subrange(start.len() as int, prepared.len() as int));
        }
        Ok(())
    }
}

// ---------------------------------------------------------------------------
// Tail jumps
// ---------------------------------------------------------------------------

/// The rebuild of the frame link below spilled stack arguments, so that `leave` keeps
/// them in place.
pub open spec fn spill_fix_text(bytes: int) -> Seq<char> {
    if bytes > 0 {
        ln("    sub rsp, 8 ; allocate slot for saved rbp"@)
        + ln("    mov rax, [rbp] ; capture parent rbp"@)
        + ln("    mov [rsp], rax ; stash parent rbp for leave"@)
        + ln("    mov rbp, rsp ; treat slot as current rbp"@)
    } else {
        seq![]
    }
}

/// The tail jump to the function `name` with `n_params` parameters.
pub open spec fn jump_args_text(frame: FrameView, name: Seq<char>, n_params: int, args: Seq<AirArg>) -> Result<Seq<char>, Seq<char>> {
    if n_params > MAX_WORDS {
        Err(too_many_words_message())
    } else {
        cat(prepare_args_text(frame, args, args.len() as int),
            Ok(pops_text(reg_slots(n_params)) + spill_fix_text(stack_bytes(n_params))
                + ln("    leave ; unwind before named jump"@) + ln("    jmp "@ + name)))
    }
}

/// Appends the tail jump to the function `name`.
pub fn emit_jump_args(out: &mut String, frame: &FrameLayout, name: &str, n_params: usize, args: &Vec<AirArg>) -> (r: Result<(), Error>)
    ensures
        match jump_args_text(frame@, name@, n_params as int, args@) {
            Ok(t) => r is Ok && final(out)@ == old(out)@ + t,
            Err(m) => is_codegen_error(r, m),
        },
{
    if n_params > MAX_WORDS {
        return Err(codegen_error("too many words in an environment or argument list"));
    }
    let ghost start = out@;
    match prepare_args(out, frame, args) {
        Err(e) => { return Err(e); },
        Ok(()) => {},
    }
    let ghost prepared = out@;
    let mut t = String::new();
    let (_slots, bytes) = move_args_to_registers(&mut t, n_params);
    assert(t@ =~= pops_text(reg_slots(n_params as int)));
    let ghost popped = t@;
    if bytes > 0 {
        add_line(&mut t, "    sub rsp, 8 ; allocate slot for saved rbp");
        add_line(&mut t, "    mov rax, [rbp] ; capture parent rbp");
        add_line(&mut t, "    mov [rsp], rax ; stash parent rbp for leave");
        add_line(&mut t, "    mov rbp, rsp ; treat slot as current rbp");
        assert(t@ =~= popped + spill_fix_text(bytes as int));
    } else {
        assert(t@ =~= popped + spill_fix_text(bytes as int));
    }
    add_line(&mut t, "    leave ; unwind before named jump");
    add_line(&mut t, join2("    jmp ", name).as_str());
    put(out, t.as_str());
    proof {
        lemma_concat_associative(start, prepared.subrange(start.len() as int, prepared.len() as int), t@);
        assert(prepared =~= start + prepared.subrange(start.len() as int, prepared.len() as int));
    }
    Ok(())
}

/// The store of argument `i` of `n` into the closure environment below `rbx`: the
/// arguments fill the last `n` words before the end pointer, in order.
pub open spec fn closure_store_text(frame: FrameView, a: AirArg, n: int, i: int) -> Result<Seq<char>, Seq<char>> {
    cat(load_arg_text(frame, a, "rax"@), Ok(store_at_text("rbx"@, -(n - i), "rax"@)))
}

/// The stores of the first `k` of `n` arguments.
pub open spec fn closure_stores_text(frame: FrameView, args: Seq<AirArg>, n: int, k: int) -> Result<Seq<char>, Seq<char>>
    decreases k,
{
    if k <= 0 {
        Ok(seq![])
    } else {
        cat(closure_stores_text(frame, args, n, k - 1), closure_store_text(frame, args[k - 1], n, k - 1))
    }
}

/// Once the stores fail, more stores fail the same way.
pub proof fn lemma_closure_stores_err(frame: FrameView, args: Seq<AirArg>, n: int, k: int, k2: int)
    requires
        0 <= k <= k2,
        closure_stores_text(frame, args, n, k) is Err,
    ensures
        closure_stores_text(frame, args, n, k2) == closure_stores_text(frame, args, n, k),
    decreases k2 - k,
{
    if k2 > k {
        lemma_closure_stores_err(frame, args, n, k, k2 - 1);
    }
}

/// The jump into the closure's entry point.
pub open spec fn closure_jump_tail_text() -> Seq<char> {
    ln("    mov rdi, rbx ; pass env_end pointer to closure"@)
    + ln("    mov rax, [rdi+0] ; load closure unwrapper entry point"@)
    + ln("    leave ; unwind before jumping"@)
    + ln("    jmp rax ; tail call into closure"@)
}

/// The tail call of the closure held by `env_end`: the arguments into the last words
/// of its environment, then a jump to its entry point.
pub open spec fn jump_closure_text(frame: FrameView, env_end: Seq<char>, args: Seq<AirArg>) -> Result<Seq<char>, Seq<char>> {
    match frame.offset_of(env_end) {
        None => Err(unknown_binding_message(env_end)),
        Some(o) => if args.len() > MAX_WORDS {
            Err(too_many_words_message())
        } else {
            cat(Ok(ln("    mov rbx, [rbp-"@ + int_text(o as int) + "] ; load "@ + env_end + " closure env_end pointer"@)),
                cat(closure_stores_text(frame, args, args.len() as int, args.len() as int), Ok(closure_jump_tail_text())))
        },
    }
}

/// Appends the tail call of the closure held by `env_end`.
pub fn emit_jump_closure(out: &mut String, frame: &FrameLayout, env_end: &str, args: &Vec<AirArg>) -> (r: Result<(), Error>)
    ensures
        match jump_closure_text(frame@, env_end@, args@) {
            Ok(t) => r is Ok && final(out)@ == old(out)@ + t,
            Err(m) => is_codegen_error(r, m),
        },
{
    let o = match frame.binding(env_end) {
        Some(b) => b.offset,
        None => { return Err(unknown_binding(env_end)); },
    };
    let n = args.len();
    if n > MAX_WORDS {
        return Err(codegen_error("too many words in an environment or argument list"));
    }
    let ghost start = out@;
    let mut first = join_int("    mov rbx, [rbp-", o as i64, "] ; load ");
    push_str(&mut first, env_end);
    push_str(&mut first, " closure env_end pointer");
    let head = new_text(first.as_str());
    put(out, head.as_str());
    let ghost after_head = out@;
    let mut i: usize = 0;
    while i < n
        invariant
            n == args@.len(),
            n <= MAX_WORDS,
            frame.offset_of(env_end@) == Some(o),
            i <= n,
            closure_stores_text(frame@, args@, n as int, i as int) matches Ok(t) && out@ == after_head + t,
        decreases n - i,
    {
        let ghost prev = closure_stores_text(frame@, args@, n as int, i as int)->Ok_0;
        let ghost before = out@;
        match load_arg_into_reg(out, frame, &args[i], "rax") {
            Err(e) => {
                proof {
                    assert(closure_stores_text(frame@, args@, n as int, i + 1) == closure_store_text(frame@, args@[i as int], n as int, i as int));
                    lemma_closure_stores_err(frame@, args@, n as int, i + 1, n as int);
                    let st = closure_stores_text(frame@, args@, n as int, n as int);
                    assert(st is Err);
                    assert(jump_closure_text(frame@, env_end@, args@) == st);
                }
                return Err(e);
            },
            Ok(()) => {},
        }
        let offset: isize = -((n - i) as isize);
        store_at(out, "rbx", offset, "rax");
        proof {
            let piece = closure_store_text(frame@, args@[i as int], n as int, i as int)->Ok_0;
            assert(out@ =~= after_head + (prev + piece));
        }
        i = i + 1;
    }
    let mut tail = new_text("    mov rdi, rbx ; pass env_end pointer to closure");
    add_line(&mut tail, "    mov rax, [rdi+0] ; load closure unwrapper entry point");
    add_line(&mut tail, "    leave ; unwind before jumping");
    add_line(&mut tail, "    jmp rax ; tail call into closure");
    put(out, tail.as_str());
    proof {
        let stores = closure_stores_text(frame@, args@, n as int, n as int)->Ok_0;
        lemma_concat_associative(after_head, stores, tail@);
        lemma_concat_associative(start, head@, stores + tail@);
    }
    Ok(())
}


// ---------------------------------------------------------------------------
// Operations
// ---------------------------------------------------------------------------

/// The message for the floating-point operations, which have no code here.
pub open spec fn float_message() -> Seq<char> {
    "floating-point arithmetic has no code generation"@
}

/// The text of one operation, with the local labels numbered from `labels` and the
/// loops of `write` from `write_loops`.
#[verifier::opaque]
pub open spec fn op_text(frame: FrameView, prefix: Seq<char>, labels: usize, write_loops: usize, op: AirOp) -> Result<Seq<char>, Seq<char>> {
    match op {
        AirOp::NewClosure(c) => cat(new_closure_text(frame, c), store_binding_text(frame, c.name@)),
        AirOp::CloneClosure(c) => cat(clone_closure_text(frame, c.src@, c.dst@), store_binding_text(frame, c.dst@)),
        AirOp::Jump(j) => Ok(jump_text(j.target@)),
        AirOp::JumpEqInt(eq) => int_condition_text(frame, eq.args@, eq.target@),
        AirOp::JumpEqStr(eq) => eq_str_text(frame, prefix, labels, eq.args@, eq.target@),
        AirOp::JumpLt(j) => compare_jump_text(frame, j.left, j.right, "jl"@, j.target@),
        AirOp::JumpGt(j) => compare_jump_text(frame, j.left, j.right, "jg"@, j.target@),
        AirOp::ReleaseHeap(rel) => Ok(release_text(frame, rel.name@)),
        AirOp::Pin(pin) => load_value_text(frame, pin.value, "r12"@),
        AirOp::Field(f) => get_field_text(frame, f.offset, f.result@),
        AirOp::SetField(f) => set_field_text(frame, f.offset, f.value),
        AirOp::CopyField(f) => copy_field_text(frame, f.offset, f.result@),
        AirOp::Add(a) => binary_text(frame, a.input_a, a.input_b, a.target@, "add"@, "add second integer"@),
        AirOp::Sub(a) => binary_text(frame, a.input_a, a.input_b, a.target@, "sub"@, "subtract subtrahend"@),
        AirOp::Mul(a) => binary_text(frame, a.input_a, a.input_b, a.target@, "mul"@, "multiply by multiplier"@),
        AirOp::DivInt(d) => div_text(frame, prefix, labels, d.input_a, d.input_b, d.err_target@, d.ok_target@),
        AirOp::AddF64(_) => Err(float_message()),
        AirOp::MulF64(_) => Err(float_message()),
        AirOp::DivF64(_) => Err(float_message()),
        AirOp::Printf(p) => cat(printf_text(frame, p.args@, p.arg_kinds@.len() as int), value_jump_text(frame, p.target@, false)),
        AirOp::Sprintf(p) => cat(sprintf_text(frame, p.args@, p.arg_kinds@.len() as int), value_jump_text(frame, p.target@, true)),
        AirOp::Write(w) => cat(write_text(frame, prefix, write_loops, w.args@, w.arg_kinds@.len() as int), value_jump_text(frame, w.target@, false)),
        AirOp::CallPtr(c) => match c.target {
            AirCallPtrTarget::Binding(name) => call_ptr_text(frame, name),
        },
        AirOp::SysExit(_) => Ok(exit_text()),
        AirOp::JumpArgs(j) => jump_args_text(frame, j.target.name@, j.target.params@.len() as int, j.args@),
        AirOp::JumpClosure(j) => jump_closure_text(frame, j.env_end@, j.args@),
        AirOp::Return(ret) => return_text(frame, ret.value),
    }
}

/// Whether the operation leaves the function (so that what follows it is unreachable
/// up to the next label).
pub open spec fn op_terminates(op: AirOp) -> bool {
    match op {
        AirOp::Add(_) | AirOp::Sub(_) | AirOp::Mul(_) | AirOp::DivInt(_) => true,
        AirOp::Printf(_) | AirOp::Sprintf(_) | AirOp::Write(_) => true,
        AirOp::SysExit(_) | AirOp::JumpArgs(_) | AirOp::JumpClosure(_) | AirOp::Return(_) => true,
        _ => false,
    }
}

/// The label counter after the operation.
pub open spec fn op_labels_after(labels: usize, op: AirOp) -> usize {
    match op {
        AirOp::JumpEqStr(_) => next_count(next_count(labels)),
        AirOp::DivInt(_) => next_count(labels),
        _ => labels,
    }
}

/// The counter of `write` loops after the operation.
pub open spec fn op_write_loops_after(write_loops: usize, op: AirOp) -> usize {
    match op {
        AirOp::Write(_) => next_count(write_loops),
        _ => write_loops,
    }
}

impl FunctionEmitter {
    /// Appends the text of one operation.
    pub fn emit_air_op(&mut self, op: &AirOp) -> (r: Result<(), Error>)
        ensures
            final(self).same_frame(*old(self)),
            match op_text(old(self).frame@, old(self).prefix@, old(self).label_counter, old(self).write_loop_counter, *op) {
                Ok(t) => {
                    &&& r is Ok
                    &&& final(self).out@ == old(self).out@ + t
                    &&& final(self).terminated == (old(self).terminated || op_terminates(*op))
                    &&& final(self).label_counter == op_labels_after(old(self).label_counter, *op)
                    &&& final(self).write_loop_counter == op_write_loops_after(old(self).write_loop_counter, *op)
                },
                Err(m) => is_codegen_error(r, m),
            },
    {
        reveal(op_text);
        let ghost start = self.out@;
        let r = match op {
            AirOp::NewClosure(c) => {
                match emit_new_closure(&mut self.out, &self.frame, c) {
                    Err(e) => { return Err(e); },
                    Ok(()) => {},
                }
                let r = store_binding_value(&mut self.out, &self.frame, c.name.as_str());
                proof {
                    if r is Ok {
                        lemma_concat_associative(start, new_closure_text(self.frame@, *c)->Ok_0, store_binding_text(self.frame@, c.name@)->Ok_0);
                    }
                }
                r
            },
            AirOp::CloneClosure(c) => {
                match emit_clone_closure(&mut self.out, &self.frame, c.src.as_str(), c.dst.as_str()) {
                    Err(e) => { return Err(e); },
                    Ok(()) => {},
                }
                let r = store_binding_value(&mut self.out, &self.frame, c.dst.as_str());
                proof {
                    if r is Ok {
                        lemma_concat_associative(start, clone_closure_text(self.frame@, c.src@, c.dst@)->Ok_0, store_binding_text(self.frame@, c.dst@)->Ok_0);
                    }
                }
                r
            },
            AirOp::Jump(j) => {
                add_line(&mut self.out, join2("    jmp ", j.target.as_str()).as_str());
                Ok(())
            },
            AirOp::JumpEqInt(eq) => emit_builtin_int_condition(&mut self.out, &self.frame, &eq.args, eq.target.as_str()),
            AirOp::JumpEqStr(eq) => self.emit_eq_str_jump(&eq.args, eq.target.as_str()),
            AirOp::JumpLt(j) => emit_compare_jump(&mut self.out, &self.frame, &j.left, &j.right, "jl", j.target.as_str()),
            AirOp::JumpGt(j) => emit_compare_jump(&mut self.out, &self.frame, &j.left, &j.right, "jg", j.target.as_str()),
            AirOp::ReleaseHeap(rel) => {
                emit_release_heap_ptr(&mut self.out, &self.frame, rel.name.as_str());
                Ok(())
            },
            AirOp::Pin(pin) => load_value_into_reg(&mut self.out, &self.frame, &pin.value, "r12"),
            AirOp::Field(f) => emit_get_field(&mut self.out, &self.frame, f.offset, f.result.as_str()),
            AirOp::SetField(f) => emit_set_field(&mut self.out, &self.frame, f.offset, &f.value),
            AirOp::CopyField(f) => emit_copy_field(&mut self.out, &self.frame, f.offset, f.result.as_str()),
            AirOp::Add(a) => emit_binary_op(&mut self.out, &self.frame, &a.input_a, &a.input_b, a.target.as_str(), "add", "add second integer"),
            AirOp::Sub(a) => emit_binary_op(&mut self.out, &self.frame, &a.input_a, &a.input_b, a.target.as_str(), "sub", "subtract subtrahend"),
            AirOp::Mul(a) => emit_binary_op(&mut self.out, &self.frame, &a.input_a, &a.input_b, a.target.as_str(), "mul", "multiply by multiplier"),
            AirOp::DivInt(d) => self.emit_div(&d.input_a, &d.input_b, d.err_target.as_str(), d.ok_target.as_str()),
            AirOp::AddF64(_) | AirOp::MulF64(_) | AirOp::DivF64(_) => {
                Err(codegen_error("floating-point arithmetic has no code generation"))
            },
            AirOp::Printf(p) => {
                match emit_printf(&mut self.out, &self.frame, &p.args, p.arg_kinds.len()) {
                    Err(e) => { return Err(e); },
                    Ok(()) => {},
                }
                let r = emit_value_jump(&mut self.out, &self.frame, p.target.as_str(), false);
                proof {
                    if r is Ok {
                        lemma_concat_associative(start, printf_text(self.frame@, p.args@, p.arg_kinds@.len() as int)->Ok_0, value_jump_text(self.frame@, p.target@, false)->Ok_0);
                    }
                }
                r
            },
            AirOp::Sprintf(p) => {
                match emit_sprintf(&mut self.out, &self.frame, &p.args, p.arg_kinds.len()) {
                    Err(e) => { return Err(e); },
                    Ok(()) => {},
                }
                let r = emit_value_jump(&mut self.out, &self.frame, p.target.as_str(), true);
                proof {
                    if r is Ok {
                        lemma_concat_associative(start, sprintf_text(self.frame@, p.args@, p.arg_kinds@.len() as int)->Ok_0, value_jump_text(self.frame@, p.target@, true)->Ok_0);
                    }
                }
                r
            },
            AirOp::Write(w) => {
                let ghost wl = self.write_loop_counter;
                match self.emit_write(&w.args, w.arg_kinds.len()) {
                    Err(e) => { return Err(e); },
                    Ok(()) => {},
                }
                let r = emit_value_jump(&mut self.out, &self.frame, w.target.as_str(), false);
                proof {
                    if r is Ok {
                        lemma_concat_associative(start, write_text(self.frame@, self.prefix@, wl, w.args@, w.arg_kinds@.len() as int)->Ok_0, value_jump_text(self.frame@, w.target@, false)->Ok_0);
                    }
                }
                r
            },
            AirOp::CallPtr(c) => match &c.target {
                AirCallPtrTarget::Binding(name) => emit_call_ptr(&mut self.out, &self.frame, name),
            },
            AirOp::SysExit(_) => {
                emit_exit_syscall(&mut self.out);
                Ok(())
            },
            AirOp::JumpArgs(j) => emit_jump_args(&mut self.out, &self.frame, j.target.name.as_str(), j.target.params.len(), &j.args),
            AirOp::JumpClosure(j) => emit_jump_closure(&mut self.out, &self.frame, j.env_end.as_str(), &j.args),
            AirOp::Return(ret) => emit_return(&mut self.out, &self.frame, &ret.value),
        };
        if r.is_ok() && op_ends_function(op) {
            self.terminated = true;
        }
        r
    }
}

/// Whether the operation leaves the function.
pub fn op_ends_function(op: &AirOp) -> (r: bool)
    ensures
        r == op_terminates(*op),
{
    match op {
        AirOp::Add(_) | AirOp::Sub(_) | AirOp::Mul(_) | AirOp::DivInt(_) => true,
        AirOp::Printf(_) | AirOp::Sprintf(_) | AirOp::Write(_) => true,
        AirOp::SysExit(_) | AirOp::JumpArgs(_) | AirOp::JumpClosure(_) | AirOp::Return(_) => true,
        _ => false,
    }
}


// ---------------------------------------------------------------------------
// Blocks and functions
// ---------------------------------------------------------------------------

/// Where the emission of a function stands: the text, whether the last operation left
/// the function, and the counters of its local labels.
pub struct EmitState {
    pub text: Seq<char>,
    pub terminated: bool,
    pub labels: usize,
    pub write_loops: usize,
}

impl FunctionEmitter {
    /// The emission state of the emitter.
    pub open spec fn state(self) -> EmitState {
        EmitState {
            text: self.out@,
            terminated: self.terminated,
            labels: self.label_counter,
            write_loops: self.write_loop_counter,
        }
    }
}

/// One statement: a label always (it ends an unreachable stretch); an operation only
/// where it can be reached.
pub open spec fn stmt_step(frame: FrameView, prefix: Seq<char>, st: EmitState, stmt: AirStmt) -> Result<EmitState, Seq<char>> {
    match stmt {
        AirStmt::Label(l) => Ok(EmitState { text: st.text + label_line(l.name@), terminated: false, ..st }),
        AirStmt::Op(op) => if st.terminated {
            Ok(st)
        } else {
            match op_text(frame, prefix, st.labels, st.write_loops, *op) {
                Err(m) => Err(m),
                Ok(t) => Ok(EmitState {
                    text: st.text + t,
                    terminated: op_terminates(*op),
                    labels: op_labels_after(st.labels, *op),
                    write_loops: op_write_loops_after(st.write_loops, *op),
                }),
            }
        },
    }
}

/// The statements one after another, from `st`: the first error, or the final state.
pub open spec fn block_state(frame: FrameView, prefix: Seq<char>, st: EmitState, stmts: Seq<AirStmt>) -> Result<EmitState, Seq<char>>
    decreases stmts.len(),
{
    if stmts.len() == 0 {
        Ok(st)
    } else {
        match block_state(frame, prefix, st, stmts.drop_last()) {
            Err(m) => Err(m),
            Ok(s) => stmt_step(frame, prefix, s, stmts.last()),
        }
    }
}

/// Once a prefix of the statements fails, the whole block fails the same way.
pub proof fn lemma_block_state_err(frame: FrameView, prefix: Seq<char>, st: EmitState, stmts: Seq<AirStmt>, k: int)
    requires
        0 <= k <= stmts.len(),
        block_state(frame, prefix, st, stmts.take(k)) is Err,
    ensures
        block_state(frame, prefix, st, stmts) == block_state(frame, prefix, st, stmts.take(k)),
    decreases stmts.len() - k,
{
    if k < stmts.len() {
        assert(stmts.take(k + 1).drop_last() =~= stmts.take(k));
        lemma_block_state_err(frame, prefix, st, stmts, k + 1);
    } else {
        assert(stmts.take(k) =~= stmts);
    }
}

impl FunctionEmitter {
    /// Appends one statement.
    pub fn emit_statement(&mut self, stmt: &AirStmt) -> (r: Result<(), Error>)
        ensures
            final(self).same_frame(*old(self)),
            match stmt_step(old(self).frame@, old(self).prefix@, old(self).state(), *stmt) {
                Ok(st) => r is Ok && final(self).state() == st,
                Err(m) => is_codegen_error(r, m),
            },
    {
        match stmt {
            AirStmt::Label(l) => {
                self.terminated = false;
                add_line(&mut self.out, join2(l.name.as_str(), ":").as_str());
                Ok(())
            },
            AirStmt::Op(op) => {
                if self.terminated {
                    return Ok(());
                }
                self.emit_air_op(op)
            },
        }
    }

    /// Appends the statements in order.
    pub fn emit_block(&mut self, items: &Vec<AirStmt>) -> (r: Result<(), Error>)
        ensures
            final(self).same_frame(*old(self)),
            match block_state(old(self).frame@, old(self).prefix@, old(self).state(), items@) {
                Ok(st) => r is Ok && final(self).state() == st,
                Err(m) => is_codegen_error(r, m),
            },
    {
        let ghost s0 = self.state();
        let ghost frame0 = self.frame;
        let ghost frame = self.frame@;
        let ghost prefix0 = self.prefix;
        let ghost prefix = self.prefix@;
        let mut failure: Option<Error> = None;
        let mut i: usize = 0;
        while i < items.len() && failure.is_none()
            invariant
                i <= items@.len(),
                self.frame == frame0,
                frame == frame0@,
                self.prefix == prefix0,
                prefix == prefix0@,
                failure is None ==> block_state(frame, prefix, s0, items@.take(i as int)) == Ok::<EmitState, Seq<char>>(self.state()),
                failure matches Some(e) ==> block_state(frame, prefix, s0, items@) matches Err(m)
                    && e.code == Code::Codegen && e.message@ == m,
            decreases items@.len() - i,
        {
            proof {
                assert(items@.take(i + 1).drop_last() =~= items@.take(i as int));
                assert(items@.take(i + 1).last() == items@[i as int]);
            }
            match self.emit_statement(&items[i]) {
                Err(e) => {
                    proof {
                        lemma_block_state_err(frame, prefix, s0, items@, i + 1);
                    }
                    failure = Some(e);
                },
                Ok(()) => {},
            }
            i = i + 1;
        }
        match failure {
            Some(e) => Err(e),
            None => {
                proof {
                    assert(items@.take(items@.len() as int) =~= items@);
                }
                Ok(())
            },
        }
    }
}


/// The message for a parameter without a frame slot.
pub open spec fn missing_binding_message() -> Seq<char> {
    "missing binding"@
}

/// The store of parameter `i` into its frame slot: from its register for the first six,
/// from the caller's stack for the rest.
pub open spec fn param_store_text(frame: FrameView, p: SigItem, i: int) -> Result<Seq<char>, Seq<char>> {
    match frame.offset_of(p.name@) {
        None => Err(missing_binding_message()),
        Some(o) => if i < 6 {
            Ok(ln("    mov [rbp-"@ + int_text(o as int) + "], "@ + arg_reg(i) + " ; store "@ + p.name@ + " arg in frame"@))
        } else {
            Ok(ln("    mov rax, [rbp+"@ + int_text(8 + (i - 6) * 8) + "] ; load spilled "@ + p.name@ + " arg"@)
                + ln("    mov [rbp-"@ + int_text(o as int) + "], rax ; store spilled arg"@))
        },
    }
}

/// The stores of the first `k` parameters.
pub open spec fn store_params_text(frame: FrameView, params: Seq<SigItem>, k: int) -> Result<Seq<char>, Seq<char>>
    decreases k,
{
    if k <= 0 {
        Ok(seq![])
    } else {
        cat(store_params_text(frame, params, k - 1), param_store_text(frame, params[k - 1], k - 1))
    }
}

/// Once the stores fail, more stores fail the same way.
pub proof fn lemma_store_params_err(frame: FrameView, params: Seq<SigItem>, k: int, k2: int)
    requires
        0 <= k <= k2,
        store_params_text(frame, params, k) is Err,
    ensures
        store_params_text(frame, params, k2) == store_params_text(frame, params, k),
    decreases k2 - k,
{
    if k2 > k {
        lemma_store_params_err(frame, params, k, k2 - 1);
    }
}

/// Appends the stores of the parameters into their frame slots.
pub fn store_params(out: &mut String, frame: &FrameLayout, params: &Vec<SigItem>) -> (r: Result<(), Error>)
    ensures
        params@.len() > MAX_WORDS ==> is_codegen_error(r, too_many_words_message()),
        params@.len() <= MAX_WORDS ==> match store_params_text(frame@, params@, params@.len() as int) {
            Ok(t) => r is Ok && final(out)@ == old(out)@ + t,
            Err(m) => is_codegen_error(r, m),
        },
{
    let n = params.len();
    if n > MAX_WORDS {
        return Err(codegen_error("too many words in an environment or argument list"));
    }
    let ghost start = out@;
    let mut i: usize = 0;
    while i < n
        invariant
            n == params@.len(),
            n <= MAX_WORDS,
            i <= n,
            store_params_text(frame@, params@, i as int) matches Ok(t) && out@ == start + t,
        decreases n - i,
    {
        let ghost prev = store_params_text(frame@, params@, i as int)->Ok_0;
        let name = params[i].name.as_str();
        let o = match frame.binding(name) {
            Some(b) => b.offset,
            None => {
                proof {
                    assert(store_params_text(frame@, params@, i + 1) == param_store_text(frame@, params@[i as int], i as int));
                    lemma_store_params_err(frame@, params@, i + 1, n as int);
                }
                return Err(codegen_error("missing binding"));
            },
        };
        let mut t: String;
        if i < ARG_REG_COUNT {
            let mut line = join_int("    mov [rbp-", o as i64, "], ");
            push_str(&mut line, arg_reg_name(i));
            push_str(&mut line, " ; store ");
            push_str(&mut line, name);
            push_str(&mut line, " arg in frame");
            t = new_text(line.as_str());
        } else {
            let addr: usize = 8 + (i - ARG_REG_COUNT) * 8;
            let mut line = join_usize("    mov rax, [rbp+", addr, "] ; load spilled ");
            push_str(&mut line, name);
            push_str(&mut line, " arg");
            t = new_text(line.as_str());
            add_line(&mut t, join_int("    mov [rbp-", o as i64, "], rax ; store spilled arg").as_str());
        }
        put(out, t.as_str());
        proof {
            lemma_concat_associative(start, prev, t@);
        }
        i = i + 1;
    }
    Ok(())
}

/// The start of a function: its global label and the frame of `stack_size` bytes.
pub open spec fn function_header_text(name: Seq<char>, stack_size: i32) -> Seq<char> {
    ln("global "@ + name)
    + ln(name + ":"@)
    + ln("    push rbp ; save executor frame pointer"@)
    + ln("    mov rbp, rsp ; establish new frame base"@)
    + (if stack_size > 0 {
        ln("    sub rsp, "@ + int_text(stack_size as int) + " ; reserve stack space for locals"@)
    } else {
        seq![]
    })
}

fn function_header(name: &str, stack_size: i32) -> (t: String)
    ensures
        t@ == function_header_text(name@, stack_size),
{
    let mut t = new_text(join2("global ", name).as_str());
    add_line(&mut t, join2(name, ":").as_str());
    add_line(&mut t, "    push rbp ; save executor frame pointer");
    add_line(&mut t, "    mov rbp, rsp ; establish new frame base");
    if stack_size > 0 {
        add_line(&mut t, join_int("    sub rsp, ", stack_size as i64, " ; reserve stack space for locals").as_str());
    } else {
        assert(t@ =~= function_header_text(name@, stack_size));
    }
    t
}

/// The text of a function in the given frame: its header, the stores of its
/// parameters, and its statements, with the local labels prefixed by its sanitized name
/// and numbered from zero.
pub open spec fn function_asm_text(frame: FrameView, air: AirFunction) -> Result<Seq<char>, Seq<char>> {
    if air.sig.params@.len() > MAX_WORDS {
        Err(too_many_words_message())
    } else {
        match store_params_text(frame, air.sig.params@, air.sig.params@.len() as int) {
            Err(m) => Err(m),
            Ok(pt) => match block_state(frame, sanitized(air.sig.name@),
                EmitState { text: function_header_text(air.sig.name@, frame.stack_size) + pt, terminated: false, labels: 0, write_loops: 0 },
                air.items@) {
                Err(m) => Err(m),
                Ok(st) => Ok(st.text),
            },
        }
    }
}

/// The text of the function `air` in `frame`.
pub fn emit_function(air: &AirFunction, frame: FrameLayout) -> (r: Result<String, Error>)
    ensures
        match function_asm_text(frame@, *air) {
            Ok(t) => r matches Ok(s) && s@ == t,
            Err(m) => r matches Err(e) && e.code == Code::Codegen && e.message@ == m,
        },
{
    let header = function_header(air.sig.name.as_str(), frame.stack_size);
    let mut out = header;
    match store_params(&mut out, &frame, &air.sig.params) {
        Err(e) => { return Err(e); },
        Ok(()) => {},
    }
    let mut emitter = FunctionEmitter {
        out,
        frame,
        prefix: sanitize_function_name(air.sig.name.as_str()),
        terminated: false,
        write_loop_counter: 0,
        label_counter: 0,
    };
    match emitter.emit_block(&air.items) {
        Err(e) => Err(e),
        Ok(()) => Ok(emitter.out),
    }
}


// ---------------------------------------------------------------------------
// What the emitted instructions do
// ---------------------------------------------------------------------------

/// Whether the conditional jump `mnemonic` is taken after `cmp` of the signed values
/// `a` and `b`, as the x86 manual defines the condition codes; `None` for a mnemonic not
/// listed here.
pub open spec fn signed_jump_taken(mnemonic: Seq<char>, a: int, b: int) -> Option<bool> {
    if mnemonic == "jl"@ {
        Some(a < b)
    } else if mnemonic == "jle"@ {
        Some(a <= b)
    } else if mnemonic == "jg"@ {
        Some(a > b)
    } else if mnemonic == "jge"@ {
        Some(a >= b)
    } else if mnemonic == "je"@ {
        Some(a == b)
    } else if mnemonic == "jne"@ {
        Some(a != b)
    } else {
        None
    }
}

/// What the two-operand integer instruction `opcode dst, src` leaves in `dst`, as the
/// x86 manual defines it; `None` for an opcode not listed here.
pub open spec fn int_instruction_result(opcode: Seq<char>, dst: int, src: int) -> Option<int> {
    if opcode == "add"@ {
        Some(dst + src)
    } else if opcode == "sub"@ {
        Some(dst - src)
    } else {
        None
    }
}

/// The value that the rgo builtin `b` passes on for the operands `x` and `y`:
/// `add(x, y, k)` passes `x + y`, `sub(x, y, k)` passes `x - y`.
pub open spec fn builtin_value(b: Builtin, x: int, y: int) -> Option<int> {
    match b {
        Builtin::Add => Some(x + y),
        Builtin::Sub => Some(x - y),
        _ => None,
    }
}

/// `lt(a, b, k)` jumps to `k` exactly when `a < b`, and `gt(a, b, k)` exactly when
/// `a > b`: the code for the operation the call becomes loads the first argument into
/// `rax` and the second into `rbx`, compares them (`cmp rax, rbx`) and jumps to the
/// continuation with a signed condition that holds exactly then.
pub proof fn lemma_comparison_jumps(
    b: Builtin,
    args: Seq<AirArg>,
    r: AirOp,
    frame: FrameView,
    prefix: Seq<char>,
    labels: usize,
    write_loops: usize,
)
    requires
        b is Lt || b is Gt,
        instruction_args_ok(b, args),
        instruction_op_ok(b, args, r),
    ensures
        exists|m: Seq<char>|
            op_text(frame, prefix, labels, write_loops, r) == #[trigger] cat(
                load_value_text(frame, operand_of(args[0]), "rax"@),
                cat(
                    load_value_text(frame, operand_of(args[1]), "rbx"@),
                    Ok(ln("    cmp rax, rbx"@) + ln("    "@ + m + " "@ + args[args.len() - 1].name@)),
                ),
            ) && forall|x: int, y: int| #[trigger] signed_jump_taken(m, x, y) == Some(if b is Lt {
                x < y
            } else {
                x > y
            }),
{
    reveal(op_text);
    reveal_strlit("jl");
    reveal_strlit("jle");
    reveal_strlit("jg");
    assert("jl"@.len() == 2 && "jl"@[0] == 'j' && "jl"@[1] == 'l');
    assert("jle"@.len() == 3);
    assert("jg"@.len() == 2 && "jg"@[1] == 'g');
    let m = if b is Lt { "jl"@ } else { "jg"@ };
    assert(op_text(frame, prefix, labels, write_loops, r) == cat(
        load_value_text(frame, operand_of(args[0]), "rax"@),
        cat(
            load_value_text(frame, operand_of(args[1]), "rbx"@),
            Ok(ln("    cmp rax, rbx"@) + ln("    "@ + m + " "@ + args[args.len() - 1].name@)),
        ),
    ));
    if b is Lt {
        assert forall|x: int, y: int| #[trigger] signed_jump_taken(m, x, y) == Some(x < y) by {}
    } else {
        assert(m != "jl"@);
        assert(m != "jle"@);
        assert forall|x: int, y: int| #[trigger] signed_jump_taken(m, x, y) == Some(x > y) by {}
    }
}

/// `add(a, b, k)` passes `a + b` and `sub(a, b, k)` passes `a - b` to `k`: the code for
/// the operation the call becomes loads the first argument into `rax` and the second
/// into `rbx`, and applies an instruction `opcode rax, rbx` that leaves the builtin's
/// value in `rax`, before jumping to the continuation with it.
pub proof fn lemma_arithmetic_operand_order(
    b: Builtin,
    args: Seq<AirArg>,
    r: AirOp,
    frame: FrameView,
    prefix: Seq<char>,
    labels: usize,
    write_loops: usize,
)
    requires
        b is Add || b is Sub,
        instruction_args_ok(b, args),
        instruction_op_ok(b, args, r),
    ensures
        exists|opcode: Seq<char>, comment: Seq<char>|
            op_text(frame, prefix, labels, write_loops, r) == #[trigger] cat(
                load_arg_text(frame, args[0], "rax"@),
                cat(
                    load_arg_text(frame, args[1], "rbx"@),
                    cat(
                        Ok(ln("    "@ + opcode + " rax, rbx ; "@ + comment)),
                        value_jump_text(frame, args[args.len() - 1].name@, true),
                    ),
                ),
            ) && forall|x: int, y: int| #[trigger] int_instruction_result(opcode, x, y) == builtin_value(b, x, y),
{
    reveal(op_text);
    reveal_strlit("add");
    reveal_strlit("sub");
    assert("add"@.len() == 3 && "add"@[0] == 'a');
    assert("sub"@.len() == 3 && "sub"@[0] == 's');
    let opcode = if b is Add { "add"@ } else { "sub"@ };
    let comment = if b is Add { "add second integer"@ } else { "subtract subtrahend"@ };
    assert(op_text(frame, prefix, labels, write_loops, r) == cat(
        load_arg_text(frame, args[0], "rax"@),
        cat(
            load_arg_text(frame, args[1], "rbx"@),
            cat(
                Ok(ln("    "@ + opcode + " rax, rbx ; "@ + comment)),
                value_jump_text(frame, args[args.len() - 1].name@, true),
            ),
        ),
    ));
    if b is Sub {
        assert(opcode != "add"@);
    }
    assert forall|x: int, y: int| #[trigger] int_instruction_result(opcode, x, y) == builtin_value(b, x, y) by {}
}

/// `div(a, b, err, ok)` divides its first argument by its second: the code for the
/// operation the call becomes loads the first argument (the dividend) into `rax` and the
/// second (the divisor) into `rbx` before the checked division, continuing at `ok`, or at
/// `err` when the divisor is zero.
pub proof fn lemma_division_operand_order(
    args: Seq<AirArg>,
    r: AirOp,
    frame: FrameView,
    prefix: Seq<char>,
    labels: usize,
    write_loops: usize,
)
    requires
        instruction_args_ok(Builtin::Div, args),
        instruction_op_ok(Builtin::Div, args, r),
    ensures
        op_text(frame, prefix, labels, write_loops, r) == cat(
            load_arg_text(frame, args[0], "rax"@),
            cat(
                load_arg_text(frame, args[1], "rbx"@),
                cat(
                    Ok(div_core_text(local_label(prefix, "div_zero"@, labels))),
                    cat(
                        value_jump_text(frame, args[args.len() - 1].name@, true),
                        cat(
                            Ok(label_line(local_label(prefix, "div_zero"@, labels))),
                            value_jump_text(frame, args[args.len() - 2].name@, true),
                        ),
                    ),
                ),
            ),
        ),
{
    reveal(op_text);
}

/// `eq(a, b, k)` (and `eqi`) jumps to `k` exactly when `a == b`: the code for the
/// operation the call becomes loads the first argument into `rax` and the second into
/// `rbx`, compares them (`cmp rax, rbx`) and jumps to the continuation with a condition
/// that holds exactly when they are equal.
pub proof fn lemma_equality_jumps(
    b: Builtin,
    args: Seq<AirArg>,
    r: AirOp,
    frame: FrameView,
    prefix: Seq<char>,
    labels: usize,
    write_loops: usize,
)
    requires
        b is Eq || b is Eqi,
        instruction_args_ok(b, args),
        instruction_op_ok(b, args, r),
        args.len() >= 3,
    ensures
        exists|m: Seq<char>|
            op_text(frame, prefix, labels, write_loops, r) == #[trigger] cat(
                load_arg_text(frame, args[0], "rax"@),
                cat(
                    load_arg_text(frame, args[1], "rbx"@),
                    Ok(ln("    cmp rax, rbx"@) + ln("    "@ + m + " "@ + args[args.len() - 1].name@)),
                ),
            ) && forall|x: int, y: int| #[trigger] signed_jump_taken(m, x, y) == Some(x == y),
{
    reveal(op_text);
    reveal_strlit("jl");
    reveal_strlit("jle");
    reveal_strlit("jg");
    reveal_strlit("jge");
    reveal_strlit("je");
    reveal_strlit("    je ");
    reveal_strlit("    ");
    reveal_strlit(" ");
    assert("jl"@.len() == 2 && "jl"@[1] == 'l');
    assert("jle"@.len() == 3);
    assert("jg"@.len() == 2 && "jg"@[1] == 'g');
    assert("jge"@.len() == 3);
    assert("je"@.len() == 2 && "je"@[1] == 'e');
    let m = "je"@;
    let t = args[args.len() - 1].name@;
    assert("    "@ + m + " "@ + t =~= "    je "@ + t);
    let inputs = args.take(args.len() - 1);
    assert(inputs[0] == args[0]);
    assert(inputs[1] == args[1]);
    assert(op_text(frame, prefix, labels, write_loops, r) == cat(
        load_arg_text(frame, args[0], "rax"@),
        cat(load_arg_text(frame, args[1], "rbx"@), Ok(ln("    cmp rax, rbx"@) + ln("    "@ + m + " "@ + t))),
    ));
    assert forall|x: int, y: int| #[trigger] signed_jump_taken(m, x, y) == Some(x == y) by {}
}

} // verus!
