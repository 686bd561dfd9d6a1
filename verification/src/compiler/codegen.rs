//! The NASM text around the generated functions: the preamble, `extern` declarations,
//! the data section, and the frame layout of a function's bindings.

use vstd::prelude::*;

use crate::compiler::air_ast::{AirArg, AirFunction, AirOp, AirStmt};
use crate::compiler::builtins::{runtime_helper_name, AirRuntimeHelper};
use crate::compiler::error::{Code, Error};
use crate::name_set::{insert_name, insert_sorted, sorted_set_from, sorted_set_of};
use crate::compiler::hir_ast::{names_view, Lit, SigItem};
use crate::compiler::span::Span;
use crate::text::{push_str, str_eq};
use crate::{escape_literal_for_rodata, rodata_text};

verus! {

pub const WORD_SIZE: usize = 8;
pub const ENV_METADATA_UNWRAPPER_OFFSET: usize = 0;
pub const ENV_METADATA_RELEASE_OFFSET: usize = 8;
pub const ENV_METADATA_DEEP_COPY_OFFSET: usize = 16;
pub const ENV_METADATA_ENV_SIZE_OFFSET: usize = 24;
pub const ENV_METADATA_HEAP_SIZE_OFFSET: usize = 32;
pub const ENV_METADATA_NUM_REMAINING_OFFSET: usize = 40;
pub const ENV_METADATA_SIZE: usize = 48;
pub const CLOSURE_ENV_REG: &'static str = "r12";
pub const SYSCALL_MMAP: i32 = 9;
pub const SYSCALL_MUNMAP: i32 = 11;
pub const SYSCALL_EXIT: i32 = 60;
pub const PROT_READ: i32 = 1;
pub const PROT_WRITE: i32 = 2;
pub const MAP_PRIVATE: i32 = 2;
pub const MAP_ANONYMOUS: i32 = 32;
pub const FMT_BUFFER_SIZE: usize = 1024;

// ---------------------------------------------------------------------------
// Artifacts collected across functions
// ---------------------------------------------------------------------------

/// What the functions of a program need besides their own code: the string literals
/// of the data section (by label, each label once, in the order of first use), the
/// external symbols to declare, and the helpers and builtins emitted already.
#[derive(Debug)]
pub struct Artifacts {
    pub string_literals: Vec<(String, String)>,
    /// An ordered set.
    pub externs: Vec<String>,
    /// An ordered set.
    pub builtins_used: Vec<String>,
}

pub open spec fn literal_pairs(s: Seq<(String, String)>) -> Seq<(Seq<char>, Seq<char>)> {
    Seq::new(s.len(), |i: int| (s[i].0@, s[i].1@))
}

/// Whether a label is among the pairs.
pub open spec fn has_label(s: Seq<(Seq<char>, Seq<char>)>, label: Seq<char>) -> bool {
    exists|i: int| 0 <= i < s.len() && (#[trigger] s[i]).0 == label
}

impl Artifacts {
    pub open spec fn literal_table(&self) -> Seq<(Seq<char>, Seq<char>)> {
        literal_pairs(self.string_literals@)
    }

    /// Nothing collected yet.
    pub fn new() -> (r: Self)
        ensures
            r.string_literals@.len() == 0,
            r.externs@.len() == 0,
            r.builtins_used@.len() == 0,
    {
        Artifacts { string_literals: Vec::new(), externs: Vec::new(), builtins_used: Vec::new() }
    }

    /// The string literals of the data section: label and value, in order.
    pub fn string_literals(&self) -> (r: &Vec<(String, String)>)
        ensures
            r == &self.string_literals,
    {
        &self.string_literals
    }

    /// Adds a string literal under `label`, unless that label has one already.
    pub fn add_string_literal(&mut self, label: &str, value: &str)
        ensures
            final(self).literal_table() == (if has_label(old(self).literal_table(), label@) {
                old(self).literal_table()
            } else {
                old(self).literal_table().push((label@, value@))
            }),
            final(self).externs == old(self).externs,
            final(self).builtins_used == old(self).builtins_used,
    {
        let mut i: usize = 0;
        while i < self.string_literals.len()
            invariant
                i <= self.string_literals@.len(),
                forall|j: int| 0 <= j < i ==> (#[trigger] self.string_literals@[j]).0@ != label@,
            decreases self.string_literals@.len() - i,
        {
            if str_eq(self.string_literals[i].0.as_str(), label) {
                proof {
                    assert(self.literal_table()[i as int].0 == label@);
                }
                return;
            }
            i = i + 1;
        }
        proof {
            assert forall|j: int| 0 <= j < self.literal_table().len() implies (#[trigger] self.literal_table()[j]).0 != label@ by {
                assert(self.literal_table()[j].0 == self.string_literals@[j].0@);
            }
        }
        self.string_literals.push((label.to_string(), value.to_string()));
        proof {
            assert(self.literal_table() =~= old(self).literal_table().push((label@, value@)));
        }
    }
}

/// The table after `label` is given `value` (a label keeps its first value).
pub open spec fn add_literal(table: Seq<(Seq<char>, Seq<char>)>, label: Seq<char>, value: Seq<char>) -> Seq<(Seq<char>, Seq<char>)> {
    if has_label(table, label) {
        table
    } else {
        table.push((label, value))
    }
}

/// The table after the string literals among `args`, each under its argument's name.
pub open spec fn literal_fold(table: Seq<(Seq<char>, Seq<char>)>, args: Seq<AirArg>) -> Seq<(Seq<char>, Seq<char>)>
    decreases args.len(),
{
    if args.len() == 0 {
        table
    } else {
        let t = literal_fold(table, args.drop_last());
        match args.last().literal {
            Some(Lit::Str(v)) => add_literal(t, args.last().name@, v@),
            _ => t,
        }
    }
}

/// The arguments of an operation whose string literals go to the data section.
pub open spec fn op_literal_args(op: AirOp) -> Seq<AirArg> {
    match op {
        AirOp::JumpClosure(j) => j.args@,
        AirOp::NewClosure(c) => c.args@,
        AirOp::SetField(f) => seq![f.value],
        AirOp::JumpEqInt(eq) => eq.args@,
        AirOp::JumpEqStr(eq) => eq.args@,
        AirOp::Add(a) => seq![a.input_a, a.input_b],
        AirOp::Sub(a) => seq![a.input_a, a.input_b],
        AirOp::Mul(a) => seq![a.input_a, a.input_b],
        AirOp::DivInt(d) => seq![d.input_a, d.input_b],
        AirOp::Printf(p) => p.args@,
        AirOp::Sprintf(p) => p.args@,
        AirOp::Write(w) => w.args@,
        AirOp::JumpArgs(j) => j.args@,
        AirOp::SysExit(x) => x.args@,
        _ => seq![],
    }
}

/// The external symbol that an operation calls.
pub open spec fn op_extern(op: AirOp) -> Option<Seq<char>> {
    match op {
        AirOp::Printf(_) => Some("printf"@),
        AirOp::Sprintf(_) => Some("sprintf"@),
        AirOp::Write(_) => Some("write"@),
        AirOp::SysExit(_) => Some("exit"@),
        AirOp::CallPtr(_) => Some("release_heap_ptr"@),
        AirOp::ReleaseHeap(_) => Some("release_heap_ptr"@),
        AirOp::CopyField(_) => Some("deepcopy_heap_ptr"@),
        _ => None,
    }
}

/// The literal table and the `extern` names after one statement.
pub open spec fn collect_step(st: (Seq<(Seq<char>, Seq<char>)>, Seq<Seq<char>>), stmt: AirStmt) -> (Seq<(Seq<char>, Seq<char>)>, Seq<Seq<char>>) {
    match stmt {
        AirStmt::Op(op) => (literal_fold(st.0, op_literal_args(*op)), match op_extern(*op) {
            Some(n) => insert_name(st.1, n),
            None => st.1,
        }),
        AirStmt::Label(_) => st,
    }
}

/// The same after the statements, in order.
pub open spec fn collect_stmts(st: (Seq<(Seq<char>, Seq<char>)>, Seq<Seq<char>>), stmts: Seq<AirStmt>) -> (Seq<(Seq<char>, Seq<char>)>, Seq<Seq<char>>)
    decreases stmts.len(),
{
    if stmts.len() == 0 {
        st
    } else {
        collect_step(collect_stmts(st, stmts.drop_last()), stmts.last())
    }
}

/// The same after the statements of the functions, in order, from nothing.
pub open spec fn collect_functions(funcs: Seq<AirFunction>) -> (Seq<(Seq<char>, Seq<char>)>, Seq<Seq<char>>)
    decreases funcs.len(),
{
    if funcs.len() == 0 {
        (Seq::empty(), Seq::empty())
    } else {
        collect_stmts(collect_functions(funcs.drop_last()), funcs.last().items@)
    }
}

impl Artifacts {
    /// The string literals and the external symbols of a program's functions.
    pub fn collect(functions: &Vec<AirFunction>) -> (r: Self)
        ensures
            (r.literal_table(), names_view(r.externs@)) == collect_functions(functions@),
            r.builtins_used@.len() == 0,
    {
        let mut artifacts = Artifacts::new();
        proof {
            assert(artifacts.literal_table() =~= Seq::<(Seq<char>, Seq<char>)>::empty());
            assert(names_view(artifacts.externs@) =~= Seq::<Seq<char>>::empty());
            assert(functions@.take(0) =~= Seq::<AirFunction>::empty());
        }
        let mut f: usize = 0;
        while f < functions.len()
            invariant
                f <= functions@.len(),
                artifacts.builtins_used@.len() == 0,
                (artifacts.literal_table(), names_view(artifacts.externs@)) == collect_functions(functions@.take(f as int)),
            decreases functions@.len() - f,
        {
            let items = &functions[f].items;
            let ghost before = (artifacts.literal_table(), names_view(artifacts.externs@));
            proof {
                assert(items@.take(0) =~= Seq::<AirStmt>::empty());
            }
            let mut i: usize = 0;
            while i < items.len()
                invariant
                    i <= items@.len(),
                    artifacts.builtins_used@.len() == 0,
                    (artifacts.literal_table(), names_view(artifacts.externs@)) == collect_stmts(before, items@.take(i as int)),
                decreases items@.len() - i,
            {
                artifacts.process_statement(&items[i]);
                proof {
                    assert(items@.take(i + 1).drop_last() =~= items@.take(i as int));
                }
                i = i + 1;
            }
            proof {
                assert(items@.take(items@.len() as int) =~= items@);
                assert(functions@.take(f + 1).drop_last() =~= functions@.take(f as int));
            }
            f = f + 1;
        }
        proof {
            assert(functions@.take(functions@.len() as int) =~= functions@);
        }
        artifacts
    }

    /// Records the string literals and the external symbol of one statement.
    pub fn process_statement(&mut self, stmt: &AirStmt)
        ensures
            (final(self).literal_table(), names_view(final(self).externs@))
                == collect_step((old(self).literal_table(), names_view(old(self).externs@)), *stmt),
            final(self).builtins_used == old(self).builtins_used,
    {
        match stmt {
            AirStmt::Op(op) => {
                self.collect_literals_in_op(op);
                let name: Option<&str> = match &**op {
                    AirOp::Printf(_) => Some("printf"),
                    AirOp::Sprintf(_) => Some("sprintf"),
                    AirOp::Write(_) => Some("write"),
                    AirOp::SysExit(_) => Some("exit"),
                    AirOp::CallPtr(_) => Some("release_heap_ptr"),
                    AirOp::ReleaseHeap(_) => Some("release_heap_ptr"),
                    AirOp::CopyField(_) => Some("deepcopy_heap_ptr"),
                    _ => None,
                };
                match name {
                    Some(n) => insert_sorted(&mut self.externs, n.to_string()),
                    None => {},
                }
            },
            AirStmt::Label(_) => {},
        }
    }

    fn collect_literal_in_arg(&mut self, arg: &AirArg)
        ensures
            final(self).literal_table() == (match arg.literal {
                Some(Lit::Str(v)) => add_literal(old(self).literal_table(), arg.name@, v@),
                _ => old(self).literal_table(),
            }),
            final(self).externs == old(self).externs,
            final(self).builtins_used == old(self).builtins_used,
    {
        match &arg.literal {
            Some(Lit::Str(value)) => self.add_string_literal(arg.name.as_str(), value.as_str()),
            _ => {},
        }
    }

    /// Records the string literals among `args`.
    pub fn collect_literals_in_args(&mut self, args: &Vec<AirArg>)
        ensures
            final(self).literal_table() == literal_fold(old(self).literal_table(), args@),
            final(self).externs == old(self).externs,
            final(self).builtins_used == old(self).builtins_used,
    {
        let ghost start = self.literal_table();
        let mut i: usize = 0;
        proof {
            assert(args@.take(0) =~= Seq::<AirArg>::empty());
        }
        while i < args.len()
            invariant
                i <= args@.len(),
                self.literal_table() == literal_fold(start, args@.take(i as int)),
                self.externs == old(self).externs,
                self.builtins_used == old(self).builtins_used,
            decreases args@.len() - i,
        {
            self.collect_literal_in_arg(&args[i]);
            proof {
                assert(args@.take(i + 1).drop_last() =~= args@.take(i as int));
            }
            i = i + 1;
        }
        proof {
            assert(args@.take(args@.len() as int) =~= args@);
        }
    }

    fn collect_literals_in_pair(&mut self, a: &AirArg, b: &AirArg)
        ensures
            final(self).literal_table() == literal_fold(old(self).literal_table(), seq![*a, *b]),
            final(self).externs == old(self).externs,
            final(self).builtins_used == old(self).builtins_used,
    {
        self.collect_literal_in_arg(a);
        self.collect_literal_in_arg(b);
        proof {
            assert(seq![*a, *b].drop_last() =~= seq![*a]);
            assert(seq![*a].drop_last() =~= Seq::<AirArg>::empty());
            reveal_with_fuel(literal_fold, 3);
        }
    }

    /// Records the string literals of one operation.
    pub fn collect_literals_in_op(&mut self, op: &AirOp)
        ensures
            final(self).literal_table() == literal_fold(old(self).literal_table(), op_literal_args(*op)),
            final(self).externs == old(self).externs,
            final(self).builtins_used == old(self).builtins_used,
    {
        match op {
            AirOp::JumpClosure(j) => self.collect_literals_in_args(&j.args),
            AirOp::NewClosure(c) => self.collect_literals_in_args(&c.args),
            AirOp::SetField(f) => {
                self.collect_literal_in_arg(&f.value);
                proof {
                    assert(seq![f.value].drop_last() =~= Seq::<AirArg>::empty());
                    reveal_with_fuel(literal_fold, 2);
                }
            },
            AirOp::JumpEqInt(eq) => self.collect_literals_in_args(&eq.args),
            AirOp::JumpEqStr(eq) => self.collect_literals_in_args(&eq.args),
            AirOp::Add(a) => self.collect_literals_in_pair(&a.input_a, &a.input_b),
            AirOp::Sub(a) => self.collect_literals_in_pair(&a.input_a, &a.input_b),
            AirOp::Mul(a) => self.collect_literals_in_pair(&a.input_a, &a.input_b),
            AirOp::DivInt(d) => self.collect_literals_in_pair(&d.input_a, &d.input_b),
            AirOp::Printf(p) => self.collect_literals_in_args(&p.args),
            AirOp::Sprintf(p) => self.collect_literals_in_args(&p.args),
            AirOp::Write(w) => self.collect_literals_in_args(&w.args),
            AirOp::JumpArgs(j) => self.collect_literals_in_args(&j.args),
            AirOp::SysExit(x) => self.collect_literals_in_args(&x.args),
            _ => {
                assert(op_literal_args(*op) =~= Seq::<AirArg>::empty());
            },
        }
    }
}

impl Default for Artifacts {
    fn default() -> (r: Self)
        ensures
            r.string_literals@.len() == 0,
            r.externs@.len() == 0,
            r.builtins_used@.len() == 0,
    {
        Artifacts::new()
    }
}

// ---------------------------------------------------------------------------
// Sections
// ---------------------------------------------------------------------------

/// The lines that start every program.
pub open spec fn preamble_text() -> Seq<char> {
    "bits 64\n"@ + "default rel\n"@ + "section .text\n"@
}

/// The preamble: 64-bit code, RIP-relative addressing, the text section.
pub fn write_preamble() -> (r: String)
    ensures
        r@ == preamble_text(),
{
    let mut out = String::new();
    push_str(&mut out, "bits 64\n");
    push_str(&mut out, "default rel\n");
    push_str(&mut out, "section .text\n");
    out
}

/// `extern {name}` lines for the names of an ordered set, in order.
pub open spec fn extern_lines(names: Seq<Seq<char>>) -> Seq<char>
    decreases names.len(),
{
    if names.len() == 0 {
        seq![]
    } else {
        extern_lines(names.drop_last()) + "extern "@ + names.last() + "\n"@
    }
}

/// One `extern` line for each of the names, in order, each name once.
pub fn emit_externs(externs: &Vec<String>) -> (r: String)
    ensures
        r@ == extern_lines(sorted_set_of(names_view(externs@))),
{
    let names = sorted_set_from(externs);
    let ghost v = names_view(names@);
    let mut out = String::new();
    let mut i: usize = 0;
    proof {
        assert(v.take(0) =~= Seq::<Seq<char>>::empty());
    }
    while i < names.len()
        invariant
            i <= names@.len(),
            v == names_view(names@),
            out@ == extern_lines(v.take(i as int)),
        decreases names@.len() - i,
    {
        proof {
            assert(v.take(i + 1).drop_last() =~= v.take(i as int));
            assert(v.take(i + 1).last() == names@[i as int]@);
        }
        push_str(&mut out, "extern ");
        push_str(&mut out, names[i].as_str());
        push_str(&mut out, "\n");
        i = i + 1;
    }
    proof {
        assert(v.take(names@.len() as int) =~= v);
    }
    out
}

/// `{label}:` and a `db` line with the literal's bytes and a terminating zero, for each
/// literal in order.
pub open spec fn data_lines(literals: Seq<(String, String)>) -> Seq<char>
    decreases literals.len(),
{
    if literals.len() == 0 {
        seq![]
    } else {
        let (label, literal) = literals.last();
        data_lines(literals.drop_last()) + label@ + ":\n"@ + "    db "@ + rodata_text(vstd::utf8::encode_utf8(literal@))
            + ", 0\n"@
    }
}

/// `data_lines` over a table of label and value texts.
pub open spec fn table_data_lines(table: Seq<(Seq<char>, Seq<char>)>) -> Seq<char>
    decreases table.len(),
{
    if table.len() == 0 {
        seq![]
    } else {
        table_data_lines(table.drop_last()) + table.last().0 + ":\n"@ + "    db "@
            + rodata_text(vstd::utf8::encode_utf8(table.last().1)) + ", 0\n"@
    }
}

/// The lines of a table of strings are those of its texts.
pub proof fn lemma_data_lines_table(literals: Seq<(String, String)>)
    ensures
        data_lines(literals) == table_data_lines(literal_pairs(literals)),
    decreases literals.len(),
{
    if literals.len() > 0 {
        lemma_data_lines_table(literals.drop_last());
        assert(literal_pairs(literals.drop_last()) =~= literal_pairs(literals).drop_last());
    }
}

/// The read-only data section with the string literals; nothing when there are none.
pub fn emit_data(string_literals: &Vec<(String, String)>) -> (r: String)
    ensures
        r@ == (if string_literals@.len() == 0 {
            seq![]
        } else {
            "section .rodata\n"@ + data_lines(string_literals@)
        }),
{
    let mut out = String::new();
    if string_literals.len() == 0 {
        return out;
    }
    push_str(&mut out, "section .rodata\n");
    let ghost s = string_literals@;
    let mut i: usize = 0;
    proof {
        assert(s.take(0) =~= Seq::<(String, String)>::empty());
    }
    while i < string_literals.len()
        invariant
            i <= s.len(),
            s == string_literals@,
            out@ == "section .rodata\n"@ + data_lines(s.take(i as int)),
        decreases s.len() - i,
    {
        proof {
            assert(s.take(i + 1).drop_last() =~= s.take(i as int));
            assert(s.take(i + 1).last() == s[i as int]);
        }
        let (label, literal) = &string_literals[i];
        push_str(&mut out, label.as_str());
        push_str(&mut out, ":\n");
        push_str(&mut out, "    db ");
        let escaped = escape_literal_for_rodata(literal.as_str());
        push_str(&mut out, escaped.as_str());
        push_str(&mut out, ", 0\n");
        i = i + 1;
    }
    proof {
        assert(s.take(s.len() as int) =~= s);
    }
    out
}

// ---------------------------------------------------------------------------
// Runtime helpers
// ---------------------------------------------------------------------------

/// The names without `x`.
pub open spec fn without_name(v: Seq<Seq<char>>, x: Seq<char>) -> Seq<Seq<char>> {
    v.filter(|y: Seq<char>| y != x)
}

/// Removes every occurrence of `name`.
pub(crate) fn remove_name(names: &mut Vec<String>, name: &str)
    ensures
        names_view(final(names)@) == without_name(names_view(old(names)@), name@),
{
    let ghost v = names_view(names@);
    let mut out: Vec<String> = Vec::new();
    let mut i: usize = 0;
    proof {
        assert(v.take(0) =~= Seq::<Seq<char>>::empty());
        assert(without_name(v.take(0), name@) =~= Seq::<Seq<char>>::empty());
    }
    while i < names.len()
        invariant
            i <= names@.len(),
            v == names_view(names@),
            names_view(out@) == without_name(v.take(i as int), name@),
        decreases names@.len() - i,
    {
        proof {
            assert(v.take(i + 1).drop_last() =~= v.take(i as int));
            reveal(Seq::filter);
        }
        if !str_eq(names[i].as_str(), name) {
            out.push(names[i].clone());
            proof {
                assert(names_view(out@) =~= without_name(v.take(i as int), name@).push(v[i as int]));
            }
        }
        i = i + 1;
    }
    proof {
        assert(v.take(names@.len() as int) =~= v);
    }
    *names = out;
}

/// Whether an ordered set holds `name`.
fn set_contains(names: &Vec<String>, name: &str) -> (r: bool)
    ensures
        r == names_view(names@).contains(name@),
{
    crate::compiler::hir_context::contains_name(names, name)
}

/// The text of a runtime helper.
pub open spec fn helper_text(helper: AirRuntimeHelper) -> Seq<char> {
    match helper {
        AirRuntimeHelper::ReleaseHeapPtr => crate::compiler::runtime::release_heap_ptr_text(),
        AirRuntimeHelper::DeepCopyHeapPtr => crate::compiler::runtime::deepcopy_heap_ptr_text(),
        AirRuntimeHelper::MemcpyHelper => crate::compiler::runtime::memcpy_helper_text(),
    }
}

/// The text of a runtime helper the first time it is needed (and nothing after that); it
/// is then defined here rather than declared `extern`.
pub fn emit_runtime_helper_once(helper: AirRuntimeHelper, artifacts: &mut Artifacts) -> (r: String)
    ensures
        ({
            let name = runtime_helper_name(helper);
            if names_view(old(artifacts).builtins_used@).contains(name) {
                r@.len() == 0 && *final(artifacts) == *old(artifacts)
            } else {
                &&& r@ == helper_text(helper)
                &&& names_view(final(artifacts).builtins_used@) == insert_name(names_view(old(artifacts).builtins_used@), name)
                &&& names_view(final(artifacts).externs@) == without_name(names_view(old(artifacts).externs@), name)
                &&& final(artifacts).string_literals == old(artifacts).string_literals
            }
        }),
{
    let name = helper.name();
    if set_contains(&artifacts.builtins_used, name) {
        return String::new();
    }
    insert_sorted(&mut artifacts.builtins_used, name.to_string());
    remove_name(&mut artifacts.externs, name);
    match helper {
        AirRuntimeHelper::ReleaseHeapPtr => crate::compiler::runtime::emit_release_heap_ptr(),
        AirRuntimeHelper::DeepCopyHeapPtr => crate::compiler::runtime::emit_deepcopy_heap_ptr(),
        AirRuntimeHelper::MemcpyHelper => crate::compiler::runtime::emit_memcpy_helper(),
    }
}

/// Whether a statement is the operation `pred` picks.
pub open spec fn stmt_releases(stmt: AirStmt) -> bool {
    match stmt {
        AirStmt::Op(op) => (*op is ReleaseHeap) || (*op is CallPtr),
        AirStmt::Label(_) => false,
    }
}

/// Whether a statement copies an environment word deeply.
pub open spec fn stmt_deep_copies(stmt: AirStmt) -> bool {
    match stmt {
        AirStmt::Op(op) => *op is CopyField,
        AirStmt::Label(_) => false,
    }
}

/// Whether some statement releases a heap environment.
pub open spec fn needs_release(items: Seq<AirStmt>) -> bool {
    exists|i: int| 0 <= i < items.len() && stmt_releases(#[trigger] items[i])
}

/// Whether some statement copies a heap value deeply.
pub open spec fn needs_deepcopy(items: Seq<AirStmt>) -> bool {
    exists|i: int| 0 <= i < items.len() && stmt_deep_copies(#[trigger] items[i])
}

/// One helper emitted once: the text so far, the names emitted, the `extern` names.
pub open spec fn helper_step(st: (Seq<char>, Seq<Seq<char>>, Seq<Seq<char>>), helper: AirRuntimeHelper) -> (Seq<char>, Seq<Seq<char>>, Seq<Seq<char>>) {
    let name = runtime_helper_name(helper);
    if st.1.contains(name) {
        st
    } else {
        (st.0 + helper_text(helper), insert_name(st.1, name), without_name(st.2, name))
    }
}

/// The runtime helpers that a function's statements need, each defined the first time:
/// the release helper where an environment is released, the deep copy helper and the
/// byte copy it uses where a value is copied deeply.
pub open spec fn runtime_helpers_model(used: Seq<Seq<char>>, externs: Seq<Seq<char>>, items: Seq<AirStmt>) -> (Seq<char>, Seq<Seq<char>>, Seq<Seq<char>>) {
    let s0 = (Seq::<char>::empty(), used, externs);
    let s1 = if needs_release(items) { helper_step(s0, AirRuntimeHelper::ReleaseHeapPtr) } else { s0 };
    let s2 = if needs_deepcopy(items) { helper_step(s1, AirRuntimeHelper::DeepCopyHeapPtr) } else { s1 };
    if needs_deepcopy(items) { helper_step(s2, AirRuntimeHelper::MemcpyHelper) } else { s2 }
}

fn scan_helper_needs(items: &Vec<AirStmt>) -> (r: (bool, bool))
    ensures
        r.0 == needs_release(items@),
        r.1 == needs_deepcopy(items@),
{
    let mut release = false;
    let mut deepcopy = false;
    let mut i: usize = 0;
    while i < items.len()
        invariant
            i <= items@.len(),
            release == exists|j: int| 0 <= j < i && stmt_releases(#[trigger] items@[j]),
            deepcopy == exists|j: int| 0 <= j < i && stmt_deep_copies(#[trigger] items@[j]),
        decreases items@.len() - i,
    {
        match &items[i] {
            AirStmt::Op(op) => match &**op {
                AirOp::ReleaseHeap(_) | AirOp::CallPtr(_) => { release = true; },
                AirOp::CopyField(_) => { deepcopy = true; },
                _ => {},
            },
            AirStmt::Label(_) => {},
        }
        proof {
            assert(stmt_releases(items@[i as int]) ==> (exists|j: int| 0 <= j < i + 1 && stmt_releases(#[trigger] items@[j])));
            assert(stmt_deep_copies(items@[i as int]) ==> (exists|j: int| 0 <= j < i + 1 && stmt_deep_copies(#[trigger] items@[j])));
        }
        i = i + 1;
    }
    (release, deepcopy)
}

/// The runtime helpers that the statements of `air` need and that were not emitted yet.
pub fn emit_runtime_helpers(air: &AirFunction, artifacts: &mut Artifacts) -> (r: String)
    ensures
        (r@, names_view(final(artifacts).builtins_used@), names_view(final(artifacts).externs@))
            == runtime_helpers_model(names_view(old(artifacts).builtins_used@), names_view(old(artifacts).externs@), air.items@),
        final(artifacts).string_literals == old(artifacts).string_literals,
{
    let (release, deepcopy) = scan_helper_needs(&air.items);
    let mut out = String::new();
    if release {
        let t = emit_runtime_helper_once(AirRuntimeHelper::ReleaseHeapPtr, artifacts);
        push_str(&mut out, t.as_str());
    }
    let ghost s1 = (out@, names_view(artifacts.builtins_used@), names_view(artifacts.externs@));
    assert(s1.0 =~= (if release { helper_step((Seq::<char>::empty(), names_view(old(artifacts).builtins_used@), names_view(old(artifacts).externs@)), AirRuntimeHelper::ReleaseHeapPtr) } else { (Seq::<char>::empty(), names_view(old(artifacts).builtins_used@), names_view(old(artifacts).externs@)) }).0);
    if deepcopy {
        let t = emit_runtime_helper_once(AirRuntimeHelper::DeepCopyHeapPtr, artifacts);
        push_str(&mut out, t.as_str());
        proof {
            if t@.len() == 0 {
                assert(out@ =~= s1.0);
            }
        }
        let ghost s2 = (out@, names_view(artifacts.builtins_used@), names_view(artifacts.externs@));
        let t2 = emit_runtime_helper_once(AirRuntimeHelper::MemcpyHelper, artifacts);
        push_str(&mut out, t2.as_str());
        proof {
            if t2@.len() == 0 {
                assert(out@ =~= s2.0);
            }
        }
    }
    out
}

/// The functions whose bodies are written in assembly: `itoa` and the runtime helpers,
/// when the function has no statements of its own.
pub open spec fn is_asm_builtin(air: AirFunction) -> bool {
    air.items@.len() == 0 && (air.sig.name@ == "itoa"@ || air.sig.name@ == "release_heap_ptr"@
        || air.sig.name@ == "deepcopy_heap_ptr"@ || air.sig.name@ == "memcpy_helper"@)
}

/// The text of such a function.
pub open spec fn asm_builtin_text(name: Seq<char>) -> Seq<char> {
    if name == "itoa"@ {
        crate::compiler::runtime::builtin_itoa_text()
    } else if name == "release_heap_ptr"@ {
        crate::compiler::runtime::release_heap_ptr_text()
    } else if name == "deepcopy_heap_ptr"@ {
        crate::compiler::runtime::deepcopy_heap_ptr_text()
    } else {
        crate::compiler::runtime::memcpy_helper_text()
    }
}

/// The code of a function itself: its assembly text where it is such a builtin, else its
/// emission in its own frame.
pub open spec fn function_body_text(air: AirFunction) -> Result<Seq<char>, Seq<char>> {
    if is_asm_builtin(air) {
        Ok(asm_builtin_text(air.sig.name@))
    } else if air.sig.params@.len() + air.items@.len() > MAX_FRAME_WORDS {
        Err(crate::compiler::emitter::too_many_words_message())
    } else {
        crate::compiler::emitter::function_asm_text(frame_of(air), air)
    }
}

/// The text of one function of the program: the runtime helpers it needs that were not
/// emitted before, then, the first time a function of its name comes, its code (a name
/// is emitted once). An error of the emission is the code generator's.
pub fn function(air: &AirFunction, artifacts: &mut Artifacts) -> (r: Result<String, Error>)
    ensures
        ({
            let (helpers, used, externs) = runtime_helpers_model(names_view(old(artifacts).builtins_used@),
                names_view(old(artifacts).externs@), air.items@);
            &&& names_view(final(artifacts).externs@) == externs
            &&& if used.contains(air.sig.name@) {
                &&& r matches Ok(t) && t@ == helpers
                &&& names_view(final(artifacts).builtins_used@) == used
                &&& final(artifacts).literal_table() == old(artifacts).literal_table()
            } else {
                &&& names_view(final(artifacts).builtins_used@) == insert_name(used, air.sig.name@)
                &&& final(artifacts).literal_table() == (if is_asm_builtin(*air) && air.sig.name@ == "itoa"@
                    && !has_label(old(artifacts).literal_table(), crate::compiler::runtime::ITOA_MIN_LABEL@) {
                    old(artifacts).literal_table().push((crate::compiler::runtime::ITOA_MIN_LABEL@, crate::compiler::runtime::ITOA_MIN_VALUE@))
                } else {
                    old(artifacts).literal_table()
                })
                &&& match function_body_text(*air) {
                    Ok(body) => r matches Ok(t) && t@ == helpers + body,
                    Err(m) => r matches Err(e) && e.code == Code::Codegen && e.message@ == m,
                }
            }
        }),
{
    let helpers = emit_runtime_helpers(air, artifacts);
    let name = air.sig.name.as_str();
    if set_contains(&artifacts.builtins_used, name) {
        return Ok(helpers);
    }
    insert_sorted(&mut artifacts.builtins_used, name.to_string());
    match crate::compiler::runtime::emit_builtin_function(air, artifacts) {
        Some(t) => {
            let mut out = helpers;
            push_str(&mut out, t.as_str());
            return Ok(out);
        },
        None => {},
    }
    let frame = match FrameLayout::build(air) {
        Ok(f) => f,
        Err(e) => { return Err(e); },
    };
    match crate::compiler::emitter::emit_function(air, frame) {
        Ok(body) => {
            let mut out = helpers;
            push_str(&mut out, body.as_str());
            Ok(out)
        },
        Err(e) => Err(e),
    }
}

// ---------------------------------------------------------------------------
// Frame layout
// ---------------------------------------------------------------------------

/// Where a binding lives: `offset` bytes below the frame base.
#[derive(Clone, Copy, Debug)]
pub struct Binding {
    pub offset: i32,
}

impl Binding {
    /// The frame offset of word `slot` of the binding.
    pub fn slot_addr(&self, slot: usize) -> (r: i32)
        requires
            i32::MIN <= self.offset - slot * 8 <= i32::MAX,
        ensures
            r == self.offset - slot * 8,
    {
        let s = slot as i64;
        (self.offset as i64 - s * 8) as i32
    }
}

/// The words of a function's frame: one per binding, allocated downwards.
#[derive(Debug)]
pub struct FrameLayout {
    pub bindings: Vec<(String, Binding)>,
    pub stack_size: i32,
    pub next_offset: i32,
}

pub open spec fn binding_offsets(s: Seq<(String, Binding)>) -> Seq<(Seq<char>, i32)> {
    Seq::new(s.len(), |i: int| (s[i].0@, s[i].1.offset))
}

/// A frame as the emitted code sees it: the offset of each name's slot (the last
/// allocation of a name wins) and the size of the frame.
pub struct FrameView {
    pub offsets: Seq<(Seq<char>, i32)>,
    pub stack_size: i32,
}

impl FrameView {
    /// The offset of the slot of `name`.
    pub open spec fn offset_of(self, name: Seq<char>) -> Option<i32> {
        crate::compiler::symbol::assoc_lookup(self.offsets, name)
    }
}

impl View for FrameLayout {
    type V = FrameView;

    open spec fn view(&self) -> FrameView {
        FrameView { offsets: binding_offsets(self.bindings@), stack_size: self.stack_size }
    }
}

impl FrameLayout {
    /// The offset that a name's binding has: that of its last allocation.
    pub open spec fn offset_of(&self, name: Seq<char>) -> Option<i32> {
        crate::compiler::symbol::assoc_lookup(binding_offsets(self.bindings@), name)
    }

    /// An empty frame.
    pub fn new() -> (r: Self)
        ensures
            r.bindings@.len() == 0,
            r.stack_size == 0,
            r.next_offset == 0,
    {
        FrameLayout { bindings: Vec::new(), stack_size: 0, next_offset: 0 }
    }

    /// Allocates the next word of the frame to `name`.
    pub fn allocate_word(&mut self, name: &str) -> (r: Result<(), Error>)
        requires
            old(self).next_offset + 8 <= i32::MAX,
        ensures
            r is Ok,
            final(self).next_offset == old(self).next_offset + 8,
            final(self).stack_size == old(self).stack_size,
            binding_offsets(final(self).bindings@) == binding_offsets(old(self).bindings@).push((name@, final(self).next_offset)),
    {
        self.next_offset = self.next_offset + 8;
        let b = Binding { offset: self.next_offset };
        self.bindings.push((name.to_string(), b));
        proof {
            assert(binding_offsets(self.bindings@) =~= binding_offsets(old(self).bindings@).push((name@, self.next_offset)));
        }
        Ok(())
    }

    fn find(&self, name: &str) -> (r: Option<usize>)
        ensures
            match r {
                Some(i) => i < self.bindings@.len() && self.bindings@[i as int].0@ == name@
                    && self.offset_of(name@) == Some(self.bindings@[i as int].1.offset)
                    && forall|j: int| i < j < self.bindings@.len() ==> (#[trigger] self.bindings@[j]).0@ != name@,
                None => self.offset_of(name@) is None,
            },
    {
        let ghost v = binding_offsets(self.bindings@);
        let mut i: usize = self.bindings.len();
        proof {
            assert(v.take(v.len() as int) =~= v);
        }
        while i > 0
            invariant
                i <= self.bindings@.len(),
                v == binding_offsets(self.bindings@),
                crate::compiler::symbol::assoc_lookup(v, name@) == crate::compiler::symbol::assoc_lookup(v.take(i as int), name@),
                forall|j: int| i <= j < self.bindings@.len() ==> (#[trigger] self.bindings@[j]).0@ != name@,
            decreases i,
        {
            proof {
                assert(v.take(i as int).drop_last() =~= v.take(i - 1));
                assert(v.take(i as int).last() == v[i - 1]);
            }
            if str_eq(self.bindings[i - 1].0.as_str(), name) {
                return Some(i - 1);
            }
            i = i - 1;
        }
        proof {
            assert(v.take(0) =~= Seq::<(Seq<char>, i32)>::empty());
        }
        None
    }

    /// The binding of `name`.
    pub fn binding(&self, name: &str) -> (r: Option<&Binding>)
        ensures
            match self.offset_of(name@) {
                Some(o) => r matches Some(b) && b.offset == o,
                None => r is None,
            },
    {
        match self.find(name) {
            Some(i) => Some(&self.bindings[i].1),
            None => None,
        }
    }

    /// The binding of `name`, to be changed in place.
    pub fn binding_mut(&mut self, name: &str) -> (r: Option<&mut Binding>)
        ensures
            match old(self).offset_of(name@) {
                Some(o) => {
                    &&& r is Some
                    &&& r.unwrap().offset == o
                    &&& forall|k: Seq<char>| #[trigger] final(self).offset_of(k) == (if k == name@ {
                        Some(final(r.unwrap()).offset)
                    } else {
                        old(self).offset_of(k)
                    })
                    &&& final(self).stack_size == old(self).stack_size
                    &&& final(self).next_offset == old(self).next_offset
                },
                None => r is None && *final(self) == *old(self),
            },
    {
        match self.find(name) {
            Some(i) => {
                proof {
                    let v = binding_offsets(self.bindings@);
                    assert forall|x: Binding| #[trigger] binding_offsets(self.bindings@.update(i as int, (self.bindings@[i as int].0, x)))
                        == v.update(i as int, (name@, x.offset)) by {
                        assert(binding_offsets(self.bindings@.update(i as int, (self.bindings@[i as int].0, x))) =~= v.update(i as int, (name@, x.offset)));
                    }
                    assert forall|o: i32, k: Seq<char>| #[trigger] crate::compiler::symbol::assoc_lookup(v.update(i as int, (name@, o)), k) == (if k == name@ {
                        Some(o)
                    } else {
                        crate::compiler::symbol::assoc_lookup(v, k)
                    }) by {
                        assert forall|j: int| i < j < v.len() implies (#[trigger] v[j]).0 != name@ by {
                            assert(v[j].0 == self.bindings@[j].0@);
                        }
                        crate::compiler::symbol::lemma_assoc_update(v, i as int, name@, o, k);
                    }
                }
                Some(&mut self.bindings[i].1)
            },
            None => None,
        }
    }
}

/// The name that a statement binds in the frame: the closure it creates or copies, or
/// the environment word it loads.
pub open spec fn stmt_binding(stmt: AirStmt) -> Option<Seq<char>> {
    match stmt {
        AirStmt::Op(op) => match *op {
            AirOp::NewClosure(c) => Some(c.name@),
            AirOp::CloneClosure(c) => Some(c.dst@),
            AirOp::Field(f) => Some(f.result@),
            AirOp::CopyField(f) => Some(f.result@),
            _ => None,
        },
        AirStmt::Label(_) => None,
    }
}

/// The names that the statements bind, in order.
pub open spec fn stmt_binding_names(stmts: Seq<AirStmt>) -> Seq<Seq<char>>
    decreases stmts.len(),
{
    if stmts.len() == 0 {
        seq![]
    } else {
        stmt_binding_names(stmts.drop_last()) + match stmt_binding(stmts.last()) {
            Some(n) => seq![n],
            None => seq![],
        }
    }
}

/// The names that get a frame slot: the parameters, then what the statements bind.
pub open spec fn frame_names(air: AirFunction) -> Seq<Seq<char>> {
    air.sig.params@.map_values(|p: SigItem| p.name@) + stmt_binding_names(air.items@)
}

/// One word per name, at offsets 8, 16, ... below the frame base.
pub open spec fn slot_offsets(names: Seq<Seq<char>>) -> Seq<(Seq<char>, i32)> {
    Seq::new(names.len(), |i: int| (names[i], ((i + 1) * 8) as i32))
}

/// The frame of a function: a slot per name, and the slots' bytes rounded up to a
/// multiple of 16.
pub open spec fn frame_of(air: AirFunction) -> FrameView {
    let n = frame_names(air).len();
    FrameView {
        offsets: slot_offsets(frame_names(air)),
        stack_size: (if n == 0 { 0 } else { ((8 * n + 15) / 16) * 16 }) as i32,
    }
}

/// The most statements and parameters that a function's frame is laid out for.
pub const MAX_FRAME_WORDS: usize = 0x0800_0000;

/// The name that `stmt` binds in the frame, if any.
pub fn air_statement_binding_info(stmt: &AirStmt) -> (r: Option<&str>)
    ensures
        match stmt_binding(*stmt) {
            Some(n) => r matches Some(x) && x@ == n,
            None => r is None,
        },
{
    match stmt {
        AirStmt::Op(op) => match &**op {
            AirOp::NewClosure(c) => Some(c.name.as_str()),
            AirOp::CloneClosure(c) => Some(c.dst.as_str()),
            AirOp::Field(f) => Some(f.result.as_str()),
            AirOp::CopyField(f) => Some(f.result.as_str()),
            _ => None,
        },
        AirStmt::Label(_) => None,
    }
}

proof fn lemma_slot_offsets_push(names: Seq<Seq<char>>, n: Seq<char>)
    ensures
        slot_offsets(names.push(n)) == slot_offsets(names).push((n, ((names.len() + 1) * 8) as i32)),
{
    assert(slot_offsets(names.push(n)) =~= slot_offsets(names).push((n, ((names.len() + 1) * 8) as i32)));
}

impl FrameLayout {
    /// The frame of `air`: a word for each parameter and each name its statements bind.
    pub fn build(air: &AirFunction) -> (r: Result<FrameLayout, Error>)
        ensures
            air.sig.params@.len() + air.items@.len() > MAX_FRAME_WORDS ==> (r matches Err(e)
                && e.code == Code::Codegen && e.message@ == crate::compiler::emitter::too_many_words_message()),
            air.sig.params@.len() + air.items@.len() <= MAX_FRAME_WORDS ==> (r matches Ok(f) && f@ == frame_of(*air)),
    {
        let np = air.sig.params.len();
        let ni = air.items.len();
        if np > MAX_FRAME_WORDS || ni > MAX_FRAME_WORDS - np {
            return Err(crate::compiler::error::error_from_str(Code::Codegen, "too many words in an environment or argument list", Span::unknown()));
        }
        let ghost pnames = air.sig.params@.map_values(|p: SigItem| p.name@);
        let mut layout = FrameLayout::new();
        let mut i: usize = 0;
        while i < np
            invariant
                np == air.sig.params@.len(),
                np <= MAX_FRAME_WORDS,
                pnames == air.sig.params@.map_values(|p: SigItem| p.name@),
                i <= np,
                layout.next_offset == 8 * i,
                layout.stack_size == 0,
                binding_offsets(layout.bindings@) == slot_offsets(pnames.take(i as int)),
            decreases np - i,
        {
            match layout.allocate_word(air.sig.params[i].name.as_str()) {
                Ok(()) => {},
                Err(e) => { return Err(e); },
            }
            proof {
                assert(pnames.take(i + 1) =~= pnames.take(i as int).push(air.sig.params@[i as int].name@));
                lemma_slot_offsets_push(pnames.take(i as int), air.sig.params@[i as int].name@);
            }
            i = i + 1;
        }
        proof {
            assert(pnames.take(np as int) =~= pnames);
            assert(air.items@.take(0) =~= Seq::<AirStmt>::empty());
            assert(pnames + stmt_binding_names(air.items@.take(0)) =~= pnames);
        }
        let mut j: usize = 0;
        while j < ni
            invariant
                np == air.sig.params@.len(),
                ni == air.items@.len(),
                np + ni <= MAX_FRAME_WORDS,
                pnames == air.sig.params@.map_values(|p: SigItem| p.name@),
                j <= ni,
                pnames.len() + stmt_binding_names(air.items@.take(j as int)).len() <= np + j,
                layout.next_offset == 8 * (pnames.len() + stmt_binding_names(air.items@.take(j as int)).len()),
                layout.stack_size == 0,
                binding_offsets(layout.bindings@) == slot_offsets(pnames + stmt_binding_names(air.items@.take(j as int))),
            decreases ni - j,
        {
            let ghost names = pnames + stmt_binding_names(air.items@.take(j as int));
            proof {
                assert(air.items@.take(j + 1).drop_last() =~= air.items@.take(j as int));
                assert(air.items@.take(j + 1).last() == air.items@[j as int]);
            }
            match air_statement_binding_info(&air.items[j]) {
                Some(name) => {
                    match layout.allocate_word(name) {
                        Ok(()) => {},
                        Err(e) => { return Err(e); },
                    }
                    proof {
                        assert(pnames + stmt_binding_names(air.items@.take(j + 1)) =~= names.push(name@));
                        lemma_slot_offsets_push(names, name@);
                    }
                },
                None => {
                    proof {
                        assert(pnames + stmt_binding_names(air.items@.take(j + 1)) =~= names);
                    }
                },
            }
            j = j + 1;
        }
        proof {
            assert(air.items@.take(ni as int) =~= air.items@);
        }
        let size = align_to(layout.next_offset as usize, 16);
        layout.stack_size = size as i32;
        Ok(layout)
    }
}

/// `value` rounded up to a multiple of `align` (zero stays zero).
pub fn align_to(value: usize, align: usize) -> (r: usize)
    requires
        align > 0,
        value + align - 1 <= usize::MAX,
    ensures
        r == (if value == 0 { 0 } else { ((value + align - 1) / align as int) * align }),
{
    if value == 0 {
        return 0;
    }
    let q = (value + (align - 1)) / align;
    assert(q * align <= value + align - 1) by (nonlinear_arith)
        requires
            q == (value + align - 1) / align as int,
            align > 0,
    ;
    q * align
}

} // verus!
