//! The whole compiler: source text to the NASM text of a program, through the syntax
//! tree, the high-level form, the AIR functions and the code generator.

use vstd::prelude::*;

use crate::compiler::air::function_sig_from_hir;
use crate::compiler::air_ast::{AirFunction, AirStmt};
use crate::compiler::air_lower::{entry_function, FunctionLowerer};
use crate::compiler::ast;
use crate::compiler::builtins::{runtime_helper_name, AirRuntimeHelper};
use crate::compiler::codegen::{
    collect_functions, emit_data, emit_externs, extern_lines, function, function_body_text, has_label, helper_step,
    is_asm_builtin, lemma_data_lines_table, needs_deepcopy, needs_release, preamble_text, runtime_helpers_model,
    table_data_lines, write_preamble, Artifacts,
};
use crate::compiler::error::{error_from_str, Code, Error};
use crate::compiler::format_hir::{render_normalized_rgo, rendered_prefix};
use crate::compiler::hir;
use crate::compiler::hir_ast::{names_view, BlockItem, Function, SigKind};
use crate::compiler::hir_context::{Context, ENTRY_FUNCTION_NAME};
use crate::compiler::lexer::Lexer;
use crate::compiler::parser::Parser;
use crate::compiler::runtime::{ITOA_MIN_LABEL, ITOA_MIN_VALUE};
use crate::compiler::span::Span;
use crate::compiler::symbol::{register_builtin_import, SymbolRegistry};
use crate::name_set::{insert_name, sorted_set_of};
use crate::text::{push_str, str_eq};

verus! {

// ---------------------------------------------------------------------------
// The back end
// ---------------------------------------------------------------------------

/// Where the emission of a program stands: its text so far, the functions and helpers
/// emitted, the `extern` names, and the string literals of the data section.
pub struct ProgramState {
    pub text: Seq<char>,
    pub used: Seq<Seq<char>>,
    pub externs: Seq<Seq<char>>,
    pub literals: Seq<(Seq<char>, Seq<char>)>,
}

/// One function, as `function` emits it.
pub open spec fn function_step(st: ProgramState, air: AirFunction) -> Result<ProgramState, Seq<char>> {
    let (helpers, used, externs) = runtime_helpers_model(st.used, st.externs, air.items@);
    if used.contains(air.sig.name@) {
        Ok(ProgramState { text: st.text + helpers, used, externs, literals: st.literals })
    } else {
        match function_body_text(air) {
            Err(m) => Err(m),
            Ok(body) => Ok(ProgramState {
                text: st.text + (helpers + body),
                used: insert_name(used, air.sig.name@),
                externs,
                literals: if is_asm_builtin(air) && air.sig.name@ == "itoa"@ && !has_label(st.literals, ITOA_MIN_LABEL@) {
                    st.literals.push((ITOA_MIN_LABEL@, ITOA_MIN_VALUE@))
                } else {
                    st.literals
                },
            }),
        }
    }
}

/// The functions in order, from `st`: the first error, or the final state.
pub open spec fn functions_state(st: ProgramState, funcs: Seq<AirFunction>) -> Result<ProgramState, Seq<char>>
    decreases funcs.len(),
{
    if funcs.len() == 0 {
        Ok(st)
    } else {
        match functions_state(st, funcs.drop_last()) {
            Err(m) => Err(m),
            Ok(s) => function_step(s, funcs.last()),
        }
    }
}

/// Once a prefix of the functions fails, all of them fail the same way.
pub proof fn lemma_functions_state_err(st: ProgramState, funcs: Seq<AirFunction>, k: int)
    requires
        0 <= k <= funcs.len(),
        functions_state(st, funcs.take(k)) is Err,
    ensures
        functions_state(st, funcs) == functions_state(st, funcs.take(k)),
    decreases funcs.len() - k,
{
    if k < funcs.len() {
        assert(funcs.take(k + 1).drop_last() =~= funcs.take(k));
        lemma_functions_state_err(st, funcs, k + 1);
    } else {
        assert(funcs.take(k) =~= funcs);
    }
}

/// The program text of AIR functions: the preamble, the functions in order, the
/// `extern` declarations of what they call and did not define, and the data section of
/// their string literals.
pub open spec fn program_text(funcs: Seq<AirFunction>) -> Result<Seq<char>, Seq<char>> {
    let (literals, externs) = collect_functions(funcs);
    match functions_state(ProgramState { text: preamble_text(), used: seq![], externs, literals }, funcs) {
        Err(m) => Err(m),
        Ok(st) => Ok(st.text + extern_lines(sorted_set_of(st.externs)) + (if st.literals.len() == 0 {
            seq![]
        } else {
            "section .rodata\n"@ + table_data_lines(st.literals)
        })),
    }
}

/// Adding a name to a set of names keeps its members and adds the name.
pub proof fn lemma_insert_name_members(v: Seq<Seq<char>>, x: Seq<char>)
    ensures
        forall|y: Seq<char>| #[trigger] insert_name(v, x).contains(y) <==> (v.contains(y) || y == x),
    decreases v.len(),
{
    broadcast use vstd::seq_lib::lemma_seq_concat_contains_all_elements;
    if v.len() == 0 {
        assert forall|y: Seq<char>| #[trigger] insert_name(v, x).contains(y) <==> (v.contains(y) || y == x) by {
            assert(insert_name(v, x) =~= seq![x]);
            if y == x {
                assert(seq![x][0] == y);
            }
        }
    } else {
        lemma_insert_name_members(v.drop_first(), x);
        assert(v =~= seq![v[0]] + v.drop_first());
        assert forall|y: Seq<char>| #[trigger] insert_name(v, x).contains(y) <==> (v.contains(y) || y == x) by {
            assert(seq![v[0]].contains(y) <==> y == v[0]) by {
                if y == v[0] {
                    assert(seq![v[0]][0] == y);
                }
            }
            assert(seq![x].contains(y) <==> y == x) by {
                if y == x {
                    assert(seq![x][0] == y);
                }
            }
            assert(v.contains(y) <==> (seq![v[0]] + v.drop_first()).contains(y));
            if v[0] == x {
            } else if crate::text::seq_less(x, v[0]) {
                assert(insert_name(v, x) == seq![x] + v);
            } else {
                assert(insert_name(v, x) == seq![v[0]] + insert_name(v.drop_first(), x));
            }
        }
    }
}

/// Whether the emitted names hold every runtime helper that the statements need.
pub open spec fn helpers_present(used: Seq<Seq<char>>, items: Seq<AirStmt>) -> bool {
    &&& needs_release(items) ==> used.contains("release_heap_ptr"@)
    &&& needs_deepcopy(items) ==> used.contains("deepcopy_heap_ptr"@) && used.contains("memcpy_helper"@)
}

/// Once emitted, a helper is present.
proof fn lemma_helper_step_present(st: (Seq<char>, Seq<Seq<char>>, Seq<Seq<char>>), helper: AirRuntimeHelper, y: Seq<char>)
    ensures
        helper_step(st, helper).1.contains(runtime_helper_name(helper)),
        st.1.contains(y) ==> helper_step(st, helper).1.contains(y),
{
    lemma_insert_name_members(st.1, runtime_helper_name(helper));
}

/// After the helpers of a function, all the helpers it needs are present.
pub proof fn lemma_helpers_model_present(used: Seq<Seq<char>>, externs: Seq<Seq<char>>, items: Seq<AirStmt>)
    ensures
        helpers_present(runtime_helpers_model(used, externs, items).1, items),
{
    let s0 = (Seq::<char>::empty(), used, externs);
    let s1 = if needs_release(items) { helper_step(s0, AirRuntimeHelper::ReleaseHeapPtr) } else { s0 };
    let s2 = if needs_deepcopy(items) { helper_step(s1, AirRuntimeHelper::DeepCopyHeapPtr) } else { s1 };
    if needs_release(items) {
        lemma_helper_step_present(s0, AirRuntimeHelper::ReleaseHeapPtr, "release_heap_ptr"@);
    }
    if needs_deepcopy(items) {
        lemma_helper_step_present(s1, AirRuntimeHelper::DeepCopyHeapPtr, "release_heap_ptr"@);
        lemma_helper_step_present(s2, AirRuntimeHelper::MemcpyHelper, "release_heap_ptr"@);
        lemma_helper_step_present(s2, AirRuntimeHelper::MemcpyHelper, "deepcopy_heap_ptr"@);
    }
}

/// Where the helpers are present, the helpers of a function add nothing.
pub proof fn lemma_helpers_model_idle(used: Seq<Seq<char>>, externs: Seq<Seq<char>>, items: Seq<AirStmt>)
    requires
        helpers_present(used, items),
    ensures
        runtime_helpers_model(used, externs, items) == (Seq::<char>::empty(), used, externs),
{
}

/// A function is emitted once: after its text was added, the same function adds nothing
/// more and leaves the emitted names, the `extern` names and the literals as they are.
pub proof fn lemma_function_emitted_once(st: ProgramState, air: AirFunction)
    requires
        function_step(st, air) is Ok,
    ensures
        ({
            let st2 = function_step(st, air)->Ok_0;
            function_step(st2, air) == Ok::<ProgramState, Seq<char>>(st2)
        }),
{
    let (helpers, used, externs) = runtime_helpers_model(st.used, st.externs, air.items@);
    lemma_helpers_model_present(st.used, st.externs, air.items@);
    let st2 = function_step(st, air)->Ok_0;
    if used.contains(air.sig.name@) {
        lemma_helpers_model_idle(st2.used, st2.externs, air.items@);
        assert(st2.text + Seq::<char>::empty() =~= st2.text);
    } else {
        lemma_insert_name_members(used, air.sig.name@);
        assert(st2.used == insert_name(used, air.sig.name@));
        assert(helpers_present(st2.used, air.items@));
        lemma_helpers_model_idle(st2.used, st2.externs, air.items@);
        assert(st2.used.contains(air.sig.name@));
        assert(st2.text + Seq::<char>::empty() =~= st2.text);
    }
}

impl Artifacts {
    /// The state of a program's emission with this bookkeeping and `text`.
    pub open spec fn program_state(&self, text: Seq<char>) -> ProgramState {
        ProgramState {
            text,
            used: names_view(self.builtins_used@),
            externs: names_view(self.externs@),
            literals: self.literal_table(),
        }
    }
}

/// The program text of the AIR functions.
pub fn emit_program(functions: &Vec<AirFunction>) -> (r: Result<String, Error>)
    ensures
        match program_text(functions@) {
            Ok(t) => r matches Ok(s) && s@ == t,
            Err(m) => r matches Err(e) && e.code == Code::Codegen && e.message@ == m,
        },
{
    let mut artifacts = Artifacts::collect(functions);
    let mut out = write_preamble();
    let ghost st0 = artifacts.program_state(out@);
    proof {
        assert(names_view(artifacts.builtins_used@) =~= Seq::<Seq<char>>::empty());
        assert(functions@.take(0) =~= Seq::<AirFunction>::empty());
    }
    let mut failure: Option<Error> = None;
    let mut i: usize = 0;
    while i < functions.len() && failure.is_none()
        invariant
            i <= functions@.len(),
            failure is None ==> functions_state(st0, functions@.take(i as int)) == Ok::<ProgramState, Seq<char>>(artifacts.program_state(out@)),
            failure matches Some(e) ==> functions_state(st0, functions@) matches Err(m)
                && e.code == Code::Codegen && e.message@ == m,
        decreases functions@.len() - i,
    {
        proof {
            assert(functions@.take(i + 1).drop_last() =~= functions@.take(i as int));
            assert(functions@.take(i + 1).last() == functions@[i as int]);
        }
        let ghost before = out@;
        match function(&functions[i], &mut artifacts) {
            Ok(t) => {
                push_str(&mut out, t.as_str());
                proof {
                    let air = functions@[i as int];
                    let (helpers, used, externs) = runtime_helpers_model(
                        functions_state(st0, functions@.take(i as int))->Ok_0.used,
                        functions_state(st0, functions@.take(i as int))->Ok_0.externs, air.items@);
                    if !used.contains(air.sig.name@) {
                        assert(out@ == before + t@);
                    }
                }
            },
            Err(e) => {
                proof {
                    lemma_functions_state_err(st0, functions@, i + 1);
                }
                failure = Some(e);
            },
        }
        i = i + 1;
    }
    match failure {
        Some(e) => Err(e),
        None => {
            proof {
                assert(functions@.take(functions@.len() as int) =~= functions@);
                lemma_data_lines_table(artifacts.string_literals@);
            }
            let ext = emit_externs(&artifacts.externs);
            push_str(&mut out, ext.as_str());
            let data = emit_data(&artifacts.string_literals);
            push_str(&mut out, data.as_str());
            proof {
                if artifacts.string_literals@.len() == 0 {
                    assert(artifacts.literal_table().len() == 0);
                }
            }
            Ok(out)
        },
    }
}

// ---------------------------------------------------------------------------
// The front end
// ---------------------------------------------------------------------------

/// The message for an invocation at the root of a program.
pub open spec fn root_execution_message() -> Seq<char> {
    "root-level invocation is not supported; choose a target function"@
}

/// Whether a root item is an invocation (which the compiler refuses: a program runs its
/// target function).
pub open spec fn is_root_execution(item: ast::BlockItem) -> bool {
    (item is Ident) || (item is Lambda) || (item is ScopeCapture)
}

/// Refuses an invocation at the root of a program.
pub fn reject_root_execution(item: &ast::BlockItem) -> (r: Result<(), Error>)
    ensures
        is_root_execution(*item) ==> (r matches Err(e) && e.code == Code::Parse
            && e.message@ == root_execution_message() && e.span == item.spec_span()),
        !is_root_execution(*item) ==> r is Ok,
{
    match item {
        ast::BlockItem::Ident(_) | ast::BlockItem::Lambda(_) | ast::BlockItem::ScopeCapture { .. } => Err(
            error_from_str(Code::Parse, "root-level invocation is not supported; choose a target function", item.span()),
        ),
        _ => Ok(()),
    }
}

/// `j` is where a function named `name` is recorded in `fs`: the first entry under that
/// name, or the end when there is none.
pub open spec fn record_slot(fs: Seq<(String, Function)>, name: Seq<char>, j: int) -> bool {
    &&& 0 <= j <= fs.len()
    &&& j < fs.len() ==> fs[j].0@ == name
    &&& forall|i: int| 0 <= i < j ==> (#[trigger] fs[i]).0@ != name
}

/// `after` is `before` with `f` recorded under its name: in place of the first function
/// of that name, else at the end.
pub open spec fn records(before: Seq<(String, Function)>, after: Seq<(String, Function)>, f: Function) -> bool {
    exists|j: int|
        #[trigger] record_slot(before, f.name@, j) && after.len() == (if j < before.len() {
            before.len()
        } else {
            before.len() + 1
        }) && after[j] == (f.name, f) && forall|k: int|
            0 <= k < before.len() && k != j ==> #[trigger] after[k] == before[k]
}

/// Whether a lowered item declares something (an import, a type or a function) rather
/// than being code of the entry.
pub open spec fn is_declaration(item: BlockItem) -> bool {
    item is Import || item is SigDef || item is FunctionDef
}

/// Whether `path` imports a builtin function or a builtin type.
pub open spec fn known_import(path: Seq<char>) -> bool {
    crate::compiler::builtins::builtin_named(crate::last_slug_of(path)) is Some
        || crate::compiler::builtins::builtin_type_named(crate::last_slug_of(path)) is Some
}

/// A declaration that is recorded without error: an import of a builtin, a type
/// definition, or a function. (A function whose body holds a declaration is refused
/// only if the entry reaches it.)
pub open spec fn valid_declaration(item: BlockItem) -> bool {
    match item {
        BlockItem::Import { path, .. } => known_import(path@),
        BlockItem::SigDef { .. } => true,
        BlockItem::FunctionDef(_) => true,
        _ => false,
    }
}

/// An import of something that is no builtin.
pub open spec fn unknown_import(item: BlockItem) -> bool {
    item matches BlockItem::Import { path, .. } && !known_import(path@)
}

/// An item that the front end records without error: a valid declaration or code of
/// the entry.
pub open spec fn records_cleanly(item: BlockItem) -> bool {
    valid_declaration(item) || !is_declaration(item)
}

/// The items of `items` that are code of the entry, in order.
pub open spec fn entry_part(items: Seq<BlockItem>) -> Seq<BlockItem>
    decreases items.len(),
{
    if items.len() == 0 {
        Seq::empty()
    } else {
        (if is_declaration(items[0]) {
            Seq::empty()
        } else {
            seq![items[0]]
        }) + entry_part(items.drop_first())
    }
}

/// Records a function under its name; a later definition of a name replaces the earlier.
fn record_function(functions: &mut Vec<(String, Function)>, f: Function)
    ensures
        records(old(functions)@, final(functions)@, f),
{
    let mut found: Option<usize> = None;
    let mut i: usize = 0;
    while i < functions.len() && found.is_none()
        invariant
            i <= functions@.len(),
            found matches Some(j) ==> (j < i && functions@[j as int].0@ == f.name@ && forall|k: int|
                0 <= k < j ==> (#[trigger] functions@[k]).0@ != f.name@),
            found is None ==> forall|k: int| 0 <= k < i ==> (#[trigger] functions@[k]).0@ != f.name@,
        decreases functions@.len() - i,
    {
        if str_eq(functions[i].0.as_str(), f.name.as_str()) {
            found = Some(i);
        }
        i = i + 1;
    }
    let name = f.name.clone();
    let ghost fv = f;
    match found {
        Some(j) => {
            functions.set(j, (name, f));
            proof {
                assert(record_slot(old(functions)@, fv.name@, j as int));
            }
        },
        None => {
            functions.push((name, f));
            proof {
                assert(record_slot(old(functions)@, fv.name@, old(functions)@.len() as int));
            }
        },
    }
}

/// What the lowering of the source gives: the imports, type definitions and functions are
/// recorded; the rest is the code of the entry.
struct FrontEnd {
    symbols: SymbolRegistry,
    functions: Vec<(String, Function)>,
    entry_items: Vec<BlockItem>,
}

impl FrontEnd {
    /// Records one lowered item: an import, type definition or function is declared (a
    /// declaration where `entry_only` holds is an internal error); anything else belongs
    /// to the entry.
    fn record(&mut self, lowered: BlockItem, entry_only: bool) -> (r: Result<(), Error>)
        ensures
            !is_declaration(lowered) ==> (r is Ok && final(self).entry_items@ == old(self).entry_items@.push(
                lowered,
            )),
            is_declaration(lowered) ==> final(self).entry_items@ == old(self).entry_items@,
            is_declaration(lowered) && entry_only ==> (r matches Err(e) && e.code == Code::Internal
                && e.message@ == "entry target lowering produced a declaration"@),
            !(lowered is FunctionDef) ==> final(self).functions@ == old(self).functions@,
            lowered matches BlockItem::FunctionDef(f) ==> (r is Ok ==> records(
                old(self).functions@,
                final(self).functions@,
                f,
            )),
            !entry_only && records_cleanly(lowered) ==> r is Ok,
            !entry_only && unknown_import(lowered) ==> (r matches Err(e) && e.code == Code::Internal && e.message@
                == "unknown import '@"@ + lowered->Import_path@ + "'"@),
    {
        match lowered {
            BlockItem::Import { label, path } => {
                if entry_only {
                    return Err(error_from_str(Code::Internal, "entry target lowering produced a declaration", Span::unknown()));
                }
                register_builtin_import(label.as_str(), path.as_str(), Span::unknown(), &mut self.symbols)
            },
            BlockItem::SigDef { name, sig } => {
                if entry_only {
                    return Err(error_from_str(Code::Internal, "entry target lowering produced a declaration", Span::unknown()));
                }
                self.symbols.install_type(name, SigKind::Sig(sig))
            },
            BlockItem::FunctionDef(f) => {
                if entry_only {
                    return Err(error_from_str(Code::Internal, "entry target lowering produced a declaration", Span::unknown()));
                }
                let sig = function_sig_from_hir(&f);
                match self.symbols.declare_function(sig) {
                    Ok(()) => {},
                    Err(e) => { return Err(e); },
                }
                record_function(&mut self.functions, f);
                Ok(())
            },
            other => {
                self.entry_items.push(other);
                Ok(())
            },
        }
    }

    /// Records what the lowerer has ready.
    fn drain(&mut self, lowerer: &mut hir::Lowerer, entry_only: bool) -> (r: Result<(), Error>)
        ensures
            r is Ok ==> final(lowerer).ready@.len() == 0,
            r is Ok ==> final(self).entry_items@ == old(self).entry_items@ + entry_part(old(lowerer).ready@),
    {
        let mut failure: Option<Error> = None;
        while lowerer.ready.len() > 0 && failure.is_none()
            invariant
                failure is None ==> self.entry_items@ + entry_part(lowerer.ready@) == old(self).entry_items@
                    + entry_part(old(lowerer).ready@),
            decreases lowerer.ready@.len(),
        {
            let ghost before = lowerer.ready@;
            let ghost entry_before = self.entry_items@;
            let produced = lowerer.produce();
            let lowered = produced.unwrap();
            match self.record(lowered, entry_only) {
                Ok(()) => {
                    proof {
                        assert(before =~= seq![before[0]] + before.drop_first());
                        if is_declaration(lowered) {
                            assert(entry_part(before) =~= entry_part(before.drop_first()));
                        } else {
                            assert(entry_part(before) =~= seq![lowered] + entry_part(before.drop_first()));
                            assert(self.entry_items@ =~= entry_before + seq![lowered]);
                        }
                        assert(self.entry_items@ + entry_part(lowerer.ready@) =~= entry_before + entry_part(before));
                    }
                },
                Err(e) => { failure = Some(e); },
            }
        }
        match failure {
            Some(e) => Err(e),
            None => {
                proof {
                    assert(entry_part(lowerer.ready@) =~= Seq::<BlockItem>::empty());
                    assert(self.entry_items@ =~= self.entry_items@ + entry_part(lowerer.ready@));
                }
                Ok(())
            },
        }
    }

    /// The AIR functions: the entry's code lowered (with the functions it reaches), the
    /// entry function last; none when the entry has no code and `always` does not hold.
    fn into_air(self, always: bool) -> (r: Result<Vec<AirFunction>, Error>)
        ensures
            r matches Ok(fs) ==> ((always || self.entry_items@.len() > 0) ==> fs@.len() >= 1
                && fs@.last().sig@.name == ENTRY_FUNCTION_NAME@ && fs@.last().sig@.params.len() == 0),
            r matches Ok(fs) ==> (!always && self.entry_items@.len() == 0 ==> fs@.len() == 0),
            !always && self.entry_items@.len() == 0 ==> r matches Ok(fs),
            (forall|k: int| 0 <= k < self.entry_items@.len() ==> crate::compiler::air_lower::quiet_item(
                #[trigger] self.entry_items@[k],
            )) && (always || self.entry_items@.len() > 0) ==> (r matches Ok(fs) && fs@.len() == 1 && fs@[0].items@.len()
                == 0),
    {
        let FrontEnd { mut symbols, functions, entry_items } = self;
        if !always && entry_items.len() == 0 {
            return Ok(Vec::new());
        }
        let mut function_lowerer = FunctionLowerer::new(functions);
        let mut entry_funcs = match entry_function(entry_items, &mut symbols, &mut function_lowerer) {
            Ok(fs) => fs,
            Err(e) => { return Err(e); },
        };
        let mut generated = function_lowerer.take_generated_functions();
        generated.append(&mut entry_funcs);
        Ok(generated)
    }
}

/// The AIR functions of lowered items: imports, type definitions and functions are
/// declared, and the other items make up the entry, lowered with the functions it reaches
/// (the entry function last); no function at all when no item belongs to the entry.
pub fn generate_air_functions(items: Vec<BlockItem>) -> (r: Result<Vec<AirFunction>, Error>)
    ensures
        r matches Ok(fs) ==> (fs@.len() == 0 || (fs@.last().sig@.name == ENTRY_FUNCTION_NAME@ && fs@.last().sig@.params.len() == 0)),
        r matches Ok(fs) ==> (fs@.len() == 0 <==> forall|k: int| 0 <= k < items@.len() ==> is_declaration(#[trigger] items@[k])),
        items@.len() == 0 ==> (r matches Ok(fs) && fs@.len() == 0),
        (forall|k: int| 0 <= k < items@.len() ==> valid_declaration(#[trigger] items@[k])) ==> (r matches Ok(fs)
            && fs@.len() == 0),
        (exists|k: int|
            0 <= k < items@.len() && unknown_import(#[trigger] items@[k]) && forall|j: int|
                0 <= j < k ==> records_cleanly(items@[j])) ==> (r matches Err(e) && e.code == Code::Internal),
        r is Ok ==> forall|k: int| 0 <= k < items@.len() ==> !unknown_import(#[trigger] items@[k]),
        (forall|k: int| 0 <= k < items@.len() ==> valid_declaration(#[trigger] items@[k]) || items@[k] is LitDef) ==> (r matches Ok(
        fs) && fs@.len() <= 1 && (fs@.len() == 1 ==> fs@[0].items@.len() == 0 && fs@[0].sig@.name
            == ENTRY_FUNCTION_NAME@)),
{
    let mut front = FrontEnd { symbols: SymbolRegistry::new(), functions: Vec::new(), entry_items: Vec::new() };
    let ghost all = items@;
    let ghost has_bad = exists|k: int|
        0 <= k < all.len() && unknown_import(#[trigger] all[k]) && forall|j: int| 0 <= j < k ==> records_cleanly(all[j]);
    let ghost bad: int = if has_bad {
        choose|k: int|
            0 <= k < all.len() && unknown_import(#[trigger] all[k]) && forall|j: int| 0 <= j < k ==> records_cleanly(all[j])
    } else {
        0
    };
    let mut rest = items;
    while rest.len() > 0
        invariant
            has_bad ==> (0 <= bad < all.len() && unknown_import(all[bad]) && (forall|j: int|
                0 <= j < bad ==> records_cleanly(all[j])) && all.len() - rest@.len() <= bad),
            all == items@,
            forall|j: int| 0 <= j < all.len() - rest@.len() ==> !unknown_import(#[trigger] all[j]),
            (forall|k: int| 0 <= k < all.len() ==> valid_declaration(#[trigger] all[k]) || all[k] is LitDef) ==> forall|k: int|
                0 <= k < front.entry_items@.len() ==> #[trigger] front.entry_items@[k] is LitDef,
            rest@.len() <= all.len(),
            rest@ == all.subrange(all.len() - rest@.len(), all.len() as int),
            front.entry_items@.len() == 0 <==> forall|k: int|
                0 <= k < all.len() - rest@.len() ==> is_declaration(#[trigger] all[k]),
        decreases rest@.len(),
    {
        let ghost done = all.len() - rest@.len();
        let item = rest.remove(0);
        proof {
            assert(item == all[done]);
            assert(rest@ =~= all.subrange(all.len() - rest@.len(), all.len() as int));
        }
        match front.record(item, false) {
            Ok(()) => {},
            Err(e) => { return Err(e); },
        }
    }
    front.into_air(false)
}

/// The syntax item that runs the function `target` with no arguments.
pub fn target_exec(target: &str) -> (r: ast::BlockItem)
    ensures
        r matches ast::BlockItem::Ident(i) && i.name@ == target@ && i.args@.len() == 0 && i.span == Span::spec_unknown(),
{
    ast::BlockItem::Ident(ast::Ident { name: target.to_string(), args: Vec::new(), span: Span::unknown() })
}

/// The lowered items of the program in `source` whose entry runs `target`, in the order
/// the lowering gives them: the source parsed item by item (an invocation at the root is
/// refused), each item lowered, then the invocation of the target.
fn lower_source_items(source: Vec<u8>, target: &str) -> (r: Result<Vec<BlockItem>, Error>)
    ensures
        r matches Ok(out) ==> out@.len() > 0 && out@.last() is Exec,
        source@.len() == usize::MAX ==> (r matches Err(e) && e.code == Code::Parse && e.message@
            == "source too large"@),
        starts_with_invocation(source@) ==> (r matches Err(e) && e.code == Code::Parse && e.message@
            == root_execution_message()),
        r is Ok ==> crate::compiler::lexer::lexes_to_end(source@),
{
    if source.len() == usize::MAX {
        return Err(error_from_str(Code::Parse, "source too large", Span::unknown()));
    }
    let ghost first_call = starts_with_invocation(source@);
    let mut parser = Parser::new(Lexer::new(source));
    let mut ctx = Context::new();
    let mut lowerer = hir::Lowerer::new();
    let mut out: Vec<BlockItem> = Vec::new();
    loop
        invariant
            first_call == starts_with_invocation(source@),
            first_call ==> (parser.position() == 0 && parser.lex_failure() is None
                && crate::compiler::parser::token_kinds(parser.stream()) == crate::compiler::lexer::lex_from(source@, 0)),
            (parser.lex_failure() is None) == crate::compiler::lexer::lexes_to_end(source@),
            parser.wf(),
            source@.len() < usize::MAX,
        ensures
            !first_call,
            crate::compiler::lexer::lexes_to_end(source@),
            source@.len() < usize::MAX,
        decreases parser.stream().len() - parser.position(),
    {
        proof {
            parser.lemma_position_in_stream();
        }
        let item = match parser.next() {
            Err(e) => { return Err(e); },
            Ok(None) => { break; },
            Ok(Some(item)) => item,
        };
        proof {
            parser.lemma_position_in_stream();
        }
        match reject_root_execution(&item) {
            Ok(()) => {},
            Err(e) => { return Err(e); },
        }
        match lowerer.consume(&mut ctx, item) {
            Ok(()) => {},
            Err(e) => { return Err(e); },
        }
        drain_into(&mut lowerer, &mut out);
    }
    match lowerer.consume(&mut ctx, target_exec(target)) {
        Ok(()) => {},
        Err(e) => { return Err(e); },
    }
    drain_into(&mut lowerer, &mut out);
    Ok(out)
}

/// Moves what the lowerer has ready to the end of `out`, in order.
fn drain_into(lowerer: &mut hir::Lowerer, out: &mut Vec<BlockItem>)
    ensures
        final(lowerer).ready@.len() == 0,
        final(out)@ == old(out)@ + old(lowerer).ready@,
{
    while lowerer.ready.len() > 0
        invariant
            old(out)@ + old(lowerer).ready@ == out@ + lowerer.ready@,
        decreases lowerer.ready@.len(),
    {
        let ghost before_out = out@;
        let ghost before_ready = lowerer.ready@;
        match lowerer.produce() {
            Some(item) => {
                out.push(item);
                proof {
                    assert(before_ready =~= seq![before_ready[0]] + before_ready.drop_first());
                    assert(out@ + lowerer.ready@ =~= before_out + before_ready);
                }
            },
            None => {},
        }
    }
    proof {
        assert(out@ =~= old(out)@ + old(lowerer).ready@);
    }
}

/// The normalized rgo text of the lowered program in `source` whose entry runs `target`.
pub fn render_normalized_hir(source: Vec<u8>, target: &str) -> (r: Result<String, Error>)
    ensures
        r matches Ok(t) ==> exists|items: Seq<BlockItem>| #![trigger rendered_prefix(items, items.len() as int)]
            t@ == rendered_prefix(items, items.len() as int) && items.len() > 0 && items.last() is Exec,
        starts_with_invocation(source@) ==> (r matches Err(e) && e.code == Code::Parse && e.message@
            == root_execution_message()),
        r is Ok ==> crate::compiler::lexer::lexes_to_end(source@),
{
    match lower_source_items(source, target) {
        Ok(items) => Ok(render_normalized_rgo(&items)),
        Err(e) => Err(e),
    }
}

/// The AIR functions of a program whose entry runs the function `target`: the source
/// parsed item by item (an invocation at the root is refused), each item lowered, and
/// the functions lowered as the entry reaches them; the entry function comes last.
pub fn lower_program(source: Vec<u8>, target: &str) -> (r: Result<Vec<AirFunction>, Error>)
    ensures
        r matches Ok(fs) ==> fs@.len() >= 1 && fs@.last().sig@.name == ENTRY_FUNCTION_NAME@
            && fs@.last().sig@.params.len() == 0,
        source@.len() == usize::MAX ==> (r matches Err(e) && e.code == Code::Parse && e.message@
            == "source too large"@),
        starts_with_invocation(source@) ==> (r matches Err(e) && e.code == Code::Parse && e.message@
            == root_execution_message()),
        r is Ok ==> crate::compiler::lexer::lexes_to_end(source@),
{
    if source.len() == usize::MAX {
        return Err(error_from_str(Code::Parse, "source too large", Span::unknown()));
    }
    let ghost first_call = starts_with_invocation(source@);
    let mut parser = Parser::new(Lexer::new(source));
    let mut ctx = Context::new();
    let mut lowerer = hir::Lowerer::new();
    let mut front = FrontEnd { symbols: SymbolRegistry::new(), functions: Vec::new(), entry_items: Vec::new() };
    loop
        invariant
            first_call == starts_with_invocation(source@),
            first_call ==> (parser.position() == 0 && parser.lex_failure() is None
                && crate::compiler::parser::token_kinds(parser.stream()) == crate::compiler::lexer::lex_from(source@, 0)),
            source@.len() < usize::MAX,
            (parser.lex_failure() is None) == crate::compiler::lexer::lexes_to_end(source@),
            parser.wf(),
        ensures
            !first_call,
            crate::compiler::lexer::lexes_to_end(source@),
            source@.len() < usize::MAX,
        decreases parser.stream().len() - parser.position(),
    {
        proof {
            parser.lemma_position_in_stream();
        }
        let item = match parser.next() {
            Err(e) => { return Err(e); },
            Ok(None) => { break; },
            Ok(Some(item)) => item,
        };
        proof {
            parser.lemma_position_in_stream();
        }
        match reject_root_execution(&item) {
            Ok(()) => {},
            Err(e) => { return Err(e); },
        }
        match lowerer.consume(&mut ctx, item) {
            Ok(()) => {},
            Err(e) => { return Err(e); },
        }
        match front.drain(&mut lowerer, false) {
            Ok(()) => {},
            Err(e) => { return Err(e); },
        }
    }
    match lowerer.consume(&mut ctx, target_exec(target)) {
        Ok(()) => {},
        Err(e) => { return Err(e); },
    }
    match front.drain(&mut lowerer, true) {
        Ok(()) => {},
        Err(e) => { return Err(e); },
    }
    front.into_air(true)
}

/// Whether the whole of `source` lexes and its first root item is an invocation of a
/// name: after any line breaks, a name followed by neither `:` nor `(`.
pub open spec fn starts_with_invocation(source: Seq<u8>) -> bool {
    &&& source.len() < usize::MAX
    &&& crate::compiler::lexer::lexes_to_end(source)
    &&& crate::compiler::parser::bare_call_at(crate::compiler::lexer::lex_from(source, 0), 0)
}

/// The NASM text of the program in `source` whose entry runs the function `target`: the
/// program text of the AIR functions that `lower_program` gives. A program whose first
/// root item is an invocation is refused.
pub fn compile(source: Vec<u8>, target: &str) -> (r: Result<String, Error>)
    ensures
        r matches Ok(t) ==> exists|fs: Seq<AirFunction>| #![trigger program_text(fs)]
            fs.len() >= 1 && fs.last().sig@.name == ENTRY_FUNCTION_NAME@ && program_text(fs) == Ok::<Seq<char>, Seq<char>>(t@),
        starts_with_invocation(source@) ==> (r matches Err(e) && e.code == Code::Parse && e.message@
            == root_execution_message()),
        r is Ok ==> crate::compiler::lexer::lexes_to_end(source@),
{
    let functions = match lower_program(source, target) {
        Ok(fs) => fs,
        Err(e) => { return Err(e); },
    };
    let r = emit_program(&functions);
    proof {
        if r is Ok {
            assert(program_text(functions@) == Ok::<Seq<char>, Seq<char>>(r->Ok_0@));
        }
    }
    r
}

} // verus!
