//! Lowering of functions from the high-level representation to AIR, and the helper
//! functions that each closure target gets: an unwrapper that unpacks the
//! environment and jumps to the target, and the deep release and deep copy of the
//! environment's closure fields.

use vstd::prelude::*;

use crate::compiler::air::{
    builtin_statements_ok, builtin_statements_pre, build_builtin_statements, call_op, closure_deep_release_label,
    closure_deepcopy_label, closure_remaining_after_applying, closure_unwrapper_label, find_remaining,
    function_sig_from_hir, instruction_args_ok, is_call_builtin, is_inline_builtin, is_instruction_builtin,
    is_str_literal, literal_for_arg, resolve_target, suffix_word_counts,
};
use crate::compiler::air_ast::{
    clone_function_sig, AirArg, AirCallPtr, AirCallPtrTarget, AirCloneClosure, AirExecTarget, AirField, AirFunction,
    AirJumpArgs, AirJumpClosure, AirJumpGt, AirLabel, AirNewClosure, AirOp, AirPin, AirReleaseHeap, AirReturn,
    AirSetField, AirStmt, AirValue, ArgView, FunctionSig, FunctionSigView,
};
use crate::compiler::builtins::Builtin;
use crate::compiler::codegen::remove_name;
use crate::compiler::error::{error_from_str, Code, Error};
use crate::compiler::hir_ast::{
    self as hir, clone_item, clone_kind, clone_lit, items_view, kinds_view, names_view, ItemView, KindView, Lit,
    SigItem, SigKind,
};
use crate::compiler::hir_context::{clone_items, contains_name, ENTRY_FUNCTION_NAME};
use crate::compiler::span::Span;
use crate::compiler::symbol::{builtin_function_sig, SymbolRegistry};
use crate::name_set::sorted_set_from;
use crate::text::{concat, decimal_text, push_str, usize_to_string};

verus! {

/// The offset of the word in a closure environment's metadata that holds how many
/// parameter words are still unfilled.
pub const NUM_REMAINING_METADATA_WORD_OFFSET: usize = 5;

// ---------------------------------------------------------------------------
// Shapes of statements
// ---------------------------------------------------------------------------

/// `result = @pin($binding)`.
pub open spec fn is_pin(s: AirStmt, result: Seq<char>, binding: Seq<char>) -> bool {
    match s {
        AirStmt::Op(op) => match *op {
            AirOp::Pin(p) => p.result@ == result && match p.value {
                AirValue::Binding(b) => b@ == binding,
                _ => false,
            },
            _ => false,
        },
        _ => false,
    }
}

/// `result = @field(ptr, offset)` reading a value of kind `kind`.
pub open spec fn is_field(s: AirStmt, result: Seq<char>, ptr: Seq<char>, offset: int, kind: KindView) -> bool {
    match s {
        AirStmt::Op(op) => match *op {
            AirOp::Field(f) => f.result@ == result && f.ptr@ == ptr && f.offset == offset && f.kind@ == kind,
            _ => false,
        },
        _ => false,
    }
}

/// `@deepcopy(result, ptr, offset)` of a value of kind `kind`.
pub open spec fn is_copy_field(s: AirStmt, result: Seq<char>, ptr: Seq<char>, offset: int, kind: KindView) -> bool {
    match s {
        AirStmt::Op(op) => match *op {
            AirOp::CopyField(f) => f.result@ == result && f.ptr@ == ptr && f.offset == offset && f.kind@ == kind,
            _ => false,
        },
        _ => false,
    }
}

/// `@release(name)`.
pub open spec fn is_release(s: AirStmt, name: Seq<char>) -> bool {
    match s {
        AirStmt::Op(op) => match *op {
            AirOp::ReleaseHeap(h) => h.name@ == name,
            _ => false,
        },
        _ => false,
    }
}

/// `@gt(target, $left, right)` with a literal on the right.
pub open spec fn is_jump_gt(s: AirStmt, left: Seq<char>, right: int, target: Seq<char>) -> bool {
    match s {
        AirStmt::Op(op) => match *op {
            AirOp::JumpGt(j) => j.target@ == target && (match j.left {
                AirValue::Binding(b) => b@ == left,
                _ => false,
            }) && (match j.right {
                AirValue::Literal(x) => x == right,
                _ => false,
            }),
            _ => false,
        },
        _ => false,
    }
}

/// `@callptr(name)`.
pub open spec fn is_call_ptr(s: AirStmt, name: Seq<char>) -> bool {
    match s {
        AirStmt::Op(op) => match *op {
            AirOp::CallPtr(c) => match c.target {
                AirCallPtrTarget::Binding(n) => n@ == name,
            },
            _ => false,
        },
        _ => false,
    }
}

/// `name:`.
pub open spec fn is_label(s: AirStmt, name: Seq<char>) -> bool {
    match s {
        AirStmt::Label(l) => l.name@ == name,
        _ => false,
    }
}

/// `@return()`.
pub open spec fn is_return_none(s: AirStmt) -> bool {
    match s {
        AirStmt::Op(op) => match *op {
            AirOp::Return(r) => r.value is None,
            _ => false,
        },
        _ => false,
    }
}

/// `@jumpargs(target, args)`.
pub open spec fn is_jump_args(s: AirStmt, target: FunctionSigView, args: Seq<ArgView>) -> bool {
    match s {
        AirStmt::Op(op) => match *op {
            AirOp::JumpArgs(j) => j.target@ == target && arg_views(j.args@) == args,
            _ => false,
        },
        _ => false,
    }
}

/// `@setfield(env_end, offset, value)`, the value given by a test on its view.
pub open spec fn is_set_field(s: AirStmt, env_end: Seq<char>, offset: int) -> bool {
    match s {
        AirStmt::Op(op) => match *op {
            AirOp::SetField(f) => f.env_end@ == env_end && f.offset == offset,
            _ => false,
        },
        _ => false,
    }
}

/// The value that a `@setfield` stores.
pub open spec fn set_value(s: AirStmt) -> ArgView {
    match s {
        AirStmt::Op(op) => match *op {
            AirOp::SetField(f) => f.value@,
            _ => arbitrary(),
        },
        _ => arbitrary(),
    }
}

/// `dst = @cloneclosure(src, remaining)`.
pub open spec fn is_clone_closure(s: AirStmt, src: Seq<char>, dst: Seq<char>, remaining: Seq<KindView>) -> bool {
    match s {
        AirStmt::Op(op) => match *op {
            AirOp::CloneClosure(c) => c.src@ == src && c.dst@ == dst && kinds_view(c.remaining@) == remaining,
            _ => false,
        },
        _ => false,
    }
}

pub open spec fn arg_views(args: Seq<AirArg>) -> Seq<ArgView> {
    Seq::new(args.len(), |i: int| args[i]@)
}

/// The number of closure-valued parameters among the first `j`.
pub open spec fn ref_count(params: Seq<ItemView>, j: int) -> nat
    decreases j,
{
    if j <= 0 {
        0
    } else {
        ref_count(params, j - 1) + if params[j - 1].kind is Sig {
            1nat
        } else {
            0nat
        }
    }
}

proof fn lemma_ref_count_monotonic(params: Seq<ItemView>, i: int, j: int)
    requires
        0 <= i <= j,
    ensures
        ref_count(params, i) <= ref_count(params, j),
    decreases j - i,
{
    if i < j {
        lemma_ref_count_monotonic(params, i, j - 1);
    }
}

// ---------------------------------------------------------------------------
// Helper functions of closure targets
// ---------------------------------------------------------------------------

/// The single parameter of the helper functions: the end of the environment.
fn env_end_param() -> (r: SigItem)
    ensures
        r@ == (ItemView { name: "env_end"@, kind: KindView::Int, has_bang: false }),
{
    SigItem { name: "env_end".to_string(), kind: SigKind::Int, has_bang: false }
}

/// The arguments that forward the fields `fields`: each by its name and kind.
pub open spec fn field_args(fields: Seq<ItemView>) -> Seq<ArgView> {
    Seq::new(fields.len(), |i: int| ArgView { name: fields[i].name, kind: fields[i].kind, literal: None })
}

/// A function named `name` that takes the environment end `env_param`, reads the
/// fields `fields` from the environment (the last field in the last word before the
/// end), releases the environment, and then either executes the builtin that
/// `target_sig` stands for on the fields (a call or an inline builtin) or jumps to
/// `target_sig` with them.
pub fn build_unwrapper_function(
    name: String,
    target_sig: FunctionSig,
    env_param: SigItem,
    field_sig_items: Vec<SigItem>,
) -> (r: AirFunction)
    requires
        field_sig_items@.len() <= isize::MAX,
        forall|args: Seq<AirArg>| #![trigger arg_views(args)] arg_views(args) == field_args(items_view(field_sig_items@))
            ==> match target_sig.builtin {
                Some(b) => (is_call_builtin(b) || is_instruction_builtin(b)) ==> builtin_statements_pre(b, args),
                None => true,
            },
    ensures
        ({
            let fields = items_view(field_sig_items@);
            let n = fields.len() as int;
            let items = r.items@;
            &&& r.sig@ == (FunctionSigView { name: name@, params: seq![env_param@], generics: seq![], builtin: None })
            &&& items.len() >= n + 2
            &&& is_pin(items[0], "__env_end"@, env_param@.name)
            &&& forall|i: int| 0 <= i < n ==> #[trigger] is_field(items[i + 1], fields[i].name, "__env_end"@, i - n, fields[i].kind)
            &&& is_release(items[n + 1], "__env_end"@)
            &&& match target_sig.builtin {
                Some(b) => if is_call_builtin(b) || is_instruction_builtin(b) {
                    exists|args: Seq<AirArg>| #![trigger arg_views(args)] arg_views(args) == field_args(fields)
                        && builtin_statements_ok(target_sig.name@, b, args, items.skip(n + 2))
                } else {
                    items.len() == n + 3 && is_jump_args(items[n + 2], target_sig@, field_args(fields))
                },
                None => items.len() == n + 3 && is_jump_args(items[n + 2], target_sig@, field_args(fields)),
            }
        }),
{
    let ghost fields = items_view(field_sig_items@);
    let n = field_sig_items.len();
    let mut items: Vec<AirStmt> = Vec::new();
    items.push(AirStmt::Op(Box::new(AirOp::Pin(AirPin {
        result: "__env_end".to_string(),
        value: AirValue::Binding(env_param.name.clone()),
    }))));
    let mut i: usize = 0;
    while i < n
        invariant
            i <= n,
            n == field_sig_items@.len(),
            n <= isize::MAX,
            fields == items_view(field_sig_items@),
            items@.len() == i + 1,
            is_pin(items@[0], "__env_end"@, env_param@.name),
            forall|k: int| 0 <= k < i ==> #[trigger] is_field(items@[k + 1], fields[k].name, "__env_end"@, k - n, fields[k].kind),
        decreases n - i,
    {
        let offset: isize = (i as isize) - (n as isize);
        items.push(AirStmt::Op(Box::new(AirOp::Field(AirField {
            result: field_sig_items[i].name.clone(),
            ptr: "__env_end".to_string(),
            offset,
            kind: clone_kind(&field_sig_items[i].kind),
        }))));
        i = i + 1;
    }
    items.push(AirStmt::Op(Box::new(AirOp::ReleaseHeap(AirReleaseHeap { name: "__env_end".to_string() }))));
    let mut builtin_args: Vec<AirArg> = Vec::new();
    let mut j: usize = 0;
    while j < n
        invariant
            j <= n,
            n == field_sig_items@.len(),
            fields == items_view(field_sig_items@),
            arg_views(builtin_args@) == field_args(fields).take(j as int),
        decreases n - j,
    {
        let ghost before = arg_views(builtin_args@);
        builtin_args.push(AirArg {
            name: field_sig_items[j].name.clone(),
            kind: clone_kind(&field_sig_items[j].kind),
            literal: None,
        });
        proof {
            assert(arg_views(builtin_args@) =~= before.push(field_args(fields)[j as int]));
            assert(field_args(fields).take(j + 1) =~= field_args(fields).take(j as int).push(field_args(fields)[j as int]));
        }
        j = j + 1;
    }
    proof {
        assert(field_args(fields).take(n as int) =~= field_args(fields));
    }
    let ghost args_seq = builtin_args@;
    let inline_builtin = match target_sig.builtin {
        Some(b) => b.is_call() || is_inline_builtin(b),
        None => false,
    };
    if inline_builtin {
        let b = target_sig.builtin.unwrap();
        let tail = build_builtin_statements(&target_sig, b, builtin_args);
        let mut tail = tail;
        let ghost tail_seq = tail@;
        items.append(&mut tail);
        proof {
            assert(items@.skip(n + 2) =~= tail_seq);
            assert(arg_views(args_seq) == field_args(fields));
        }
    } else {
        items.push(AirStmt::Op(Box::new(AirOp::JumpArgs(AirJumpArgs { target: target_sig, args: builtin_args }))));
    }
    proof {
        reveal_strlit("__env_end");
    }
    AirFunction {
        sig: FunctionSig { name, params: vec![env_param], generics: Vec::new(), builtin: None },
        items,
    }
}

/// The unwrapper of a function: it unpacks the function's parameters from a closure
/// environment and jumps to the function (see `build_unwrapper_function`).
pub fn build_closure_unwrapper(function: &AirFunction) -> (r: Option<AirFunction>)
    requires
        function.sig.params@.len() <= isize::MAX,
        function.sig.builtin is None,
    ensures
        r matches Some(f) && f.sig@.name == function.sig.name@ + "_unwrapper"@ && f.sig@.params == seq![
            ItemView { name: "env_end"@, kind: KindView::Int, has_bang: false },
        ] && f.items@.len() == function.sig.params@.len() + 3 && is_jump_args(
            f.items@[function.sig.params@.len() as int + 2],
            function.sig@,
            field_args(function.sig@.params),
        ),
{
    let env_param = env_end_param();
    let mut params: Vec<SigItem> = Vec::new();
    let mut i: usize = 0;
    while i < function.sig.params.len()
        invariant
            i <= function.sig.params@.len(),
            items_view(params@) == items_view(function.sig.params@).take(i as int),
        decreases function.sig.params@.len() - i,
    {
        let ghost before = items_view(params@);
        params.push(clone_item(&function.sig.params[i]));
        proof {
            assert(items_view(params@) =~= before.push(function.sig.params@[i as int]@));
            assert(items_view(function.sig.params@).take(i + 1) =~= items_view(function.sig.params@).take(i as int).push(
                function.sig.params@[i as int]@,
            ));
        }
        i = i + 1;
    }
    proof {
        assert(items_view(function.sig.params@).take(function.sig.params@.len() as int) =~= items_view(
            function.sig.params@,
        ));
    }
    let target = clone_function_sig(&function.sig);
    let name = closure_unwrapper_label(function.sig.name.as_str());
    Some(build_unwrapper_function(name, target, env_param, params))
}

pub open spec fn release_skip_label(fname: Seq<char>, idx: nat) -> Seq<char> {
    fname + "_release_skip_"@ + decimal_text(idx)
}

pub open spec fn release_field_name(fname: Seq<char>, idx: nat) -> Seq<char> {
    fname + "_release_field_"@ + decimal_text(idx)
}

/// The deep release of a function's environment: for each closure-valued parameter
/// whose word is filled (the environment's count of unfilled words says so), the
/// closure's release routine is called; then the environment itself is released.
pub open spec fn deep_release_ok(fname: Seq<char>, params: Seq<ItemView>, items: Seq<AirStmt>) -> bool {
    let n = params.len() as int;
    let refs = ref_count(params, n) as int;
    &&& items.len() == (if refs > 0 { 2 + 4 * refs } else { 1 }) + 2
    &&& is_pin(items[0], "__env_end"@, "env_end"@)
    &&& refs > 0 ==> is_field(items[1], "__num_remaining"@, "__env_end"@, 5, KindView::Int)
    &&& forall|idx: int| #![trigger params[idx]] 0 <= idx < n && params[idx].kind is Sig ==> {
        let base: int = (2 + 4 * ref_count(params, idx)) as int;
        &&& is_jump_gt(items[base], "__num_remaining"@, n - idx - 1, release_skip_label(fname, idx as nat))
        &&& is_field(items[base + 1], release_field_name(fname, idx as nat), "__env_end"@, idx - n, params[idx].kind)
        &&& is_call_ptr(items[base + 2], release_field_name(fname, idx as nat))
        &&& is_label(items[base + 3], release_skip_label(fname, idx as nat))
    }
    &&& is_release(items[items.len() - 2], "__env_end"@)
    &&& is_return_none(items[items.len() - 1])
}

fn numbered_label(fname: &str, middle: &str, idx: usize) -> (r: String)
    ensures
        r@ == fname@ + middle@ + decimal_text(idx as nat),
{
    let mut s = concat(fname, middle);
    push_str(&mut s, usize_to_string(idx).as_str());
    s
}

/// The deep release helper of a function (see `deep_release_ok`), named
/// `{name}_deep_release`.
pub fn build_deep_release_helper(function: &AirFunction) -> (r: Option<AirFunction>)
    requires
        function.sig.params@.len() <= isize::MAX,
    ensures
        r matches Some(f) && f.sig@ == (FunctionSigView {
            name: function.sig.name@ + "_deep_release"@,
            params: seq![ItemView { name: "env_end"@, kind: KindView::Int, has_bang: false }],
            generics: seq![],
            builtin: None,
        }) && deep_release_ok(function.sig.name@, function.sig@.params, f.items@),
{
    let env_param = env_end_param();
    let ghost params = function.sig@.params;
    let n = function.sig.params.len();
    let fname = function.sig.name.as_str();
    let mut items: Vec<AirStmt> = Vec::new();
    items.push(AirStmt::Op(Box::new(AirOp::Pin(AirPin {
        result: "__env_end".to_string(),
        value: AirValue::Binding(env_param.name.clone()),
    }))));
    let mut has_refs = false;
    let mut k: usize = 0;
    while k < n
        invariant
            k <= n,
            n == function.sig.params@.len(),
            params == function.sig@.params,
            has_refs == (ref_count(params, k as int) > 0),
        decreases n - k,
    {
        proof {
            assert(params[k as int] == function.sig.params@[k as int]@);
        }
        if let SigKind::Sig(_) = &function.sig.params[k].kind {
            has_refs = true;
        }
        k = k + 1;
    }
    if has_refs {
        items.push(AirStmt::Op(Box::new(AirOp::Field(AirField {
            result: "__num_remaining".to_string(),
            ptr: "__env_end".to_string(),
            offset: NUM_REMAINING_METADATA_WORD_OFFSET as isize,
            kind: SigKind::Int,
        }))));
        let mut idx: usize = 0;
        while idx < n
            invariant
                idx <= n,
                n == function.sig.params@.len(),
                n <= isize::MAX,
                params == function.sig@.params,
                fname@ == function.sig.name@,
                ref_count(params, n as int) > 0,
                items@.len() == 2 + 4 * ref_count(params, idx as int),
                is_pin(items@[0], "__env_end"@, "env_end"@),
                is_field(items@[1], "__num_remaining"@, "__env_end"@, 5, KindView::Int),
                forall|m: int| #![trigger params[m]] 0 <= m < idx && params[m].kind is Sig ==> {
                    let base: int = (2 + 4 * ref_count(params, m)) as int;
                    &&& is_jump_gt(items@[base], "__num_remaining"@, n - m - 1, release_skip_label(fname@, m as nat))
                    &&& is_field(items@[base + 1], release_field_name(fname@, m as nat), "__env_end"@, m - n, params[m].kind)
                    &&& is_call_ptr(items@[base + 2], release_field_name(fname@, m as nat))
                    &&& is_label(items@[base + 3], release_skip_label(fname@, m as nat))
                },
            decreases n - idx,
        {
            proof {
                assert(params[idx as int] == function.sig.params@[idx as int]@);
                reveal_strlit("__num_remaining");
                reveal_strlit("__env_end");
                assert forall|m: int| 0 <= m < idx && #[trigger] params[m].kind is Sig implies (2 + 4 * ref_count(params, m))
                    + 3 < items@.len() by {
                    lemma_ref_count_monotonic(params, m + 1, idx as int);
                }
            }
            let ghost old_items = items@;
            if let SigKind::Sig(_) = &function.sig.params[idx].kind {
                let skip_label = numbered_label(fname, "_release_skip_", idx);
                let location = numbered_label(fname, "_release_field_", idx);
                let threshold: i64 = (n - idx - 1) as i64;
                let offset: isize = (idx as isize) - (n as isize);
                items.push(AirStmt::Op(Box::new(AirOp::JumpGt(AirJumpGt {
                    left: AirValue::Binding("__num_remaining".to_string()),
                    right: AirValue::Literal(threshold),
                    target: skip_label.clone(),
                }))));
                items.push(AirStmt::Op(Box::new(AirOp::Field(AirField {
                    result: location.clone(),
                    ptr: "__env_end".to_string(),
                    offset,
                    kind: clone_kind(&function.sig.params[idx].kind),
                }))));
                items.push(AirStmt::Op(Box::new(AirOp::CallPtr(AirCallPtr {
                    target: AirCallPtrTarget::Binding(location),
                }))));
                items.push(AirStmt::Label(AirLabel { name: skip_label }));
            }
            proof {
                assert forall|m: int| 0 <= m < idx && #[trigger] params[m].kind is Sig implies {
                    let base: int = (2 + 4 * ref_count(params, m)) as int;
                    &&& items@[base] == old_items[base]
                    &&& items@[base + 1] == old_items[base + 1]
                    &&& items@[base + 2] == old_items[base + 2]
                    &&& items@[base + 3] == old_items[base + 3]
                } by {
                    lemma_ref_count_monotonic(params, m + 1, idx as int);
                }
            }
            idx = idx + 1;
        }
    }
    let ghost body = items@;
    items.push(AirStmt::Op(Box::new(AirOp::ReleaseHeap(AirReleaseHeap { name: "__env_end".to_string() }))));
    items.push(AirStmt::Op(Box::new(AirOp::Return(AirReturn { value: None }))));
    proof {
        reveal_strlit("__env_end");
        reveal_strlit("env_end");
        if !has_refs {
            assert forall|m: int| 0 <= m < n implies !(#[trigger] params[m].kind is Sig) by {
                lemma_ref_count_monotonic(params, m + 1, n as int);
            }
        }
        assert forall|m: int| #![trigger params[m]] 0 <= m < n && params[m].kind is Sig implies {
            let base: int = (2 + 4 * ref_count(params, m)) as int;
            &&& items@[base] == body[base]
            &&& items@[base + 1] == body[base + 1]
            &&& items@[base + 2] == body[base + 2]
            &&& items@[base + 3] == body[base + 3]
        } by {
            lemma_ref_count_monotonic(params, m + 1, n as int);
        }
    }
    let name = closure_deep_release_label(fname);
    Some(AirFunction {
        sig: FunctionSig { name, params: vec![env_param], generics: Vec::new(), builtin: None },
        items,
    })
}

pub open spec fn deepcopy_skip_label(fname: Seq<char>, idx: nat) -> Seq<char> {
    fname + "_deepcopy_skip_"@ + decimal_text(idx)
}

pub open spec fn deepcopy_field_name(fname: Seq<char>, idx: nat) -> Seq<char> {
    fname + "_deepcopy_field_"@ + decimal_text(idx)
}

/// The deep copy of a function's environment: each closure-valued parameter whose word
/// is filled is copied deeply in place.
pub open spec fn deep_copy_ok(fname: Seq<char>, params: Seq<ItemView>, items: Seq<AirStmt>) -> bool {
    let n = params.len() as int;
    let refs = ref_count(params, n) as int;
    &&& items.len() == (if refs > 0 { 2 + 3 * refs } else { 1 }) + 1
    &&& is_pin(items[0], "__env_end"@, "env_end"@)
    &&& refs > 0 ==> is_field(items[1], "num_remaining"@, "__env_end"@, 5, KindView::Int)
    &&& forall|idx: int| #![trigger params[idx]] 0 <= idx < n && params[idx].kind is Sig ==> {
        let base: int = (2 + 3 * ref_count(params, idx)) as int;
        &&& is_jump_gt(items[base], "num_remaining"@, n - idx - 1, deepcopy_skip_label(fname, idx as nat))
        &&& is_copy_field(items[base + 1], deepcopy_field_name(fname, idx as nat), "__env_end"@, idx - n, params[idx].kind)
        &&& is_label(items[base + 2], deepcopy_skip_label(fname, idx as nat))
    }
    &&& is_return_none(items[items.len() - 1])
}

/// The deep copy helper of a function (see `deep_copy_ok`), named `{name}_deepcopy`.
#[verifier::rlimit(30)]
pub fn build_deep_copy_helper(function: &AirFunction) -> (r: Option<AirFunction>)
    requires
        function.sig.params@.len() <= isize::MAX,
    ensures
        r matches Some(f) && f.sig@ == (FunctionSigView {
            name: function.sig.name@ + "_deepcopy"@,
            params: seq![ItemView { name: "env_end"@, kind: KindView::Int, has_bang: false }],
            generics: seq![],
            builtin: None,
        }) && deep_copy_ok(function.sig.name@, function.sig@.params, f.items@),
{
    let env_param = env_end_param();
    let ghost params = function.sig@.params;
    let n = function.sig.params.len();
    let fname = function.sig.name.as_str();
    let mut items: Vec<AirStmt> = Vec::new();
    items.push(AirStmt::Op(Box::new(AirOp::Pin(AirPin {
        result: "__env_end".to_string(),
        value: AirValue::Binding(env_param.name.clone()),
    }))));
    let mut has_refs = false;
    let mut k: usize = 0;
    while k < n
        invariant
            k <= n,
            n == function.sig.params@.len(),
            params == function.sig@.params,
            has_refs == (ref_count(params, k as int) > 0),
        decreases n - k,
    {
        proof {
            assert(params[k as int] == function.sig.params@[k as int]@);
        }
        if let SigKind::Sig(_) = &function.sig.params[k].kind {
            has_refs = true;
        }
        k = k + 1;
    }
    if has_refs {
        items.push(AirStmt::Op(Box::new(AirOp::Field(AirField {
            result: "num_remaining".to_string(),
            ptr: "__env_end".to_string(),
            offset: NUM_REMAINING_METADATA_WORD_OFFSET as isize,
            kind: SigKind::Int,
        }))));
        let mut idx: usize = 0;
        while idx < n
            invariant
                idx <= n,
                n == function.sig.params@.len(),
                n <= isize::MAX,
                params == function.sig@.params,
                fname@ == function.sig.name@,
                ref_count(params, n as int) > 0,
                items@.len() == 2 + 3 * ref_count(params, idx as int),
                is_pin(items@[0], "__env_end"@, "env_end"@),
                is_field(items@[1], "num_remaining"@, "__env_end"@, 5, KindView::Int),
                forall|m: int| #![trigger params[m]] 0 <= m < idx && params[m].kind is Sig ==> {
                    let base: int = (2 + 3 * ref_count(params, m)) as int;
                    &&& is_jump_gt(items@[base], "num_remaining"@, n - m - 1, deepcopy_skip_label(fname@, m as nat))
                    &&& is_copy_field(items@[base + 1], deepcopy_field_name(fname@, m as nat), "__env_end"@, m - n, params[m].kind)
                    &&& is_label(items@[base + 2], deepcopy_skip_label(fname@, m as nat))
                },
            decreases n - idx,
        {
            proof {
                assert(params[idx as int] == function.sig.params@[idx as int]@);
                reveal_strlit("num_remaining");
                reveal_strlit("__env_end");
                assert forall|m: int| 0 <= m < idx && #[trigger] params[m].kind is Sig implies (2 + 3 * ref_count(params, m))
                    + 2 < items@.len() by {
                    lemma_ref_count_monotonic(params, m + 1, idx as int);
                }
            }
            let ghost old_items = items@;
            if let SigKind::Sig(_) = &function.sig.params[idx].kind {
                let skip_label = numbered_label(fname, "_deepcopy_skip_", idx);
                let field_name = numbered_label(fname, "_deepcopy_field_", idx);
                let threshold: i64 = (n - idx - 1) as i64;
                let offset: isize = -((n - idx) as isize);
                items.push(AirStmt::Op(Box::new(AirOp::JumpGt(AirJumpGt {
                    left: AirValue::Binding("num_remaining".to_string()),
                    right: AirValue::Literal(threshold),
                    target: skip_label.clone(),
                }))));
                items.push(AirStmt::Op(Box::new(AirOp::CopyField(AirField {
                    result: field_name,
                    ptr: "__env_end".to_string(),
                    offset,
                    kind: clone_kind(&function.sig.params[idx].kind),
                }))));
                items.push(AirStmt::Label(AirLabel { name: skip_label }));
            }
            proof {
                assert forall|m: int| 0 <= m < idx && #[trigger] params[m].kind is Sig implies {
                    let base: int = (2 + 3 * ref_count(params, m)) as int;
                    &&& items@[base] == old_items[base]
                    &&& items@[base + 1] == old_items[base + 1]
                    &&& items@[base + 2] == old_items[base + 2]
                } by {
                    lemma_ref_count_monotonic(params, m + 1, idx as int);
                }
            }
            idx = idx + 1;
        }
    }
    let ghost body = items@;
    items.push(AirStmt::Op(Box::new(AirOp::Return(AirReturn { value: None }))));
    proof {
        reveal_strlit("__env_end");
        reveal_strlit("env_end");
        if !has_refs {
            assert forall|m: int| 0 <= m < n implies !(#[trigger] params[m].kind is Sig) by {
                lemma_ref_count_monotonic(params, m + 1, n as int);
            }
        }
        assert forall|m: int| #![trigger params[m]] 0 <= m < n && params[m].kind is Sig implies {
            let base: int = (2 + 3 * ref_count(params, m)) as int;
            &&& items@[base] == body[base]
            &&& items@[base + 1] == body[base + 1]
            &&& items@[base + 2] == body[base + 2]
        } by {
            lemma_ref_count_monotonic(params, m + 1, n as int);
        }
    }
    let name = closure_deepcopy_label(fname);
    Some(AirFunction {
        sig: FunctionSig { name, params: vec![env_param], generics: Vec::new(), builtin: None },
        items,
    })
}

// ---------------------------------------------------------------------------
// Per-function lowering state
// ---------------------------------------------------------------------------

/// What lowering a function keeps track of: the names bound locally, the generated
/// functions, the closure parameters not yet used (they are released before control
/// leaves), the literal values, the parameter kinds that each closure still expects,
/// and how many uses of each name are still to come.
pub struct AirLowerContext {
    pub locals: Vec<String>,
    pub generated_functions: Vec<AirFunction>,
    pub unused_params: Vec<String>,
    pub literals: Vec<(String, Lit)>,
    pub closure_remaining: Vec<(String, Vec<SigKind>)>,
    pub remaining_uses: Vec<(String, usize)>,
}

pub open spec fn use_views(s: Seq<(String, usize)>) -> Seq<(Seq<char>, usize)> {
    Seq::new(s.len(), |i: int| (s[i].0@, s[i].1))
}

/// The index of the last entry for `name`.
fn find_use(s: &Vec<(String, usize)>, name: &str) -> (r: Option<usize>)
    ensures
        match r {
            Some(i) => i < s@.len() && s@[i as int].0@ == name@ && forall|j: int| i < j < s@.len() ==> (#[trigger] s@[j]).0@ != name@,
            None => forall|j: int| 0 <= j < s@.len() ==> (#[trigger] s@[j]).0@ != name@,
        },
{
    let mut i: usize = s.len();
    while i > 0
        invariant
            i <= s@.len(),
            forall|j: int| i <= j < s@.len() ==> (#[trigger] s@[j]).0@ != name@,
        decreases i,
    {
        if crate::text::str_eq(s[i - 1].0.as_str(), name) {
            return Some(i - 1);
        }
        i = i - 1;
    }
    None
}

impl AirLowerContext {
    pub fn new(remaining_uses: Vec<(String, usize)>) -> (r: Self)
        ensures
            r.remaining_uses == remaining_uses,
            r.locals@.len() == 0,
            r.generated_functions@.len() == 0,
            r.unused_params@.len() == 0,
            r.literals@.len() == 0,
            r.closure_remaining@.len() == 0,
    {
        AirLowerContext {
            locals: Vec::new(),
            generated_functions: Vec::new(),
            unused_params: Vec::new(),
            literals: Vec::new(),
            closure_remaining: Vec::new(),
            remaining_uses,
        }
    }

    pub fn push_generated_function(&mut self, function: AirFunction)
        ensures
            final(self).generated_functions@ == old(self).generated_functions@.push(function),
            final(self).locals == old(self).locals,
            final(self).unused_params == old(self).unused_params,
            final(self).literals == old(self).literals,
            final(self).closure_remaining == old(self).closure_remaining,
            final(self).remaining_uses == old(self).remaining_uses,
    {
        self.generated_functions.push(function);
    }

    pub fn into_generated_functions(self) -> (r: Vec<AirFunction>)
        ensures
            r == self.generated_functions,
    {
        self.generated_functions
    }

    /// Counts one use of `name`: the number of uses that were still to come (0 for a
    /// name not counted), one fewer of which remain.
    pub fn count_remaining_use(&mut self, name: &str) -> (r: usize)
        ensures
            match crate::compiler::symbol::assoc_lookup(use_views(old(self).remaining_uses@), name@) {
                Some(c) => r == c && forall|k: Seq<char>| #[trigger] crate::compiler::symbol::assoc_lookup(
                    use_views(final(self).remaining_uses@),
                    k,
                ) == if k == name@ {
                    Some((if c > 0 { c - 1 } else { 0 }) as usize)
                } else {
                    crate::compiler::symbol::assoc_lookup(use_views(old(self).remaining_uses@), k)
                },
                None => r == 0 && final(self).remaining_uses == old(self).remaining_uses,
            },
            final(self).locals == old(self).locals,
            final(self).generated_functions == old(self).generated_functions,
            final(self).unused_params == old(self).unused_params,
            final(self).literals == old(self).literals,
            final(self).closure_remaining == old(self).closure_remaining,
    {
        let ghost v = use_views(self.remaining_uses@);
        match find_use(&self.remaining_uses, name) {
            Some(i) => {
                let previous = self.remaining_uses[i].1;
                let next: usize = if previous > 0 { previous - 1 } else { 0 };
                let key = self.remaining_uses[i].0.clone();
                self.remaining_uses.set(i, (key, next));
                proof {
                    assert(use_views(self.remaining_uses@) =~= v.update(i as int, (name@, next)));
                    assert forall|k: Seq<char>| #[trigger] crate::compiler::symbol::assoc_lookup(
                        use_views(self.remaining_uses@),
                        k,
                    ) == if k == name@ {
                        Some(next)
                    } else {
                        crate::compiler::symbol::assoc_lookup(v, k)
                    } by {
                        crate::compiler::symbol::lemma_assoc_update(v, i as int, name@, next, k);
                    }
                    lemma_assoc_last(v, name@, i as int);
                }
                previous
            },
            None => {
                proof {
                    lemma_assoc_absent(v, name@);
                }
                0
            },
        }
    }
}

proof fn lemma_assoc_last<V>(s: Seq<(Seq<char>, V)>, key: Seq<char>, i: int)
    requires
        0 <= i < s.len(),
        s[i].0 == key,
        forall|j: int| i < j < s.len() ==> (#[trigger] s[j]).0 != key,
    ensures
        crate::compiler::symbol::assoc_lookup(s, key) == Some(s[i].1),
    decreases s.len(),
{
    if i < s.len() - 1 {
        lemma_assoc_last(s.drop_last(), key, i);
    }
}

proof fn lemma_assoc_absent<V>(s: Seq<(Seq<char>, V)>, key: Seq<char>)
    requires
        forall|j: int| 0 <= j < s.len() ==> (#[trigger] s[j]).0 != key,
    ensures
        crate::compiler::symbol::assoc_lookup(s, key) is None,
    decreases s.len(),
{
    if s.len() > 0 {
        lemma_assoc_absent(s.drop_last(), key);
    }
}

// ---------------------------------------------------------------------------
// Uses of names in a block
// ---------------------------------------------------------------------------

/// How often `name` occurs in `s`.
pub open spec fn count_name(s: Seq<Seq<char>>, name: Seq<char>) -> nat
    decreases s.len(),
{
    if s.len() == 0 {
        0
    } else {
        count_name(s.drop_last(), name) + if s.last() == name {
            1nat
        } else {
            0nat
        }
    }
}

/// How often a block item uses `name`: as what a closure applies or an execution
/// runs, or as one of their arguments.
pub open spec fn item_uses(item: hir::BlockItem, name: Seq<char>) -> nat {
    match item {
        hir::BlockItem::ClosureDef(c) => (if c.of@ == name {
            1nat
        } else {
            0nat
        }) + count_name(names_view(c.args@), name),
        hir::BlockItem::Exec(e) => (if e.of@ == name {
            1nat
        } else {
            0nat
        }) + count_name(names_view(e.args@), name),
        _ => 0,
    }
}

pub open spec fn block_uses(items: Seq<hir::BlockItem>, name: Seq<char>) -> nat
    decreases items.len(),
{
    if items.len() == 0 {
        0
    } else {
        block_uses(items.drop_last(), name) + item_uses(items.last(), name)
    }
}

/// Each name's count has one entry, and counts stop at the largest `usize`.
pub open spec fn uses_counted(uses: Seq<(Seq<char>, usize)>, items: Seq<hir::BlockItem>) -> bool {
    &&& forall|i: int, j: int| 0 <= i < j < uses.len() ==> (#[trigger] uses[i]).0 != (#[trigger] uses[j]).0
    &&& forall|name: Seq<char>| #[trigger] crate::compiler::symbol::assoc_lookup(uses, name) == if block_uses(items, name)
        > 0 {
        Some(if block_uses(items, name) > usize::MAX { usize::MAX } else { block_uses(items, name) as usize })
    } else {
        None
    }
}

/// Counts one more use of `name`.
fn add_use(uses: &mut Vec<(String, usize)>, name: &String)
    requires
        forall|i: int, j: int| 0 <= i < j < old(uses)@.len() ==> (#[trigger] old(uses)@[i]).0@
            != (#[trigger] old(uses)@[j]).0@,
    ensures
        forall|i: int, j: int| 0 <= i < j < final(uses)@.len() ==> (#[trigger] final(uses)@[i]).0@
            != (#[trigger] final(uses)@[j]).0@,
        forall|k: Seq<char>| #[trigger] crate::compiler::symbol::assoc_lookup(use_views(final(uses)@), k) == if k == name@ {
            match crate::compiler::symbol::assoc_lookup(use_views(old(uses)@), k) {
                Some(c) => Some(if c < usize::MAX { (c + 1) as usize } else { c }),
                None => Some(1usize),
            }
        } else {
            crate::compiler::symbol::assoc_lookup(use_views(old(uses)@), k)
        },
{
    let ghost v = use_views(uses@);
    match find_use(uses, name.as_str()) {
        Some(i) => {
            let c = uses[i].1;
            let next: usize = if c < usize::MAX { c + 1 } else { c };
            let key = uses[i].0.clone();
            uses.set(i, (key, next));
            proof {
                assert(use_views(uses@) =~= v.update(i as int, (name@, next)));
                lemma_assoc_last(v, name@, i as int);
                assert forall|k: Seq<char>| #[trigger] crate::compiler::symbol::assoc_lookup(use_views(uses@), k) == if k
                    == name@ {
                    Some(next)
                } else {
                    crate::compiler::symbol::assoc_lookup(v, k)
                } by {
                    crate::compiler::symbol::lemma_assoc_update(v, i as int, name@, next, k);
                }
            }
        },
        None => {
            uses.push((name.clone(), 1));
            proof {
                assert(use_views(uses@).drop_last() =~= v);
                lemma_assoc_absent(v, name@);
            }
        },
    }
}

/// How many times each name is used in the block (see `uses_counted`).
pub fn count_block_uses(items: &Vec<hir::BlockItem>) -> (r: Vec<(String, usize)>)
    ensures
        uses_counted(use_views(r@), items@),
{
    let mut uses: Vec<(String, usize)> = Vec::new();
    let mut i: usize = 0;
    proof {
        assert(items@.take(0) =~= Seq::<hir::BlockItem>::empty());
    }
    while i < items.len()
        invariant
            i <= items@.len(),
            uses_counted(use_views(uses@), items@.take(i as int)),
            forall|a: int, b: int| 0 <= a < b < uses@.len() ==> (#[trigger] uses@[a]).0@ != (#[trigger] uses@[b]).0@,
        decreases items@.len() - i,
    {
        proof {
            assert(items@.take(i + 1).drop_last() =~= items@.take(i as int));
        }
        let ghost prefix = items@.take(i as int);
        let (of, args) = match &items[i] {
            hir::BlockItem::ClosureDef(c) => (Some(&c.of), Some(&c.args)),
            hir::BlockItem::Exec(e) => (Some(&e.of), Some(&e.args)),
            _ => (None, None),
        };
        match (of, args) {
            (Some(of), Some(args)) => {
                add_use(&mut uses, of);
                let mut j: usize = 0;
                proof {
                    assert(names_view(args@).take(0) =~= Seq::<Seq<char>>::empty());
                }
                while j < args.len()
                    invariant
                        j <= args@.len(),
                        forall|a: int, b: int| 0 <= a < b < uses@.len() ==> (#[trigger] uses@[a]).0@ != (#[trigger] uses@[b]).0@,
                        forall|k: Seq<char>| #[trigger] crate::compiler::symbol::assoc_lookup(use_views(uses@), k) == {
                            let n = block_uses(prefix, k) + (if of@ == k { 1nat } else { 0nat }) + count_name(
                                names_view(args@).take(j as int),
                                k,
                            );
                            if n > 0 {
                                Some(if n > usize::MAX { usize::MAX } else { n as usize })
                            } else {
                                None
                            }
                        },
                    decreases args@.len() - j,
                {
                    proof {
                        assert(names_view(args@).take(j + 1).drop_last() =~= names_view(args@).take(j as int));
                    }
                    add_use(&mut uses, &args[j]);
                    j = j + 1;
                }
                proof {
                    assert(names_view(args@).take(args@.len() as int) =~= names_view(args@));
                }
            },
            _ => {},
        }
        proof {
            assert forall|a: int, b: int| 0 <= a < b < use_views(uses@).len() implies (#[trigger] use_views(uses@)[a]).0
                != (#[trigger] use_views(uses@)[b]).0 by {
                assert(use_views(uses@)[a].0 == uses@[a].0@);
                assert(use_views(uses@)[b].0 == uses@[b].0@);
            }
        }
        i = i + 1;
    }
    proof {
        assert(items@.take(items@.len() as int) =~= items@);
    }
    uses
}

// ---------------------------------------------------------------------------
// Closure parameters that are never used
// ---------------------------------------------------------------------------

/// The names of the closure-valued parameters, in order.
pub open spec fn sig_param_names(params: Seq<ItemView>) -> Seq<Seq<char>>
    decreases params.len(),
{
    if params.len() == 0 {
        seq![]
    } else {
        sig_param_names(params.drop_last()) + if params.last().kind is Sig {
            seq![params.last().name]
        } else {
            seq![]
        }
    }
}

/// The closure-valued parameters, which must be released unless they are used.
pub fn collect_unused_param_refs(params: &Vec<SigItem>) -> (r: Vec<String>)
    ensures
        names_view(r@) == sig_param_names(items_view(params@)),
{
    let ghost ps = items_view(params@);
    let mut out: Vec<String> = Vec::new();
    let mut i: usize = 0;
    proof {
        assert(ps.take(0) =~= Seq::<ItemView>::empty());
    }
    while i < params.len()
        invariant
            i <= params@.len(),
            ps == items_view(params@),
            names_view(out@) == sig_param_names(ps.take(i as int)),
        decreases params@.len() - i,
    {
        proof {
            assert(ps.take(i + 1).drop_last() =~= ps.take(i as int));
            assert(ps[i as int] == params@[i as int]@);
        }
        let ghost before = names_view(out@);
        if let SigKind::Sig(_) = &params[i].kind {
            out.push(params[i].name.clone());
            proof {
                assert(names_view(out@) =~= before.push(params@[i as int].name@));
            }
        }
        proof {
            assert(names_view(out@) =~= sig_param_names(ps.take(i + 1)));
        }
        i = i + 1;
    }
    proof {
        assert(ps.take(params@.len() as int) =~= ps);
    }
    out
}

/// A closure that control goes to counts as used.
pub fn mark_target(unused: &mut Vec<String>, target: &AirExecTarget)
    ensures
        names_view(final(unused)@) == match target {
            AirExecTarget::Closure { name } => crate::compiler::codegen::without_name(names_view(old(unused)@), name@),
            AirExecTarget::Function(_) => names_view(old(unused)@),
        },
{
    if let AirExecTarget::Closure { name } = target {
        remove_name(unused, name.as_str());
    }
}

/// Every argument counts as used.
pub fn mark_args(unused: &mut Vec<String>, args: &Vec<AirArg>)
    ensures
        forall|x: Seq<char>| names_view(final(unused)@).contains(x) <==> names_view(old(unused)@).contains(x) && !(
        exists|i: int| 0 <= i < args@.len() && (#[trigger] args@[i]).name@ == x),
{
    let mut i: usize = 0;
    while i < args.len()
        invariant
            i <= args@.len(),
            forall|x: Seq<char>| names_view(unused@).contains(x) <==> names_view(old(unused)@).contains(x) && !(
            exists|k: int| 0 <= k < i && (#[trigger] args@[k]).name@ == x),
        decreases args@.len() - i,
    {
        let ghost before = names_view(unused@);
        remove_name(unused, args[i].name.as_str());
        proof {
            reveal(Seq::filter);
            assert forall|x: Seq<char>| names_view(unused@).contains(x) <==> before.contains(x) && x != args@[i as int].name@ by {
                broadcast use vstd::seq_lib::group_filter_ensures;
                let p = |y: Seq<char>| y != args@[i as int].name@;
                if names_view(unused@).contains(x) {
                    let k = choose|k: int| 0 <= k < before.filter(p).len() && before.filter(p)[k] == x;
                    before.lemma_filter_pred(p, k);
                    before.lemma_filter_contains_rev(p, x);
                }
                if before.contains(x) && x != args@[i as int].name@ {
                    let k = choose|k: int| 0 <= k < before.len() && before[k] == x;
                    before.lemma_filter_contains(p, k);
                }
            }
        }
        i = i + 1;
    }
}

/// Releases of the closure parameters still unused, in name order, each once; none
/// are left unused afterwards.
pub fn take_release_statements(unused: &mut Vec<String>) -> (r: Vec<AirStmt>)
    ensures
        final(unused)@.len() == 0,
        ({
            let names = crate::name_set::sorted_set_of(names_view(old(unused)@));
            &&& r@.len() == names.len()
            &&& forall|i: int| 0 <= i < names.len() ==> #[trigger] is_release(r@[i], names[i])
        }),
{
    let names = sorted_set_from(unused);
    *unused = Vec::new();
    let mut out: Vec<AirStmt> = Vec::new();
    let mut i: usize = 0;
    while i < names.len()
        invariant
            i <= names@.len(),
            out@.len() == i,
            forall|k: int| 0 <= k < i ==> #[trigger] is_release(out@[k], names@[k]@),
        decreases names@.len() - i,
    {
        out.push(AirStmt::Op(Box::new(AirOp::ReleaseHeap(AirReleaseHeap { name: names[i].clone() }))));
        i = i + 1;
    }
    proof {
        assert forall|k: int| 0 <= k < names@.len() implies #[trigger] is_release(out@[k], names_view(names@)[k]) by {
            assert(names_view(names@)[k] == names@[k]@);
        }
    }
    out
}

// ---------------------------------------------------------------------------
// Arguments of a jump
// ---------------------------------------------------------------------------

/// The kinds that arguments get at a target: matched against the parameters of a
/// function (see `consumed_kinds`), integers for a closure.
pub open spec fn arg_kinds_at(target: AirExecTarget, n: int) -> Seq<KindView> {
    match target {
        AirExecTarget::Function(sig) => crate::compiler::air::consumed_kinds(
            sig@.params.map_values(|p: ItemView| p.kind),
            n,
            0,
            0,
        ),
        AirExecTarget::Closure { .. } => crate::compiler::air::int_kinds(n),
    }
}

/// The arguments `args` at `target`, with the kinds they get there and their literal
/// values.
pub fn extract_closure_sig_info(target: &AirExecTarget, args: &Vec<String>, literals: &Vec<(String, Lit)>) -> (r: Vec<AirArg>)
    ensures
        r@.len() == args@.len(),
        forall|i: int| 0 <= i < args@.len() ==> (#[trigger] r@[i])@ == (ArgView {
            name: args@[i]@,
            kind: arg_kinds_at(*target, args@.len() as int)[i],
            literal: crate::compiler::symbol::assoc_lookup(crate::compiler::air::literal_views(literals@), args@[i]@),
        }),
{
    match target {
        AirExecTarget::Function(sig) => {
            proof {
                assert(items_view(sig.params@) == sig@.params);
            }
            crate::compiler::air::consume_signature_for_args(&sig.params, args, literals)
        },
        AirExecTarget::Closure { .. } => {
            let mut out: Vec<AirArg> = Vec::new();
            let mut i: usize = 0;
            while i < args.len()
                invariant
                    i <= args@.len(),
                    out@.len() == i,
                    forall|k: int| 0 <= k < i ==> (#[trigger] out@[k])@ == (ArgView {
                        name: args@[k]@,
                        kind: KindView::Int,
                        literal: crate::compiler::symbol::assoc_lookup(crate::compiler::air::literal_views(literals@), args@[k]@),
                    }),
                decreases args@.len() - i,
            {
                let literal = literal_for_arg(args[i].as_str(), literals);
                out.push(AirArg { name: args[i].clone(), kind: SigKind::Int, literal });
                i = i + 1;
            }
            out
        },
    }
}

/// A copy of the argument, with the same view.
fn clone_arg(a: &AirArg) -> (r: AirArg)
    ensures
        r@ == a@,
{
    let literal = match &a.literal {
        Some(l) => Some(clone_lit(l)),
        None => None,
    };
    AirArg { name: a.name.clone(), kind: clone_kind(&a.kind), literal }
}

/// Whether the arguments fit the builtin (see `builtin_statements_pre`).
fn builtin_args_fit(b: Builtin, args: &Vec<AirArg>) -> (r: bool)
    ensures
        r == builtin_statements_pre(b, args@),
{
    let n = args.len();
    let conditional = b.is_conditional();
    if conditional {
        return n >= 2;
    }
    if b.is_call() {
        return n >= 1;
    }
    if !b.is_instruction() {
        return true;
    }
    if n < 1 {
        return false;
    }
    if matches!(b, Builtin::Div) && n < 4 {
        return false;
    }
    let binary = matches!(
        b,
        Builtin::Add | Builtin::Sub | Builtin::Mul | Builtin::AddF64 | Builtin::MulF64 | Builtin::DivF64 | Builtin::Lt
            | Builtin::Gt
    );
    if binary && n < 3 {
        return false;
    }
    if matches!(b, Builtin::Lt | Builtin::Gt) {
        let first_str = matches!(args[0].literal, Some(Lit::Str(_)));
        let second_str = matches!(args[1].literal, Some(Lit::Str(_)));
        return !first_str && !second_str;
    }
    true
}

fn malformed_builtin(b: Builtin) -> (e: Error)
    ensures
        e.code == Code::Internal,
{
    let m = concat("malformed builtin invocation '", b.name());
    let mut m = m;
    push_str(&mut m, "'");
    Error::new(Code::Internal, m, Span::unknown())
}

/// A call builtin executed with `args`: the continuation (the last argument, when the
/// last parameter is a closure) counts as used, the closure parameters still unused are
/// released, and the call follows (see `call_op`).
pub fn lower_builtin_call(sig: &FunctionSig, builtin: Builtin, args: Vec<AirArg>, unused_params: &mut Vec<String>) -> (r: Result<
    Vec<AirStmt>,
    Error,
>)
    requires
        is_call_builtin(builtin),
    ensures
        args@.len() == 0 <==> r is Err,
        r matches Ok(stmts) ==> {
            let unused = if sig.params@.len() > 0 && sig.params@.last().kind@ is Sig {
                crate::compiler::codegen::without_name(names_view(old(unused_params)@), args@.last().name@)
            } else {
                names_view(old(unused_params)@)
            };
            let names = crate::name_set::sorted_set_of(unused);
            &&& stmts@.len() == names.len() + 1
            &&& forall|i: int| 0 <= i < names.len() ==> #[trigger] is_release(stmts@[i], names[i])
            &&& stmts@.last() matches AirStmt::Op(op) && crate::compiler::air::call_op_ok(builtin, args@, *op)
            &&& final(unused_params)@.len() == 0
        },
{
    if args.len() == 0 {
        let m = "builtin invocation requires a continuation target".to_string();
        return Err(Error::new(Code::Internal, m, Span::unknown()));
    }
    let np = sig.params.len();
    if np > 0 {
        if let SigKind::Sig(_) = &sig.params[np - 1].kind {
            remove_name(unused_params, args[args.len() - 1].name.as_str());
        }
    }
    let mut stmts = take_release_statements(unused_params);
    let ghost releases = stmts@;
    stmts.push(AirStmt::Op(Box::new(call_op(builtin, args))));
    proof {
        assert(stmts@.drop_last() == releases);
    }
    Ok(stmts)
}

// ---------------------------------------------------------------------------
// Lowering functions on demand
// ---------------------------------------------------------------------------

/// A function whose body holds only what a function body can: no imports or type
/// definitions.
pub open spec fn lowerable(f: hir::Function) -> bool {
    forall|i: int| 0 <= i < f.body.items@.len() ==> !(#[trigger] f.body.items@[i] is Import) && !(
    f.body.items@[i] is SigDef)
}

/// Whether a lowered function holds only what a function body can.
pub(crate) fn is_lowerable(f: &hir::Function) -> (r: bool)
    ensures
        r == lowerable(*f),
{
    let mut i: usize = 0;
    while i < f.body.items.len()
        invariant
            i <= f.body.items@.len(),
            forall|j: int| 0 <= j < i ==> !(#[trigger] f.body.items@[j] is Import) && !(f.body.items@[j] is SigDef),
        decreases f.body.items@.len() - i,
    {
        match &f.body.items[i] {
            hir::BlockItem::Import { .. } | hir::BlockItem::SigDef { .. } => { return false; },
            _ => {},
        }
        i = i + 1;
    }
    true
}

/// The functions still to lower, by name; each is lowered at most once, when something
/// refers to it.
pub struct FunctionLowerer {
    pub pending: Vec<(String, hir::Function)>,
    pub lowered: Vec<String>,
    pub in_progress: Vec<String>,
    pub generated: Vec<AirFunction>,
}

impl FunctionLowerer {
    /// Whether the function `name` is lowered already or being lowered.
    #[verifier::opaque]
    pub open spec fn started(&self, name: Seq<char>) -> bool {
        names_view(self.lowered@).contains(name) || names_view(self.in_progress@).contains(name)
    }

    /// Whether a function `name` waits to be lowered.
    #[verifier::opaque]
    pub open spec fn has_pending(&self, name: Seq<char>) -> bool {
        exists|k: int| 0 <= k < self.pending@.len() && (#[trigger] self.pending@[k]).0@ == name
    }

    pub fn new(functions: Vec<(String, hir::Function)>) -> (r: Self)
        ensures
            r.pending == functions,
            r.lowered@.len() == 0,
            r.in_progress@.len() == 0,
            r.generated@.len() == 0,
    {
        FunctionLowerer { pending: functions, lowered: Vec::new(), in_progress: Vec::new(), generated: Vec::new() }
    }

    /// Lowers the pending function `name`, unless it is lowered already or being
    /// lowered; the functions that lowering makes are kept. A function whose body holds
    /// an import or a type definition cannot be lowered: reaching one is an internal
    /// error.
    pub fn ensure(&mut self, name: &str, symbols: &mut SymbolRegistry) -> (r: Result<(), Error>)
        ensures
            final(self).pending@.len() <= old(self).pending@.len(),
            old(self).started(name@) ==> r is Ok && *final(self) == *old(self) && *final(symbols) == *old(symbols),
            !old(self).started(name@) && !old(self).has_pending(name@) ==> r is Ok && *final(self) == *old(self)
                && *final(symbols) == *old(symbols),
            r is Ok && !old(self).started(name@) && old(self).has_pending(name@) ==> names_view(final(self).lowered@).contains(name@),
        decreases old(self).pending@.len(), 0nat,
    {
        reveal(FunctionLowerer::started);
        reveal(FunctionLowerer::has_pending);
        if contains_name(&self.lowered, name) || contains_name(&self.in_progress, name) {
            return Ok(());
        }
        let mut found: Option<usize> = None;
        let mut i: usize = self.pending.len();
        while i > 0 && found.is_none()
            invariant
                i <= self.pending@.len(),
                found matches Some(k) ==> k < self.pending@.len() && self.pending@[k as int].0@ == name@,
                found is None ==> forall|k: int| i <= k < self.pending@.len() ==> (#[trigger] self.pending@[k]).0@ != name@,
            decreases i,
        {
            if crate::text::str_eq(self.pending[i - 1].0.as_str(), name) {
                found = Some(i - 1);
            }
            i = i - 1;
        }
        let idx = match found {
            Some(k) => k,
            None => {
                proof {
                    assert(!self.has_pending(name@));
                }
                return Ok(());
            },
        };
        let ghost before = self.pending@;
        let (_, function) = self.pending.remove(idx);
        if !is_lowerable(&function) {
            return Err(error_from_str(Code::Internal, "a function body holds a declaration", Span::unknown()));
        }
        self.in_progress.push(name.to_string());
        let lowered = lower_function(&function, symbols, self);
        remove_name(&mut self.in_progress, name);
        match lowered {
            Ok(functions) => {
                self.lowered.push(name.to_string());
                proof {
                    assert(names_view(self.lowered@)[names_view(self.lowered@).len() - 1] == name@);
                }
                let mut functions = functions;
                self.generated.append(&mut functions);
                Ok(())
            },
            Err(e) => Err(e),
        }
    }

    pub fn take_generated_functions(self) -> (r: Vec<AirFunction>)
        ensures
            r == self.generated,
    {
        self.generated
    }
}

/// The builtin that `name` imports, where `name` is no declared function and the
/// builtin becomes one machine operation that continues at its last argument (not an
/// equality test).
pub open spec fn instruction_target(symbols: &SymbolRegistry, name: Seq<char>) -> Option<Builtin> {
    if crate::compiler::symbol::function_lookup(symbols.function_table(), name) is Some {
        None
    } else {
        match crate::compiler::symbol::assoc_lookup(symbols.import_table(), name) {
            Some(bn) => match crate::compiler::builtins::builtin_named(bn) {
                Some(b) => if crate::compiler::air::is_instruction_builtin(b) && !(b is Eq || b is Eqi || b is Eqs) {
                    Some(b)
                } else {
                    None
                },
                None => None,
            },
            None => None,
        }
    }
}

/// Whether the arguments `a` are named `names`, in order.
pub open spec fn arg_names_are(a: Seq<AirArg>, names: Seq<String>) -> bool {
    a.len() == names.len() && forall|i: int| 0 <= i < a.len() ==> (#[trigger] a[i]).name@ == names[i]@
}

/// Whether `name` is a declared function or the alias of an imported builtin.
pub open spec fn names_a_callee(symbols: &SymbolRegistry, name: Seq<char>) -> bool {
    crate::compiler::symbol::function_lookup(symbols.function_table(), name) is Some
        || crate::compiler::symbol::assoc_lookup(symbols.import_table(), name) is Some
}

/// Whether every name of `args` is bound to a local of `locals`.
pub open spec fn all_local(locals: Seq<String>, args: Seq<String>) -> bool {
    forall|i: int| 0 <= i < args.len() ==> names_view(locals).contains(#[trigger] args[i]@)
}

/// Whether `name` is the name of a parameter of `func`.
pub open spec fn param_named(func: hir::Function, name: Seq<char>) -> bool {
    exists|p: int| 0 <= p < func.sig.items@.len() && #[trigger] func.sig.items@[p].name@ == name
}

/// Whether each item of the body of `func` is a declaration, a literal, or a transfer
/// of control to one of its parameters with parameters as the arguments.
pub open spec fn calls_own_params(func: hir::Function) -> bool {
    forall|k: int|
        0 <= k < func.body.items@.len() ==> quiet_item(#[trigger] func.body.items@[k]) || (func.body.items@[k] matches hir::BlockItem::Exec(
        e) && param_named(func, e.of@) && forall|j: int| 0 <= j < e.args@.len() ==> param_named(func, #[trigger] e.args@[j]@))
}

/// A block item whose lowering records it without any statement or outside work: a
/// declaration or a literal.
pub open spec fn quiet_item(item: hir::BlockItem) -> bool {
    item is Import || item is FunctionDef || item is SigDef || item is LitDef
}

/// A closure value for the name `target` with nothing applied: a declared function
/// (lowered first) or an imported builtin; `None` for any other name.
fn create_closure(target: &str, symbols: &mut SymbolRegistry, lowerer: &mut FunctionLowerer) -> (r: Result<
    Option<AirNewClosure>,
    Error,
>)
    ensures
        final(lowerer).pending@.len() <= old(lowerer).pending@.len(),
        r matches Ok(Some(c)) ==> c.name@ == target@ && c.args@.len() == 0,
        names_a_callee(old(symbols), target@) ==> !(r matches Ok(None)),
        !names_a_callee(old(symbols), target@) ==> (r matches Ok(None) && *final(lowerer) == *old(lowerer)
            && *final(symbols) == *old(symbols)),
        crate::compiler::symbol::function_lookup(old(symbols).function_table(), target@) matches Some(f) ==> ((
        old(lowerer).started(target@) || !old(lowerer).has_pending(target@)) ==> (r matches Ok(Some(c))
            && c.target@ == f)),
    decreases old(lowerer).pending@.len(), 1nat,
{
    let found = match symbols.get_function(target) {
        Some(sig) => Some(clone_function_sig(sig)),
        None => None,
    };
    if let Some(orig_sig) = found {
        lowerer.ensure(target, symbols)?;
        return Ok(Some(AirNewClosure { target: orig_sig, args: Vec::new(), name: target.to_string() }));
    }
    let alias = match symbols.builtin_name_for_alias(target) {
        Some(n) => Some(n.clone()),
        None => None,
    };
    if let Some(builtin_name) = alias {
        let builtin_sig = builtin_function_sig(builtin_name.as_str(), Span::unknown())?;
        return Ok(Some(AirNewClosure { target: builtin_sig, args: Vec::new(), name: target.to_string() }));
    }
    Ok(None)
}

/// Makes a closure value for each argument that is not bound locally but names a
/// function or builtin; it becomes a local, expecting that target's parameters.
fn prepare_args(
    ctx: &mut AirLowerContext,
    args: &Vec<String>,
    statements: &mut Vec<AirStmt>,
    symbols: &mut SymbolRegistry,
    lowerer: &mut FunctionLowerer,
) -> (r: Result<(), Error>)
    ensures
        final(lowerer).pending@.len() <= old(lowerer).pending@.len(),
        old(statements)@.len() <= final(statements)@.len(),
        final(statements)@.subrange(0, old(statements)@.len() as int) == old(statements)@,
        forall|k: int|
            old(statements)@.len() <= k < final(statements)@.len() ==> (#[trigger] final(statements)@[k] matches AirStmt::Op(
            op) && *op is NewClosure),
        all_local(old(ctx).locals@, args@) ==> (r is Ok && *final(ctx) == *old(ctx) && final(statements)@
            == old(statements)@ && *final(lowerer) == *old(lowerer) && *final(symbols) == *old(symbols)),
    decreases old(lowerer).pending@.len(), 2nat,
{
    let mut i: usize = 0;
    while i < args.len()
        invariant
            lowerer.pending@.len() <= old(lowerer).pending@.len(),
            old(statements)@.len() <= statements@.len(),
            statements@.subrange(0, old(statements)@.len() as int) == old(statements)@,
            forall|k: int|
                old(statements)@.len() <= k < statements@.len() ==> (#[trigger] statements@[k] matches AirStmt::Op(
                op) && *op is NewClosure),
            all_local(old(ctx).locals@, args@) ==> (*ctx == *old(ctx) && statements@ == old(statements)@
                && *lowerer == *old(lowerer) && *symbols == *old(symbols)),
        decreases args@.len() - i,
    {
        if !contains_name(&ctx.locals, args[i].as_str()) {
            let made = create_closure(args[i].as_str(), symbols, lowerer);
            match made {
                Ok(Some(closure)) => {
                    let name = closure.name.clone();
                    let remaining = closure.target.param_kinds();
                    let ghost before = statements@;
                    statements.push(AirStmt::Op(Box::new(AirOp::NewClosure(closure))));
                    proof {
                        assert(statements@.subrange(0, old(statements)@.len() as int) =~= before.subrange(
                            0,
                            old(statements)@.len() as int,
                        ));
                    }
                    ctx.locals.push(name.clone());
                    if remaining.len() > 0 {
                        ctx.closure_remaining.push((name, remaining));
                    }
                },
                Ok(None) => {},
                Err(e) => {
                    return Err(e);
                },
            }
        }
        i = i + 1;
    }
    Ok(())
}

/// The statements that prepare the arguments, what control goes to (a local closure,
/// else a function, builtin or closure by name), and the arguments with their kinds
/// there. A function target is lowered first.
fn ensure_target(
    ctx: &mut AirLowerContext,
    args: &Vec<String>,
    target_name: &str,
    symbols: &mut SymbolRegistry,
    lowerer: &mut FunctionLowerer,
) -> (r: Result<(Vec<AirStmt>, AirExecTarget, Vec<AirArg>), Error>)
    ensures
        final(lowerer).pending@.len() <= old(lowerer).pending@.len(),
        r matches Ok((_, _, a)) ==> a@.len() == args@.len(),
        r matches Ok((_, _, a)) ==> forall|i: int| 0 <= i < args@.len() ==> (#[trigger] a@[i]).name@ == args@[i]@,
        all_local(old(ctx).locals@, args@) && !names_view(old(ctx).locals@).contains(target_name@) ==> match instruction_target(
            &*old(symbols),
            target_name@,
        ) {
            Some(b) => r matches Ok((_, t, _)) ==> (t matches AirExecTarget::Function(sig) && sig.builtin == Some(b)),
            None => true,
        },
        all_local(old(ctx).locals@, args@) && names_view(old(ctx).locals@).contains(target_name@) ==> (r matches Ok(
        (s, t, _)) && s@.len() == 0 && (t matches AirExecTarget::Closure { name } && name@ == target_name@)
            && *final(ctx) == *old(ctx)),
        all_local(old(ctx).locals@, args@) && !names_view(old(ctx).locals@).contains(target_name@)
            && crate::compiler::symbol::function_lookup(old(symbols).function_table(), target_name@) is Some && (old(
        lowerer).started(target_name@) || !old(lowerer).has_pending(target_name@)) ==> (r matches Ok((s, t, _))
            && s@.len() == 0 && (t matches AirExecTarget::Function(sig) && Some(sig@)
            == crate::compiler::symbol::function_lookup(old(symbols).function_table(), target_name@))),
    decreases old(lowerer).pending@.len(), 3nat,
{
    let mut block_items: Vec<AirStmt> = Vec::new();
    prepare_args(ctx, args, &mut block_items, symbols, lowerer)?;
    let target = if contains_name(&ctx.locals, target_name) {
        AirExecTarget::Closure { name: target_name.to_string() }
    } else {
        resolve_target(target_name, symbols)?
    };
    let lowered_args = extract_closure_sig_info(&target, args, &ctx.literals);
    proof {
        crate::compiler::symbol::lemma_function_lookup_name(symbols.function_table(), target_name@);
    }
    if let AirExecTarget::Function(sig) = &target {
        lowerer.ensure(sig.name.as_str(), symbols)?;
    }
    Ok((block_items, target, lowered_args))
}

/// A new closure value: `closure.of` with its arguments applied.
fn lower_new_closure(
    closure: &hir::Closure,
    ctx: &mut AirLowerContext,
    symbols: &mut SymbolRegistry,
    lowerer: &mut FunctionLowerer,
) -> (r: Result<Vec<AirStmt>, Error>)
    ensures
        final(lowerer).pending@.len() <= old(lowerer).pending@.len(),
        r matches Ok(stmts) ==> stmts@.len() >= 1 && (stmts@.last() matches AirStmt::Op(op) && (*op matches AirOp::NewClosure(
            c,
        ) && c.name@ == closure.name@ && c.args@.len() == closure.args@.len())),
        all_local(old(ctx).locals@, closure.args@) && !names_view(old(ctx).locals@).contains(closure.of@)
            && crate::compiler::symbol::function_lookup(old(symbols).function_table(), closure.of@) is Some && (old(
        lowerer).started(closure.of@) || !old(lowerer).has_pending(closure.of@)) ==> r is Ok,
        all_local(old(ctx).locals@, closure.args@) && names_view(old(ctx).locals@).contains(closure.of@) ==> (r matches Err(
        e) && e.code == Code::Internal && e.message@ == "expected function target when creating new closure"@),
    decreases old(lowerer).pending@.len(), 4nat,
{
    ctx.count_remaining_use(closure.of.as_str());
    let mut k: usize = 0;
    while k < closure.args.len()
        invariant
            ctx.locals == old(ctx).locals,
        decreases closure.args@.len() - k,
    {
        ctx.count_remaining_use(closure.args[k].as_str());
        k = k + 1;
    }
    let (mut block_items, target, args) = ensure_target(ctx, &closure.args, closure.of.as_str(), symbols, lowerer)?;
    ctx.locals.push(closure.name.clone());
    mark_target(&mut ctx.unused_params, &target);
    mark_args(&mut ctx.unused_params, &args);
    let new_remaining = closure_remaining_after_applying(&ctx.closure_remaining, &target, args.len());
    let target_sig = match target {
        AirExecTarget::Function(sig) => sig,
        _ => {
            let m = "expected function target when creating new closure".to_string();
            return Err(Error::new(Code::Internal, m, Span::unknown()));
        },
    };
    block_items.push(AirStmt::Op(Box::new(AirOp::NewClosure(AirNewClosure {
        name: closure.name.clone(),
        target: target_sig,
        args,
    }))));
    if let Some(remaining) = new_remaining {
        ctx.closure_remaining.push((closure.name.clone(), remaining));
    }
    Ok(block_items)
}

fn missing_signature(name: &str) -> (e: Error)
    ensures
        e.code == Code::Internal,
        e.message@ == "missing closure signature for '"@ + name@ + "'"@,
{
    let mut m = concat("missing closure signature for '", name);
    push_str(&mut m, "'");
    Error::new(Code::Internal, m, Span::unknown())
}

fn clone_kinds(v: &Vec<SigKind>) -> (r: Vec<SigKind>)
    ensures
        kinds_view(r@) == kinds_view(v@),
{
    let mut out: Vec<SigKind> = Vec::new();
    let mut i: usize = 0;
    while i < v.len()
        invariant
            i <= v@.len(),
            out@.len() == i,
            forall|k: int| 0 <= k < i ==> (#[trigger] out@[k])@ == v@[k]@,
        decreases v@.len() - i,
    {
        out.push(clone_kind(&v[i]));
        i = i + 1;
    }
    proof {
        assert(kinds_view(out@) =~= kinds_view(v@));
    }
    out
}

/// `__{name}{suffix}`.
fn closure_binding(name: &str, suffix: &str) -> (r: String)
    ensures
        r@ == "__"@ + name@ + suffix@,
{
    let mut s = concat("__", name);
    push_str(&mut s, suffix);
    s
}

pub open spec fn env_end_binding(name: Seq<char>) -> Seq<char> {
    "__"@ + name + "_env_end"@
}

pub open spec fn arg_clone_binding(name: Seq<char>, idx: nat) -> Seq<char> {
    "__"@ + name + "_arg_clone_"@ + decimal_text(idx)
}

pub open spec fn num_remaining_binding(name: Seq<char>) -> Seq<char> {
    "__"@ + name + "_num_remaining_value"@
}

pub open spec fn min_int(a: int, b: int) -> int {
    if a < b {
        a
    } else {
        b
    }
}

/// What currying a local closure ends with: after a copy of the closure `of` into
/// `name` (and copies of closure arguments used again later), the end of the copy's
/// environment is pinned, each applied argument is stored in its word (counted back
/// from the end), and the count of words still unfilled is stored in the metadata.
pub open spec fn curry_ok(name: Seq<char>, of: Seq<char>, args: Seq<Seq<char>>, existing: Seq<KindView>, stmts: Seq<AirStmt>) -> bool {
    let applied = min_int(args.len() as int, existing.len() as int);
    let l = stmts.len() as int;
    let pin_at = l - applied - 2;
    &&& pin_at >= 1
    &&& exists|k: int| 0 <= k < pin_at && #[trigger] is_clone_closure(stmts[k], of, name, existing)
    &&& is_pin(stmts[pin_at], env_end_binding(name), name)
    &&& forall|j: int| 0 <= j < applied ==> {
        &&& #[trigger] is_set_field(stmts[pin_at + 1 + j], env_end_binding(name), -min_int(existing.len() - j, isize::MAX as int))
        &&& set_value(stmts[pin_at + 1 + j]).kind == existing[j]
        &&& (set_value(stmts[pin_at + 1 + j]).name == args[j] || set_value(stmts[pin_at + 1 + j]).name == arg_clone_binding(name, j as nat))
    }
    &&& is_set_field(stmts[l - 1], env_end_binding(name), 5)
    &&& set_value(stmts[l - 1]) == (ArgView {
        name: num_remaining_binding(name),
        kind: KindView::Int,
        literal: Some(crate::compiler::hir_ast::LitView::Int(min_int(existing.len() - applied, i64::MAX as int) as i64)),
    })
}

/// Whether every argument that fills a parameter of function type in `existing` has
/// its remaining parameter kinds recorded in `remaining`.
pub open spec fn closure_args_recorded(
    args: Seq<String>,
    existing: Seq<KindView>,
    remaining: Seq<(String, Vec<SigKind>)>,
) -> bool {
    forall|j: int|
        0 <= j < args.len() && j < existing.len() && #[trigger] existing[j] is Sig ==> crate::compiler::symbol::assoc_lookup(
            crate::compiler::air::remaining_views(remaining),
            args[j]@,
        ) is Some
}

/// Applying more arguments to the local closure `closure.of` (see `curry_ok`); the
/// copy expects the parameters that are left. A closure without recorded parameter
/// kinds is an error; so is a function-typed argument without them. When the target
/// and the arguments are locals, nothing else fails.
#[verifier::spinoff_prover]
#[verifier::rlimit(100)]
fn lower_closure_curry(
    closure: &hir::Closure,
    ctx: &mut AirLowerContext,
    symbols: &mut SymbolRegistry,
    lowerer: &mut FunctionLowerer,
) -> (r: Result<Vec<AirStmt>, Error>)
    ensures
        final(lowerer).pending@.len() <= old(lowerer).pending@.len(),
        match crate::compiler::symbol::assoc_lookup(crate::compiler::air::remaining_views(old(ctx).closure_remaining@), closure.of@) {
            None => r matches Err(e) && e.code == Code::Internal && e.message@ == "missing closure signature for '"@ + closure.of@
                + "'"@,
            Some(existing) => r matches Ok(stmts) ==> curry_ok(closure.name@, closure.of@, names_view(closure.args@), existing, stmts@)
                && crate::compiler::symbol::assoc_lookup(crate::compiler::air::remaining_views(final(ctx).closure_remaining@), closure.name@)
                == Some(existing.skip(min_int(closure.args@.len() as int, existing.len() as int))),
        },
        match crate::compiler::symbol::assoc_lookup(crate::compiler::air::remaining_views(old(ctx).closure_remaining@), closure.of@) {
            None => true,
            Some(existing) => all_local(old(ctx).locals@, closure.args@) && names_view(old(ctx).locals@).contains(
                closure.of@,
            ) && closure_args_recorded(closure.args@, existing, old(ctx).closure_remaining@) ==> r is Ok,
        },
    decreases old(lowerer).pending@.len(), 4nat,
{
    let existing = match find_remaining(&ctx.closure_remaining, closure.of.as_str()) {
        Some(k) => clone_kinds(&ctx.closure_remaining[k].1),
        None => {
            return Err(missing_signature(closure.of.as_str()));
        },
    };
    let ghost ex = kinds_view(existing@);
    proof {
        assert(crate::compiler::symbol::assoc_lookup(crate::compiler::air::remaining_views(old(ctx).closure_remaining@), closure.of@)
            == Some(ex));
    }
    let ghost local_call = all_local(old(ctx).locals@, closure.args@) && names_view(old(ctx).locals@).contains(
        closure.of@,
    ) && closure_args_recorded(closure.args@, ex, old(ctx).closure_remaining@);
    let (mut block_items, _target, _args) = ensure_target(ctx, &closure.args, closure.of.as_str(), symbols, lowerer)?;
    let n_args = closure.args.len();
    let applied = if n_args < existing.len() { n_args } else { existing.len() };
    let mut args: Vec<AirArg> = Vec::new();
    let mut i: usize = 0;
    while i < n_args
        invariant
            i <= n_args,
            n_args == closure.args@.len(),
            ex == kinds_view(existing@),
            args@.len() == i,
            forall|k: int| 0 <= k < i ==> (#[trigger] args@[k]).name@ == closure.args@[k]@,
            forall|k: int| 0 <= k < i && k < existing@.len() ==> (#[trigger] args@[k]).kind@ == ex[k],
            forall|k: int| 0 <= k < i && k >= existing@.len() ==> (#[trigger] args@[k]).kind@ == KindView::Int,
        decreases n_args - i,
    {
        let kind = if i < existing.len() { clone_kind(&existing[i]) } else { SigKind::Int };
        let literal = literal_for_arg(closure.args[i].as_str(), &ctx.literals);
        args.push(AirArg { name: closure.args[i].clone(), kind, literal });
        i = i + 1;
    }
    remove_name(&mut ctx.unused_params, closure.of.as_str());
    mark_args(&mut ctx.unused_params, &args);
    ctx.locals.push(closure.name.clone());
    let ghost prefix_len = block_items@.len();
    block_items.push(AirStmt::Op(Box::new(AirOp::CloneClosure(AirCloneClosure {
        src: closure.of.clone(),
        dst: closure.name.clone(),
        remaining: clone_kinds(&existing),
    }))));
    let mut stored_args: Vec<AirArg> = Vec::new();
    let mut idx: usize = 0;
    while idx < args.len()
        invariant
            idx <= args@.len(),
            args@.len() == n_args,
            n_args == closure.args@.len(),
            ex == kinds_view(existing@),
            stored_args@.len() == idx,
            lowerer.pending@.len() <= old(lowerer).pending@.len(),
            block_items@.len() >= prefix_len + 1,
            crate::compiler::symbol::assoc_lookup(crate::compiler::air::remaining_views(old(ctx).closure_remaining@), closure.of@)
                == Some(ex),
            is_clone_closure(block_items@[prefix_len as int], closure.of@, closure.name@, ex),
            forall|k: int| 0 <= k < args@.len() ==> (#[trigger] args@[k]).name@ == closure.args@[k]@,
            forall|k: int| 0 <= k < args@.len() && k < existing@.len() ==> (#[trigger] args@[k]).kind@ == ex[k],
            forall|k: int| 0 <= k < idx ==> (#[trigger] stored_args@[k])@.kind == args@[k]@.kind && (stored_args@[k]@.name
                == args@[k]@.name || stored_args@[k]@.name == arg_clone_binding(closure.name@, k as nat)),
            forall|k: int| 0 <= k < args@.len() && k >= existing@.len() ==> (#[trigger] args@[k]).kind@ == KindView::Int,
            local_call == (all_local(old(ctx).locals@, closure.args@) && names_view(old(ctx).locals@).contains(
                closure.of@,
            ) && closure_args_recorded(closure.args@, ex, old(ctx).closure_remaining@)),
            local_call ==> ctx.closure_remaining == old(ctx).closure_remaining,
        decreases args@.len() - idx,
    {
        let arg_use_count = ctx.count_remaining_use(args[idx].name.as_str());
        let is_closure = matches!(args[idx].kind, SigKind::Sig(_));
        if is_closure && arg_use_count > 1 {
            let arg_remaining = match find_remaining(&ctx.closure_remaining, args[idx].name.as_str()) {
                Some(k) => clone_kinds(&ctx.closure_remaining[k].1),
                None => {
                    return Err(missing_signature(args[idx].name.as_str()));
                },
            };
            let mut clone_name = closure_binding(closure.name.as_str(), "_arg_clone_");
            push_str(&mut clone_name, usize_to_string(idx).as_str());
            block_items.push(AirStmt::Op(Box::new(AirOp::CloneClosure(AirCloneClosure {
                src: args[idx].name.clone(),
                dst: clone_name.clone(),
                remaining: arg_remaining,
            }))));
            stored_args.push(AirArg { name: clone_name, kind: clone_kind(&args[idx].kind), literal: None });
        } else {
            stored_args.push(clone_arg(&args[idx]));
        }
        idx = idx + 1;
    }
    let env_end = closure_binding(closure.name.as_str(), "_env_end");
    let ghost pin_at = block_items@.len();
    block_items.push(AirStmt::Op(Box::new(AirOp::Pin(AirPin {
        result: env_end.clone(),
        value: AirValue::Binding(closure.name.clone()),
    }))));
    let suffix = suffix_word_counts(&existing);
    let mut j: usize = 0;
    while j < applied
        invariant
            j <= applied,
            applied <= existing@.len(),
            applied <= stored_args@.len(),
            applied == min_int(closure.args@.len() as int, existing@.len() as int),
            stored_args@.len() == args@.len(),
            ex == kinds_view(existing@),
            env_end@ == env_end_binding(closure.name@),
            suffix@.len() == existing@.len(),
            forall|k: int| 0 <= k < suffix@.len() ==> suffix@[k] == existing@.len() - k,
            block_items@.len() == pin_at + 1 + j,
            pin_at >= prefix_len + 1,
            is_clone_closure(block_items@[prefix_len as int], closure.of@, closure.name@, ex),
            is_pin(block_items@[pin_at as int], env_end_binding(closure.name@), closure.name@),
            forall|k: int| 0 <= k < args@.len() ==> (#[trigger] args@[k]).name@ == closure.args@[k]@,
            forall|k: int| 0 <= k < args@.len() && k < existing@.len() ==> (#[trigger] args@[k]).kind@ == ex[k],
            forall|k: int| 0 <= k < args@.len() ==> (#[trigger] stored_args@[k])@.kind == args@[k]@.kind && (stored_args@[k]@.name
                == args@[k]@.name || stored_args@[k]@.name == arg_clone_binding(closure.name@, k as nat)),
            forall|k: int| 0 <= k < j ==> {
                &&& #[trigger] is_set_field(block_items@[pin_at + 1 + k], env_end_binding(closure.name@), -min_int(existing@.len() - k, isize::MAX as int))
                &&& set_value(block_items@[pin_at + 1 + k]).kind == ex[k]
                &&& (set_value(block_items@[pin_at + 1 + k]).name == closure.args@[k]@ || set_value(block_items@[pin_at + 1 + k]).name
                    == arg_clone_binding(closure.name@, k as nat))
            },
        decreases applied - j,
    {
        let offset_words: isize = if suffix[j] <= isize::MAX as usize { suffix[j] as isize } else { isize::MAX };
        block_items.push(AirStmt::Op(Box::new(AirOp::SetField(AirSetField {
            env_end: env_end.clone(),
            offset: -offset_words,
            value: clone_arg(&stored_args[j]),
        }))));
        j = j + 1;
    }
    let mut remaining: Vec<SigKind> = Vec::new();
    let mut m: usize = applied;
    while m < existing.len()
        invariant
            applied <= m <= existing@.len(),
            kinds_view(remaining@) == ex.subrange(applied as int, m as int),
            ex == kinds_view(existing@),
        decreases existing@.len() - m,
    {
        let ghost before = kinds_view(remaining@);
        remaining.push(clone_kind(&existing[m]));
        proof {
            assert(kinds_view(remaining@) =~= before.push(ex[m as int]));
            assert(ex.subrange(applied as int, m + 1) =~= ex.subrange(applied as int, m as int).push(ex[m as int]));
        }
        m = m + 1;
    }
    proof {
        assert(remaining@.len() == kinds_view(remaining@).len());
        assert(remaining@.len() == existing@.len() - applied);
    }
    let count: u64 = remaining.len() as u64;
    let remaining_words: i64 = if count <= 9223372036854775807u64 { count as i64 } else { i64::MAX };
    let value_name = closure_binding(closure.name.as_str(), "_num_remaining_value");
    block_items.push(AirStmt::Op(Box::new(AirOp::SetField(AirSetField {
        env_end,
        offset: NUM_REMAINING_METADATA_WORD_OFFSET as isize,
        value: AirArg { name: value_name, kind: SigKind::Int, literal: Some(Lit::Int(remaining_words)) },
    }))));
    proof {
        let l = block_items@.len() as int;
        let nm = closure.name@;
        assert(l == pin_at + applied + 2);
        assert(min_int(names_view(closure.args@).len() as int, ex.len() as int) == applied);
        assert(prefix_len < pin_at);
        assert(is_pin(block_items@[pin_at as int], env_end_binding(nm), nm));
        assert forall|j: int| 0 <= j < applied implies {
            &&& #[trigger] is_set_field(block_items@[pin_at + 1 + j], env_end_binding(nm), -min_int(ex.len() - j, isize::MAX as int))
            &&& set_value(block_items@[pin_at + 1 + j]).kind == ex[j]
            &&& (set_value(block_items@[pin_at + 1 + j]).name == names_view(closure.args@)[j] || set_value(
                block_items@[pin_at + 1 + j],
            ).name == arg_clone_binding(nm, j as nat))
        } by {
            assert(names_view(closure.args@)[j] == closure.args@[j]@);
        }
        assert(is_clone_closure(block_items@[prefix_len as int], closure.of@, nm, ex));
        assert(curry_ok(nm, closure.of@, names_view(closure.args@), ex, block_items@));
    }
    let ghost rem = kinds_view(remaining@);
    ctx.closure_remaining.push((closure.name.clone(), remaining));
    proof {
        assert(ex.subrange(applied as int, existing@.len() as int) =~= ex.skip(applied as int));
        let v = crate::compiler::air::remaining_views(ctx.closure_remaining@);
        assert(v.last() == (closure.name@, rem));
        assert(is_clone_closure(block_items@[prefix_len as int], closure.of@, closure.name@, ex));
        assert(rem == ex.skip(applied as int));
        assert(crate::compiler::symbol::assoc_lookup(v, closure.name@) == Some(rem));
    }
    Ok(block_items)
}

/// A transfer of control: to a call or inline builtin as its operations, else a jump
/// to the function or closure with the arguments. The closure parameters still unused
/// are released before control leaves.
fn lower_exec(
    exec: &hir::Exec,
    ctx: &mut AirLowerContext,
    symbols: &mut SymbolRegistry,
    lowerer: &mut FunctionLowerer,
) -> (r: Result<Vec<AirStmt>, Error>)
    ensures
        final(lowerer).pending@.len() <= old(lowerer).pending@.len(),
        all_local(old(ctx).locals@, exec.args@) && names_view(old(ctx).locals@).contains(exec.of@) ==> (r matches Ok(
        stmts) && stmts@.len() >= 1 && (stmts@.last() matches AirStmt::Op(op) && (*op matches AirOp::JumpClosure(j)
            && j.env_end@ == exec.of@ && j.args@.len() == exec.args@.len() && forall|i: int|
            0 <= i < exec.args@.len() ==> (#[trigger] j.args@[i]).name@ == exec.args@[i]@)) && final(ctx).locals == old(
        ctx).locals),
        all_local(old(ctx).locals@, exec.args@) && !names_view(old(ctx).locals@).contains(exec.of@) && (
        crate::compiler::symbol::function_lookup(old(symbols).function_table(), exec.of@) matches Some(f)
            && f.builtin is None) && (old(lowerer).started(exec.of@) || !old(lowerer).has_pending(exec.of@)) ==> (r matches Ok(
        stmts) && stmts@.len() >= 1 && (stmts@.last() matches AirStmt::Op(op) && (*op matches AirOp::JumpArgs(j)
            && Some(j.target@) == crate::compiler::symbol::function_lookup(old(symbols).function_table(), exec.of@)
            && j.args@.len() == exec.args@.len() && forall|i: int|
            0 <= i < exec.args@.len() ==> (#[trigger] j.args@[i]).name@ == exec.args@[i]@))),
        match instruction_target(&*old(symbols), exec.of@) {
            Some(b) => all_local(old(ctx).locals@, exec.args@) && !names_view(old(ctx).locals@).contains(exec.of@) ==> (r matches Ok(
            stmts) ==> stmts@.len() >= 1 && (stmts@.last() matches AirStmt::Op(op) && exists|a: Seq<AirArg>|
                #[trigger] arg_names_are(a, exec.args@) && crate::compiler::air::instruction_op_ok(b, a, *op))),
            None => true,
        },
    decreases old(lowerer).pending@.len(), 4nat,
{
    ctx.count_remaining_use(exec.of.as_str());
    let mut k: usize = 0;
    while k < exec.args.len()
        invariant
            ctx.locals == old(ctx).locals,
        decreases exec.args@.len() - k,
    {
        ctx.count_remaining_use(exec.args[k].as_str());
        k = k + 1;
    }
    let (mut block_items, target, args) = ensure_target(ctx, &exec.args, exec.of.as_str(), symbols, lowerer)?;
    mark_target(&mut ctx.unused_params, &target);
    mark_args(&mut ctx.unused_params, &args);
    if let AirExecTarget::Function(sig) = &target {
        if let Some(builtin) = sig.builtin {
            if builtin.is_call() {
                let mut builtin_items = lower_builtin_call(sig, builtin, args, &mut ctx.unused_params)?;
                block_items.append(&mut builtin_items);
                return Ok(block_items);
            }
            if is_inline_builtin(builtin) {
                let mut p: usize = 0;
                while p < sig.params.len()
                    invariant
                        arg_names_are(args@, exec.args@),
                        match instruction_target(&*old(symbols), exec.of@) {
                            Some(b) => all_local(old(ctx).locals@, exec.args@) && !names_view(old(ctx).locals@).contains(
                                exec.of@,
                            ) ==> b == builtin,
                            None => true,
                        },
                    decreases sig.params@.len() - p,
                {
                    if let SigKind::Sig(_) = &sig.params[p].kind {
                        remove_name(&mut ctx.unused_params, sig.params[p].name.as_str());
                    }
                    p = p + 1;
                }
                let mut releases = take_release_statements(&mut ctx.unused_params);
                block_items.append(&mut releases);
                if !builtin_args_fit(builtin, &args) {
                    return Err(malformed_builtin(builtin));
                }
                let ghost av = args@;
                let mut stmts = build_builtin_statements(sig, builtin, args);
                let ghost added = stmts@;
                let ghost had = block_items@;
                block_items.append(&mut stmts);
                proof {
                    if builtin is Eq || builtin is Eqi || builtin is Eqs {
                    } else if crate::compiler::air::is_instruction_builtin(builtin) {
                        assert(block_items@ == had + added);
                        assert(block_items@.last() == added[0]);
                        assert(arg_names_are(av, exec.args@));
                    }
                }
                return Ok(block_items);
            }
        }
    }
    let mut releases = take_release_statements(&mut ctx.unused_params);
    block_items.append(&mut releases);
    match target {
        AirExecTarget::Function(sig) => {
            block_items.push(AirStmt::Op(Box::new(AirOp::JumpArgs(AirJumpArgs { target: sig, args }))));
        },
        AirExecTarget::Closure { name } => {
            block_items.push(AirStmt::Op(Box::new(AirOp::JumpClosure(AirJumpClosure { env_end: name, args }))));
        },
    }
    Ok(block_items)
}

/// A block item of a function body: a literal is recorded, a closure definition
/// applies more arguments to a local closure or makes a new one, an execution
/// transfers control; a nested function is lowered on its own.
fn lower_block_item(
    ctx: &mut AirLowerContext,
    item: &hir::BlockItem,
    symbols: &mut SymbolRegistry,
    lowerer: &mut FunctionLowerer,
) -> (r: Result<Vec<AirStmt>, Error>)
    requires
        !(*item is Import),
        !(*item is SigDef),
    ensures
        final(lowerer).pending@.len() <= old(lowerer).pending@.len(),
        *item is FunctionDef ==> (r matches Ok(stmts) && stmts@.len() == 0 && *final(ctx) == *old(ctx)
            && *final(lowerer) == *old(lowerer)),
        item matches hir::BlockItem::LitDef { name, literal } ==> {
            &&& r matches Ok(stmts) && stmts@.len() == 0
            &&& names_view(final(ctx).locals@) == names_view(old(ctx).locals@).push(name@)
            &&& crate::compiler::air::literal_views(final(ctx).literals@)
                == crate::compiler::air::literal_views(old(ctx).literals@).push((name@, literal@))
            &&& final(ctx).closure_remaining == old(ctx).closure_remaining
            &&& final(ctx).generated_functions == old(ctx).generated_functions
            &&& *final(lowerer) == *old(lowerer)
        },
        item matches hir::BlockItem::Exec(e) ==> (all_local(old(ctx).locals@, e.args@) && names_view(
            old(ctx).locals@,
        ).contains(e.of@) ==> (r is Ok && final(ctx).locals == old(ctx).locals)),
    decreases old(lowerer).pending@.len(), 5nat,
{
    match item {
        hir::BlockItem::FunctionDef(_) => Ok(Vec::new()),
        hir::BlockItem::LitDef { name, literal } => {
            ctx.locals.push(name.clone());
            ctx.literals.push((name.clone(), clone_lit(literal)));
            proof {
                assert(names_view(ctx.locals@) =~= names_view(old(ctx).locals@).push(name@));
                assert(crate::compiler::air::literal_views(ctx.literals@)
                    =~= crate::compiler::air::literal_views(old(ctx).literals@).push((name@, literal@)));
            }
            Ok(Vec::new())
        },
        hir::BlockItem::ClosureDef(closure) => {
            if contains_name(&ctx.locals, closure.of.as_str()) && find_remaining(
                &ctx.closure_remaining,
                closure.of.as_str(),
            ).is_some() {
                lower_closure_curry(closure, ctx, symbols, lowerer)
            } else {
                lower_new_closure(closure, ctx, symbols, lowerer)
            }
        },
        hir::BlockItem::Exec(exec) => lower_exec(exec, ctx, symbols, lowerer),
        _ => Ok(Vec::new()),
    }
}

/// Lowers a function: its signature is declared, its parameters become locals (closure
/// parameters unused until used), its body is lowered item by item; the function comes
/// first among the results, then its unwrapper, deep release and deep copy helpers,
/// then the functions generated on the way.
pub fn lower_function(func: &hir::Function, symbols: &mut SymbolRegistry, lowerer: &mut FunctionLowerer) -> (r: Result<
    Vec<AirFunction>,
    Error,
>)
    requires
        lowerable(*func),
    ensures
        final(lowerer).pending@.len() <= old(lowerer).pending@.len(),
        r matches Ok(fs) ==> fs@.len() >= 4 && fs@[0].sig@ == (FunctionSigView {
            name: func.name@,
            params: crate::compiler::air::pointerized_items(func.sig@.items, func.sig@.generics),
            generics: func.sig@.generics,
            builtin: None,
        }),
        crate::compiler::air::pointerized_items(func.sig@.items, func.sig@.generics).len() > isize::MAX ==> (r matches Err(
        e) && e.code == Code::Internal && e.message@ == "too many parameters"@),
        crate::compiler::air::pointerized_items(func.sig@.items, func.sig@.generics).len() <= isize::MAX && (forall|k: int|
            0 <= k < func.body.items@.len() ==> quiet_item(#[trigger] func.body.items@[k])) ==> r is Ok,
        crate::compiler::air::pointerized_items(func.sig@.items, func.sig@.generics).len() <= isize::MAX
            && calls_own_params(*func) ==> r is Ok,
    decreases old(lowerer).pending@.len(), 6nat,
{
    let sig = function_sig_from_hir(func);
    let limit: usize = isize::MAX as usize;
    if sig.params.len() > limit {
        let m = "too many parameters".to_string();
        return Err(Error::new(Code::Internal, m, Span::unknown()));
    }
    let params = clone_items(&sig.params);
    symbols.declare_function(clone_function_sig(&sig))?;
    let mut ctx = AirLowerContext::new(count_block_uses(&func.body.items));
    let mut p: usize = 0;
    while p < func.sig.items.len()
        invariant
            forall|q: int| 0 <= q < p ==> names_view(ctx.locals@).contains(#[trigger] func.sig.items@[q].name@),
        decreases func.sig.items@.len() - p,
    {
        let ghost before = names_view(ctx.locals@);
        ctx.locals.push(func.sig.items[p].name.clone());
        proof {
            assert(names_view(ctx.locals@) =~= before.push(func.sig.items@[p as int].name@));
            assert forall|q: int| 0 <= q <= p implies names_view(ctx.locals@).contains(#[trigger] func.sig.items@[q].name@) by {
                if q < p {
                    let w = choose|w: int| 0 <= w < before.len() && before[w] == func.sig.items@[q].name@;
                    assert(names_view(ctx.locals@)[w] == before[w]);
                } else {
                    assert(names_view(ctx.locals@)[before.len() as int] == func.sig.items@[q].name@);
                }
            }
        }
        if let SigKind::Sig(signature) = &func.sig.items[p].kind {
            ctx.closure_remaining.push((func.sig.items[p].name.clone(), signature.kinds()));
        }
        p = p + 1;
    }
    ctx.unused_params = collect_unused_param_refs(&params);
    let mut lowered_items: Vec<AirStmt> = Vec::new();
    let mut i: usize = 0;
    while i < func.body.items.len()
        invariant
            lowerable(*func),
            calls_own_params(*func) ==> forall|q: int|
                0 <= q < func.sig.items@.len() ==> names_view(ctx.locals@).contains(#[trigger] func.sig.items@[q].name@),
            crate::compiler::air::pointerized_items(func.sig@.items, func.sig@.generics).len() <= isize::MAX,
            lowerer.pending@.len() <= old(lowerer).pending@.len(),
        decreases func.body.items@.len() - i,
    {
        let ghost locals_before = names_view(ctx.locals@);
        proof {
            if calls_own_params(*func) {
                let it = func.body.items@[i as int];
                if !quiet_item(it) {
                    let e = it->Exec_0;
                    assert forall|j: int| 0 <= j < e.args@.len() implies locals_before.contains(#[trigger] e.args@[j]@) by {
                        assert(param_named(*func, e.args@[j]@));
                        let q = choose|q: int| 0 <= q < func.sig.items@.len() && #[trigger] func.sig.items@[q].name@ == e.args@[j]@;
                    }
                    assert(all_local(ctx.locals@, e.args@));
                    assert(param_named(*func, e.of@));
                    let q = choose|q: int| 0 <= q < func.sig.items@.len() && #[trigger] func.sig.items@[q].name@ == e.of@;
                    assert(locals_before.contains(e.of@));
                }
            }
        }
        let lowered = lower_block_item(&mut ctx, &func.body.items[i], symbols, lowerer);
        proof {
            if calls_own_params(*func) && lowered is Ok {
                assert forall|q: int| 0 <= q < func.sig.items@.len() implies names_view(ctx.locals@).contains(
                    #[trigger] func.sig.items@[q].name@,
                ) by {
                    assert(locals_before.contains(func.sig.items@[q].name@));
                    let w = choose|w: int| 0 <= w < locals_before.len() && locals_before[w] == func.sig.items@[q].name@;
                    assert(names_view(ctx.locals@)[w] == locals_before[w]);
                }
            }
        }
        match lowered {
            Ok(stmts) => {
                let mut stmts = stmts;
                lowered_items.append(&mut stmts);
            },
            Err(e) => {
                return Err(e);
            },
        }
        i = i + 1;
    }
    let function = AirFunction { sig, items: lowered_items };
    let unwrapper = build_closure_unwrapper(&function);
    let release = build_deep_release_helper(&function);
    let copy = build_deep_copy_helper(&function);
    let mut functions: Vec<AirFunction> = Vec::new();
    functions.push(function);
    if let Some(f) = unwrapper {
        functions.push(f);
    }
    if let Some(f) = release {
        functions.push(f);
    }
    if let Some(f) = copy {
        functions.push(f);
    }
    let mut generated = ctx.into_generated_functions();
    functions.append(&mut generated);
    Ok(functions)
}

/// The entry function `_start`, lowered from the program's top-level items other
/// than imports, functions and type definitions, followed by the functions generated
/// on the way.
pub fn entry_function(entry_items: Vec<hir::BlockItem>, symbols: &mut SymbolRegistry, lowerer: &mut FunctionLowerer) -> (r: Result<
    Vec<AirFunction>,
    Error,
>)
    ensures
        r matches Ok(fs) ==> fs@.len() >= 1 && fs@.last().sig@.name == ENTRY_FUNCTION_NAME@ && fs@.last().sig@.params.len() == 0,
        (forall|k: int| 0 <= k < entry_items@.len() ==> quiet_item(#[trigger] entry_items@[k])) ==> (r matches Ok(fs)
            && fs@.len() == 1 && fs@[0].items@.len() == 0 && *final(lowerer) == *old(lowerer)),
{
    let mut ctx = AirLowerContext::new(count_block_uses(&entry_items));
    let mut items: Vec<AirStmt> = Vec::new();
    let mut i: usize = 0;
    while i < entry_items.len()
        invariant
            (forall|k: int| 0 <= k < entry_items@.len() ==> quiet_item(#[trigger] entry_items@[k])) ==> (items@.len()
                == 0 && ctx.generated_functions@.len() == 0 && *lowerer == *old(lowerer)),
        decreases entry_items@.len() - i,
    {
        let skip = match &entry_items[i] {
            hir::BlockItem::Import { .. } => true,
            hir::BlockItem::FunctionDef(_) => true,
            hir::BlockItem::SigDef { .. } => true,
            _ => false,
        };
        if !skip {
            match lower_block_item(&mut ctx, &entry_items[i], symbols, lowerer) {
                Ok(stmts) => {
                    let mut stmts = stmts;
                    items.append(&mut stmts);
                },
                Err(e) => {
                    return Err(e);
                },
            }
        }
        i = i + 1;
    }
    let entry = AirFunction {
        sig: FunctionSig { name: ENTRY_FUNCTION_NAME.to_string(), params: Vec::new(), generics: Vec::new(), builtin: None },
        items,
    };
    ctx.push_generated_function(entry);
    Ok(ctx.into_generated_functions())
}

} // verus!
