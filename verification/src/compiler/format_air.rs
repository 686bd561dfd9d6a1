//! The text form of assembly-level functions, as written for inspection: one line for
//! the signature, then one line per label and indented operation.

use vstd::prelude::*;

use crate::compiler::air_ast::{AirArg, AirCallPtrTarget, AirFunction, AirOp, AirStmt, AirValue, FunctionSigView};
use crate::compiler::builtins::builtin_name;
use crate::compiler::format_hir::append_joined;
use crate::compiler::hir_ast::{self as hir, items_view, kinds_view, ItemView, KindView, Lit, LitView, SigItem, SigKind};
use crate::text::{i64_to_string, int_text, push_str, quote_source_string, source_quoted};
use crate::{joined_parts, lemma_joined_push};

verus! {

// ---------------------------------------------------------------------------
// Names and kinds
// ---------------------------------------------------------------------------

/// A binding's name as written: with a leading `$`, added when missing; the empty
/// name stays empty.
pub open spec fn binding_text(name: Seq<char>) -> Seq<char> {
    if name.len() == 0 {
        seq![]
    } else if name[0] == '$' {
        name
    } else {
        seq!['$'] + name
    }
}

/// The binding name as written (see `binding_text`).
pub fn format_binding_name(name: &str) -> (r: String)
    ensures
        r@ == binding_text(name@),
{
    let n = name.unicode_len();
    if n == 0 {
        return String::new();
    }
    if name.get_char(0) == '$' {
        return name.to_string();
    }
    let mut out = "$".to_string();
    push_str(&mut out, name);
    proof {
        reveal_strlit("$");
    }
    out
}

/// A parameter as written: its binding name and kind, a signature kind shown as `()`;
/// an unnamed parameter shows its kind alone.
pub open spec fn labelled_item(name: Seq<char>, is_sig: bool, kind_text: Seq<char>) -> Seq<char> {
    let shown = if is_sig {
        "()"@
    } else {
        kind_text
    };
    if name.len() > 0 {
        binding_text(name) + ": "@ + shown
    } else {
        shown
    }
}

/// How a kind is written in the text form; the items of a signature kind carry their
/// names (see `labelled_item`).
pub open spec fn air_kind_text(k: KindView) -> Seq<char>
    decreases k,
{
    match k {
        KindView::Byte => "byte"@,
        KindView::Int => "int"@,
        KindView::Str => "str"@,
        KindView::F64 => "f64"@,
        KindView::Variadic => "..."@,
        KindView::CompileTimeInt => "int!"@,
        KindView::CompileTimeStr => "str!"@,
        KindView::Ident(n) => n,
        KindView::Sig(s) => "("@ + air_items_text(s.items) + ")"@,
        KindView::GenericInst(n, args) => n + "<"@ + air_kinds_text(args) + ">"@,
        KindView::Generic(n) => n,
    }
}

/// The items, each as `labelled_item` writes it, joined by `, `.
pub open spec fn air_items_text(items: Seq<ItemView>) -> Seq<char>
    decreases items,
{
    if items.len() == 0 {
        seq![]
    } else if items.len() == 1 {
        labelled_item(items[0].name, items[0].kind is Sig, air_kind_text(items[0].kind))
    } else {
        air_items_text(items.drop_last()) + ", "@ + labelled_item(
            items.last().name,
            items.last().kind is Sig,
            air_kind_text(items.last().kind),
        )
    }
}

/// The kinds, written and joined by `, `.
pub open spec fn air_kinds_text(ks: Seq<KindView>) -> Seq<char>
    decreases ks,
{
    if ks.len() == 0 {
        seq![]
    } else if ks.len() == 1 {
        air_kind_text(ks[0])
    } else {
        air_kinds_text(ks.drop_last()) + ", "@ + air_kind_text(ks.last())
    }
}

/// The item as `labelled_item` writes it.
fn format_item(item: &SigItem) -> (r: String)
    ensures
        r@ == labelled_item(item.name@, item.kind@ is Sig, air_kind_text(item.kind@)),
    decreases item,
{
    let shown = if let SigKind::Sig(_) = &item.kind {
        "()".to_string()
    } else {
        proof {
            assert(decreases_to!(*item => item.kind));
        }
        format_air_kind(&item.kind)
    };
    if item.name.unicode_len() > 0 {
        let mut out = format_binding_name(item.name.as_str());
        push_str(&mut out, ": ");
        push_str(&mut out, shown.as_str());
        out
    } else {
        shown
    }
}

/// How a kind is written in the text form (see `air_kind_text`).
#[verifier::loop_isolation(false)]
pub fn format_air_kind(kind: &SigKind) -> (r: String)
    ensures
        r@ == air_kind_text(kind@),
    decreases kind,
{
    match kind {
        SigKind::Byte => "byte".to_string(),
        SigKind::Int => "int".to_string(),
        SigKind::Str => "str".to_string(),
        SigKind::F64 => "f64".to_string(),
        SigKind::Variadic => "...".to_string(),
        SigKind::CompileTimeInt => "int!".to_string(),
        SigKind::CompileTimeStr => "str!".to_string(),
        SigKind::Ident(ident) => ident.name.clone(),
        SigKind::Sig(inner) => {
            let ghost items = inner@.items;
            proof {
                hir::lemma_view_sig(*inner);
                assert(items.take(0) =~= Seq::<ItemView>::empty());
            }
            let mut entries = String::new();
            let mut i: usize = 0;
            while i < inner.items.len()
                invariant
                    i <= inner.items@.len(),
                    items == inner@.items,
                    items.len() == inner.items@.len(),
                    forall|j: int| 0 <= j < inner.items@.len() ==> #[trigger] items[j] == inner.items@[j]@,
                    entries@ == air_items_text(items.take(i as int)),
                decreases inner.items@.len() - i,
            {
                proof {
                    assert(decreases_to!(inner.items@ => inner.items@[i as int]));
                    assert(decreases_to!(inner.items => inner.items@));
                    assert(decreases_to!(*inner => inner.items));
                    assert(decreases_to!(*kind => *inner));
                    let t = items.take(i + 1);
                    assert(t.drop_last() =~= items.take(i as int));
                    assert(t.last() == items[i as int]);
                    if i == 0 {
                        assert(t[0] == items[0]);
                    }
                }
                let text = format_item(&inner.items[i]);
                append_joined(&mut entries, i == 0, text.as_str());
                i = i + 1;
            }
            proof {
                assert(items.take(inner.items@.len() as int) =~= items);
            }
            let mut out = "(".to_string();
            push_str(&mut out, entries.as_str());
            push_str(&mut out, ")");
            out
        },
        SigKind::GenericInst { name, args } => {
            let ghost a = kind@->GenericInst_1;
            proof {
                hir::lemma_view_inst(*name, *args);
                assert(a.take(0) =~= Seq::<KindView>::empty());
            }
            let mut entries = String::new();
            let mut i: usize = 0;
            while i < args.len()
                invariant
                    i <= args@.len(),
                    a == kind@->GenericInst_1,
                    a.len() == args@.len(),
                    entries@ == air_kinds_text(a.take(i as int)),
                decreases args@.len() - i,
            {
                proof {
                    assert(decreases_to!(args@ => args@[i as int]));
                    assert(decreases_to!(*args => args@));
                    assert(decreases_to!(*kind => *args));
                    let t = a.take(i + 1);
                    assert(t.drop_last() =~= a.take(i as int));
                    assert(t.last() == a[i as int]);
                    if i == 0 {
                        assert(t[0] == a[0]);
                    }
                }
                let text = format_air_kind(&args[i]);
                append_joined(&mut entries, i == 0, text.as_str());
                i = i + 1;
            }
            proof {
                assert(a.take(args@.len() as int) =~= a);
            }
            let mut out = name.clone();
            push_str(&mut out, "<");
            push_str(&mut out, entries.as_str());
            push_str(&mut out, ">");
            out
        },
        SigKind::Generic(name) => name.clone(),
    }
}

/// The items of a parameter list as `air_items_text` writes them.
fn format_air_items(items: &Vec<SigItem>) -> (r: String)
    ensures
        r@ == air_items_text(items_view(items@)),
{
    let ghost v = items_view(items@);
    proof {
        assert(v.take(0) =~= Seq::<ItemView>::empty());
    }
    let mut entries = String::new();
    let mut i: usize = 0;
    while i < items.len()
        invariant
            i <= items@.len(),
            v == items_view(items@),
            entries@ == air_items_text(v.take(i as int)),
        decreases items@.len() - i,
    {
        proof {
            let t = v.take(i + 1);
            assert(t.drop_last() =~= v.take(i as int));
            assert(t.last() == v[i as int]);
            if i == 0 {
                assert(t[0] == v[0]);
            }
        }
        let text = format_item(&items[i]);
        append_joined(&mut entries, i == 0, text.as_str());
        i = i + 1;
    }
    proof {
        assert(v.take(items@.len() as int) =~= v);
    }
    entries
}

/// The kinds as `air_kinds_text` writes them.
fn format_kinds_inline(kinds: &Vec<SigKind>) -> (r: String)
    ensures
        r@ == air_kinds_text(kinds_view(kinds@)),
{
    let ghost v = kinds_view(kinds@);
    proof {
        assert(v.take(0) =~= Seq::<KindView>::empty());
    }
    let mut entries = String::new();
    let mut i: usize = 0;
    while i < kinds.len()
        invariant
            i <= kinds@.len(),
            v == kinds_view(kinds@),
            entries@ == air_kinds_text(v.take(i as int)),
        decreases kinds@.len() - i,
    {
        proof {
            let t = v.take(i + 1);
            assert(t.drop_last() =~= v.take(i as int));
            assert(t.last() == v[i as int]);
            if i == 0 {
                assert(t[0] == v[0]);
            }
        }
        let text = format_air_kind(&kinds[i]);
        append_joined(&mut entries, i == 0, text.as_str());
        i = i + 1;
    }
    proof {
        assert(v.take(kinds@.len() as int) =~= v);
    }
    entries
}

// ---------------------------------------------------------------------------
// Arguments and operands
// ---------------------------------------------------------------------------

/// A literal as written: a string quoted with its escapes, an integer in decimal.
pub open spec fn literal_text(l: LitView) -> Seq<char> {
    match l {
        LitView::Str(s) => source_quoted(s),
        LitView::Int(v) => int_text(v as int),
    }
}

/// An argument as written: `$name: kind`, a signature kind shown as `()`, followed by
/// ` = value` when it is a literal.
pub open spec fn arg_text(a: AirArg) -> Seq<char> {
    binding_text(a.name@) + ": "@ + (if a.kind@ is Sig {
        "()"@
    } else {
        air_kind_text(a.kind@)
    }) + match a.literal {
        Some(l) => " = "@ + literal_text(l@),
        None => seq![],
    }
}

pub open spec fn arg_texts(args: Seq<AirArg>) -> Seq<Seq<char>> {
    Seq::new(args.len(), |i: int| arg_text(args[i]))
}

/// The arguments, written and joined by `, `.
pub open spec fn args_text(args: Seq<AirArg>) -> Seq<char> {
    joined_parts(arg_texts(args))
}

/// The argument as `arg_text` writes it.
fn format_arg(arg: &AirArg) -> (r: String)
    ensures
        r@ == arg_text(*arg),
{
    let mut out = format_binding_name(arg.name.as_str());
    push_str(&mut out, ": ");
    if let SigKind::Sig(_) = &arg.kind {
        push_str(&mut out, "()");
    } else {
        let k = format_air_kind(&arg.kind);
        push_str(&mut out, k.as_str());
    }
    match &arg.literal {
        Some(Lit::Str(s)) => {
            push_str(&mut out, " = ");
            let q = quote_source_string(s.as_str());
            push_str(&mut out, q.as_str());
        },
        Some(Lit::Int(v)) => {
            push_str(&mut out, " = ");
            let d = i64_to_string(*v);
            push_str(&mut out, d.as_str());
        },
        None => {},
    }
    out
}

/// The arguments as `args_text` writes them.
fn format_args_inline(args: &Vec<AirArg>) -> (r: String)
    ensures
        r@ == args_text(args@),
{
    let ghost texts = arg_texts(args@);
    proof {
        assert(texts.take(0) =~= Seq::<Seq<char>>::empty());
    }
    let mut out = String::new();
    let mut i: usize = 0;
    while i < args.len()
        invariant
            i <= args@.len(),
            texts == arg_texts(args@),
            out@ == joined_parts(texts.take(i as int)),
        decreases args@.len() - i,
    {
        let text = format_arg(&args[i]);
        proof {
            assert(texts.take(i + 1) =~= texts.take(i as int).push(text@));
            lemma_joined_push(texts.take(i as int), text@);
        }
        append_joined(&mut out, i == 0, text.as_str());
        i = i + 1;
    }
    proof {
        assert(texts.take(args@.len() as int) =~= texts);
    }
    out
}

/// Two arguments, written and joined by `, `.
pub open spec fn pair_text(a: AirArg, b: AirArg) -> Seq<char> {
    arg_text(a) + ", "@ + arg_text(b)
}

fn format_pair(a: &AirArg, b: &AirArg) -> (r: String)
    ensures
        r@ == pair_text(*a, *b),
{
    let mut out = format_arg(a);
    push_str(&mut out, ", ");
    let t = format_arg(b);
    push_str(&mut out, t.as_str());
    out
}

/// An operand as written: a binding name, or an integer in decimal.
pub open spec fn operand_text(v: AirValue) -> Seq<char> {
    match v {
        AirValue::Binding(n) => binding_text(n@),
        AirValue::Literal(x) => int_text(x as int),
    }
}

fn format_operand(v: &AirValue) -> (r: String)
    ensures
        r@ == operand_text(*v),
{
    match v {
        AirValue::Binding(n) => format_binding_name(n.as_str()),
        AirValue::Literal(x) => i64_to_string(*x),
    }
}

/// What a call goes to: `@` and the builtin's name, or the function's name.
pub open spec fn target_text(sig: FunctionSigView) -> Seq<char> {
    match sig.builtin {
        Some(b) => "@"@ + builtin_name(b),
        None => sig.name,
    }
}

fn format_function_target(sig: &crate::compiler::air_ast::FunctionSig) -> (r: String)
    ensures
        r@ == target_text(sig@),
{
    match sig.builtin {
        Some(b) => {
            let mut out = "@".to_string();
            push_str(&mut out, b.name());
            out
        },
        None => sig.name.clone(),
    }
}

/// `, ` and the arguments' text, or nothing when that text is empty.
pub open spec fn after_args(args: Seq<char>) -> Seq<char> {
    if args.len() == 0 {
        seq![]
    } else {
        ", "@ + args
    }
}

fn push_after_args(out: &mut String, args: &str)
    ensures
        final(out)@ == old(out)@ + after_args(args@),
{
    if args.unicode_len() > 0 {
        push_str(out, ", ");
        push_str(out, args);
    } else {
        assert(old(out)@ + after_args(args@) =~= old(out)@);
    }
}

/// An operation that writes to `target`: `@name(args, $target)`, or `@name($target)`
/// without arguments.
pub open spec fn call_form(name: Seq<char>, args: Seq<char>, target: Seq<char>) -> Seq<char> {
    "@"@ + name + "("@ + (if args.len() == 0 {
        binding_text(target)
    } else {
        args + ", "@ + binding_text(target)
    }) + ")"@
}

fn format_call_op(name: &str, args: &str, target: &str) -> (r: String)
    ensures
        r@ == call_form(name@, args@, target@),
{
    let mut out = "@".to_string();
    push_str(&mut out, name);
    push_str(&mut out, "(");
    if args.unicode_len() > 0 {
        push_str(&mut out, args);
        push_str(&mut out, ", ");
    }
    let t = format_binding_name(target);
    push_str(&mut out, t.as_str());
    push_str(&mut out, ")");
    out
}

// ---------------------------------------------------------------------------
// Statements
// ---------------------------------------------------------------------------

/// How an operation is written.
pub open spec fn op_text(op: AirOp) -> Seq<char> {
    match op {
        AirOp::NewClosure(c) => binding_text(c.name@) + " = @newclosure<"@ + air_kinds_text(
            c.target@.params.map_values(|p: ItemView| p.kind),
        ) + ">("@ + target_text(c.target@) + after_args(args_text(c.args@)) + ")"@,
        AirOp::Jump(j) => "@jump("@ + j.target@ + ")"@,
        AirOp::Pin(p) => binding_text(p.result@) + " = @pin("@ + operand_text(p.value) + ")"@,
        AirOp::Field(f) => binding_text(f.result@) + " = @field("@ + binding_text(f.ptr@) + ", "@ + int_text(
            f.offset as int,
        ) + ")"@,
        AirOp::ReleaseHeap(h) => "@release("@ + binding_text(h.name@) + ")"@,
        AirOp::SetField(s) => "@setfield("@ + binding_text(s.env_end@) + ", "@ + int_text(s.offset as int) + ", "@
            + arg_text(s.value) + ")"@,
        AirOp::CopyField(f) => "@deepcopy("@ + binding_text(f.result@) + ", "@ + binding_text(f.ptr@) + ", "@
            + int_text(f.offset as int) + ")"@,
        AirOp::CloneClosure(c) => binding_text(c.dst@) + " = @cloneclosure("@ + binding_text(c.src@) + ", "@
            + air_kinds_text(kinds_view(c.remaining@)) + ")"@,
        AirOp::JumpEqInt(e) => "@eqi("@ + e.target@ + after_args(args_text(e.args@)) + ")"@,
        AirOp::JumpEqStr(e) => "@eqs("@ + e.target@ + after_args(args_text(e.args@)) + ")"@,
        AirOp::JumpLt(j) => "@lt("@ + j.target@ + ", "@ + operand_text(j.left) + ", "@ + operand_text(j.right)
            + ")"@,
        AirOp::JumpGt(j) => "@gt("@ + j.target@ + ", "@ + operand_text(j.left) + ", "@ + operand_text(j.right)
            + ")"@,
        AirOp::Add(a) => call_form("add"@, pair_text(a.input_a, a.input_b), a.target@),
        AirOp::Sub(a) => call_form("sub"@, pair_text(a.input_a, a.input_b), a.target@),
        AirOp::Mul(a) => call_form("mul"@, pair_text(a.input_a, a.input_b), a.target@),
        AirOp::DivInt(d) => "@div("@ + pair_text(d.input_a, d.input_b) + ", "@ + binding_text(d.err_target@) + ", "@
            + binding_text(d.ok_target@) + ")"@,
        AirOp::AddF64(a) => call_form("addf64"@, pair_text(a.input_a, a.input_b), a.target@),
        AirOp::MulF64(a) => call_form("mulf64"@, pair_text(a.input_a, a.input_b), a.target@),
        AirOp::DivF64(a) => call_form("divf64"@, pair_text(a.input_a, a.input_b), a.target@),
        AirOp::Printf(c) => call_form("printf"@, args_text(c.args@), c.target@),
        AirOp::Sprintf(c) => call_form("sprintf"@, args_text(c.args@), c.target@),
        AirOp::Write(c) => call_form("write"@, args_text(c.args@), c.target@),
        AirOp::JumpArgs(j) => "@jumpargs("@ + target_text(j.target@) + after_args(args_text(j.args@)) + ")"@,
        AirOp::CallPtr(c) => match c.target {
            AirCallPtrTarget::Binding(n) => "@callptr("@ + binding_text(n@) + ")"@,
        },
        AirOp::SysExit(s) => "@exit("@ + args_text(s.args@) + ")"@,
        AirOp::JumpClosure(j) => "@jumpclosure("@ + binding_text(j.env_end@) + after_args(args_text(j.args@))
            + ")"@,
        AirOp::Return(r) => match r.value {
            Some(v) => "@return("@ + binding_text(v@) + ")"@,
            None => "@return()"@,
        },
    }
}

/// How a statement is written: a label as `name:`, an operation by `op_text`.
pub open spec fn stmt_text(s: AirStmt) -> Seq<char> {
    match s {
        AirStmt::Op(op) => op_text(*op),
        AirStmt::Label(l) => l.name@ + ":"@,
    }
}

fn format_op(op: &AirOp) -> (r: String)
    ensures
        r@ == op_text(*op),
{
    match op {
        AirOp::NewClosure(c) => {
            let kinds = c.target.param_kinds();
            let layout = format_kinds_inline(&kinds);
            let target = format_function_target(&c.target);
            let args = format_args_inline(&c.args);
            let mut out = format_binding_name(c.name.as_str());
            push_str(&mut out, " = @newclosure<");
            push_str(&mut out, layout.as_str());
            push_str(&mut out, ">(");
            push_str(&mut out, target.as_str());
            push_after_args(&mut out, args.as_str());
            push_str(&mut out, ")");
            out
        },
        AirOp::Jump(j) => {
            let mut out = "@jump(".to_string();
            push_str(&mut out, j.target.as_str());
            push_str(&mut out, ")");
            out
        },
        AirOp::Pin(p) => {
            let mut out = format_binding_name(p.result.as_str());
            push_str(&mut out, " = @pin(");
            let v = format_operand(&p.value);
            push_str(&mut out, v.as_str());
            push_str(&mut out, ")");
            out
        },
        AirOp::Field(f) => {
            let mut out = format_binding_name(f.result.as_str());
            push_str(&mut out, " = @field(");
            let ptr = format_binding_name(f.ptr.as_str());
            push_str(&mut out, ptr.as_str());
            push_str(&mut out, ", ");
            let off = i64_to_string(f.offset as i64);
            push_str(&mut out, off.as_str());
            push_str(&mut out, ")");
            out
        },
        AirOp::ReleaseHeap(h) => {
            let mut out = "@release(".to_string();
            let n = format_binding_name(h.name.as_str());
            push_str(&mut out, n.as_str());
            push_str(&mut out, ")");
            out
        },
        AirOp::SetField(s) => {
            let mut out = "@setfield(".to_string();
            let e = format_binding_name(s.env_end.as_str());
            push_str(&mut out, e.as_str());
            push_str(&mut out, ", ");
            let off = i64_to_string(s.offset as i64);
            push_str(&mut out, off.as_str());
            push_str(&mut out, ", ");
            let v = format_arg(&s.value);
            push_str(&mut out, v.as_str());
            push_str(&mut out, ")");
            out
        },
        AirOp::CopyField(f) => {
            let mut out = "@deepcopy(".to_string();
            let r = format_binding_name(f.result.as_str());
            push_str(&mut out, r.as_str());
            push_str(&mut out, ", ");
            let ptr = format_binding_name(f.ptr.as_str());
            push_str(&mut out, ptr.as_str());
            push_str(&mut out, ", ");
            let off = i64_to_string(f.offset as i64);
            push_str(&mut out, off.as_str());
            push_str(&mut out, ")");
            out
        },
        AirOp::CloneClosure(c) => {
            let mut out = format_binding_name(c.dst.as_str());
            push_str(&mut out, " = @cloneclosure(");
            let s = format_binding_name(c.src.as_str());
            push_str(&mut out, s.as_str());
            push_str(&mut out, ", ");
            let k = format_kinds_inline(&c.remaining);
            push_str(&mut out, k.as_str());
            push_str(&mut out, ")");
            out
        },
        AirOp::JumpEqInt(e) => {
            let mut out = "@eqi(".to_string();
            push_str(&mut out, e.target.as_str());
            let args = format_args_inline(&e.args);
            push_after_args(&mut out, args.as_str());
            push_str(&mut out, ")");
            out
        },
        AirOp::JumpEqStr(e) => {
            let mut out = "@eqs(".to_string();
            push_str(&mut out, e.target.as_str());
            let args = format_args_inline(&e.args);
            push_after_args(&mut out, args.as_str());
            push_str(&mut out, ")");
            out
        },
        AirOp::JumpLt(j) => {
            let mut out = "@lt(".to_string();
            push_str(&mut out, j.target.as_str());
            push_str(&mut out, ", ");
            let l = format_operand(&j.left);
            push_str(&mut out, l.as_str());
            push_str(&mut out, ", ");
            let r = format_operand(&j.right);
            push_str(&mut out, r.as_str());
            push_str(&mut out, ")");
            out
        },
        AirOp::JumpGt(j) => {
            let mut out = "@gt(".to_string();
            push_str(&mut out, j.target.as_str());
            push_str(&mut out, ", ");
            let l = format_operand(&j.left);
            push_str(&mut out, l.as_str());
            push_str(&mut out, ", ");
            let r = format_operand(&j.right);
            push_str(&mut out, r.as_str());
            push_str(&mut out, ")");
            out
        },
        AirOp::Add(a) => {
            let p = format_pair(&a.input_a, &a.input_b);
            format_call_op("add", p.as_str(), a.target.as_str())
        },
        AirOp::Sub(a) => {
            let p = format_pair(&a.input_a, &a.input_b);
            format_call_op("sub", p.as_str(), a.target.as_str())
        },
        AirOp::Mul(a) => {
            let p = format_pair(&a.input_a, &a.input_b);
            format_call_op("mul", p.as_str(), a.target.as_str())
        },
        AirOp::DivInt(d) => {
            let mut out = "@div(".to_string();
            let p = format_pair(&d.input_a, &d.input_b);
            push_str(&mut out, p.as_str());
            push_str(&mut out, ", ");
            let e = format_binding_name(d.err_target.as_str());
            push_str(&mut out, e.as_str());
            push_str(&mut out, ", ");
            let o = format_binding_name(d.ok_target.as_str());
            push_str(&mut out, o.as_str());
            push_str(&mut out, ")");
            out
        },
        AirOp::AddF64(a) => {
            let p = format_pair(&a.input_a, &a.input_b);
            format_call_op("addf64", p.as_str(), a.target.as_str())
        },
        AirOp::MulF64(a) => {
            let p = format_pair(&a.input_a, &a.input_b);
            format_call_op("mulf64", p.as_str(), a.target.as_str())
        },
        AirOp::DivF64(a) => {
            let p = format_pair(&a.input_a, &a.input_b);
            format_call_op("divf64", p.as_str(), a.target.as_str())
        },
        AirOp::Printf(c) => {
            let args = format_args_inline(&c.args);
            format_call_op("printf", args.as_str(), c.target.as_str())
        },
        AirOp::Sprintf(c) => {
            let args = format_args_inline(&c.args);
            format_call_op("sprintf", args.as_str(), c.target.as_str())
        },
        AirOp::Write(c) => {
            let args = format_args_inline(&c.args);
            format_call_op("write", args.as_str(), c.target.as_str())
        },
        AirOp::JumpArgs(j) => {
            let mut out = "@jumpargs(".to_string();
            let t = format_function_target(&j.target);
            push_str(&mut out, t.as_str());
            let args = format_args_inline(&j.args);
            push_after_args(&mut out, args.as_str());
            push_str(&mut out, ")");
            out
        },
        AirOp::CallPtr(c) => match &c.target {
            AirCallPtrTarget::Binding(n) => {
                let mut out = "@callptr(".to_string();
                let b = format_binding_name(n.as_str());
                push_str(&mut out, b.as_str());
                push_str(&mut out, ")");
                out
            },
        },
        AirOp::SysExit(s) => {
            let mut out = "@exit(".to_string();
            let args = format_args_inline(&s.args);
            push_str(&mut out, args.as_str());
            push_str(&mut out, ")");
            out
        },
        AirOp::JumpClosure(j) => {
            let mut out = "@jumpclosure(".to_string();
            let t = format_binding_name(j.env_end.as_str());
            push_str(&mut out, t.as_str());
            let args = format_args_inline(&j.args);
            push_after_args(&mut out, args.as_str());
            push_str(&mut out, ")");
            out
        },
        AirOp::Return(r) => match &r.value {
            Some(v) => {
                let mut out = "@return(".to_string();
                let b = format_binding_name(v.as_str());
                push_str(&mut out, b.as_str());
                push_str(&mut out, ")");
                out
            },
            None => "@return()".to_string(),
        },
    }
}

impl AirStmt {
    /// The statement's text (see `stmt_text`).
    pub fn to_text(&self) -> (r: String)
        ensures
            r@ == stmt_text(*self),
    {
        match self {
            AirStmt::Op(op) => format_op(op),
            AirStmt::Label(l) => {
                let mut out = l.name.clone();
                push_str(&mut out, ":");
                out
            },
        }
    }
}

// ---------------------------------------------------------------------------
// Functions
// ---------------------------------------------------------------------------

/// The first line of a function: `name(params):`, followed by ` @builtin` when the
/// function stands for a builtin.
pub open spec fn sig_line(sig: FunctionSigView) -> Seq<char> {
    sig.name + "("@ + air_items_text(sig.params) + "):"@ + match sig.builtin {
        Some(b) => " @"@ + builtin_name(b),
        None => seq![],
    }
}

/// A statement's line: labels flush left, operations indented by four spaces.
pub open spec fn stmt_line(s: AirStmt) -> Seq<char> {
    match s {
        AirStmt::Label(_) => stmt_text(s) + "\n"@,
        AirStmt::Op(_) => "    "@ + stmt_text(s) + "\n"@,
    }
}

pub open spec fn stmt_lines(ss: Seq<AirStmt>) -> Seq<char>
    decreases ss.len(),
{
    if ss.len() == 0 {
        seq![]
    } else {
        stmt_lines(ss.drop_last()) + stmt_line(ss.last())
    }
}

/// A function's text: the signature line, then one line per statement.
pub open spec fn function_text(f: AirFunction) -> Seq<char> {
    sig_line(f.sig@) + "\n"@ + stmt_lines(f.items@)
}

/// The functions' texts, each followed by a newline, with an empty line between two.
pub open spec fn functions_text(fs: Seq<AirFunction>) -> Seq<char>
    decreases fs.len(),
{
    if fs.len() == 0 {
        seq![]
    } else {
        functions_text(fs.drop_last()) + (if fs.len() > 1 {
            "\n"@
        } else {
            seq![]
        }) + function_text(fs.last()) + "\n"@
    }
}

impl AirFunction {
    /// The function's text (see `function_text`).
    pub fn to_text(&self) -> (r: String)
        ensures
            r@ == function_text(*self),
    {
        let mut out = self.sig.name.clone();
        push_str(&mut out, "(");
        let params = format_air_items(&self.sig.params);
        push_str(&mut out, params.as_str());
        push_str(&mut out, "):");
        if let Some(b) = self.sig.builtin {
            push_str(&mut out, " @");
            push_str(&mut out, b.name());
        }
        push_str(&mut out, "\n");
        let ghost head = out@;
        let mut i: usize = 0;
        while i < self.items.len()
            invariant
                i <= self.items@.len(),
                out@ == head + stmt_lines(self.items@.take(i as int)),
            decreases self.items@.len() - i,
        {
            proof {
                assert(self.items@.take(i + 1).drop_last() =~= self.items@.take(i as int));
            }
            let text = self.items[i].to_text();
            match &self.items[i] {
                AirStmt::Label(_) => {},
                AirStmt::Op(_) => push_str(&mut out, "    "),
            }
            push_str(&mut out, text.as_str());
            push_str(&mut out, "\n");
            i = i + 1;
        }
        proof {
            assert(self.items@.take(self.items@.len() as int) =~= self.items@);
        }
        out
    }
}

/// The text of the functions (see `functions_text`).
pub fn render_air_functions(functions: &[AirFunction]) -> (r: String)
    ensures
        r@ == functions_text(functions@),
{
    let mut out = String::new();
    let mut i: usize = 0;
    while i < functions.len()
        invariant
            i <= functions@.len(),
            out@ == functions_text(functions@.take(i as int)),
        decreases functions@.len() - i,
    {
        proof {
            assert(functions@.take(i + 1).drop_last() =~= functions@.take(i as int));
        }
        if i > 0 {
            push_str(&mut out, "\n");
        }
        let text = functions[i].to_text();
        push_str(&mut out, text.as_str());
        push_str(&mut out, "\n");
        i = i + 1;
    }
    proof {
        assert(functions@.take(functions@.len() as int) =~= functions@);
    }
    out
}

} // verus!
