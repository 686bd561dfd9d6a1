//! Rendering lowered programs and kinds as rgo source text.

use vstd::prelude::*;

use crate::compiler::hir_ast::{
    self as hir, clone_signature, names_view, Block, BlockItem, Function, ItemView, KindView, LitView,
};
use crate::text::{concat, i64_to_string, int_text, push_char, push_str, quote_source_string, source_quoted};
use crate::{joined_parts, lemma_joined_push};

verus! {

// ---------------------------------------------------------------------------
// Kinds
// ---------------------------------------------------------------------------

/// How a kind is written: `int`, `str!`, `(int, str)`, `list<int>`, a type name, ...
/// Parameter names are left out of tuple signatures.
pub open spec fn kind_text(k: KindView) -> Seq<char>
    decreases k,
{
    match k {
        KindView::Byte => "byte"@,
        KindView::Int => "int"@,
        KindView::Str => "str"@,
        KindView::F64 => "f64"@,
        KindView::CompileTimeInt => "int!"@,
        KindView::CompileTimeStr => "str!"@,
        KindView::Sig(s) => "("@ + item_kinds_text(s.items) + ")"@,
        KindView::Ident(n) => n,
        KindView::Variadic => "..."@,
        KindView::GenericInst(n, args) => n + "<"@ + kinds_text(args) + ">"@,
        KindView::Generic(n) => n,
    }
}

/// The kinds of the items, written and joined by `, `.
pub open spec fn item_kinds_text(items: Seq<ItemView>) -> Seq<char>
    decreases items,
{
    if items.len() == 0 {
        seq![]
    } else if items.len() == 1 {
        kind_text(items[0].kind)
    } else {
        item_kinds_text(items.drop_last()) + ", "@ + kind_text(items.last().kind)
    }
}

/// The kinds, written and joined by `, `.
pub open spec fn kinds_text(ks: Seq<KindView>) -> Seq<char>
    decreases ks,
{
    if ks.len() == 0 {
        seq![]
    } else if ks.len() == 1 {
        kind_text(ks[0])
    } else {
        kinds_text(ks.drop_last()) + ", "@ + kind_text(ks.last())
    }
}

/// Appends `part`, preceded by `, ` unless it is the first part.
pub(crate) fn append_joined(out: &mut String, first: bool, part: &str)
    ensures
        final(out)@ == (if first {
            old(out)@ + part@
        } else {
            old(out)@ + ", "@ + part@
        }),
{
    if !first {
        push_str(out, ", ");
    }
    push_str(out, part);
}

/// How a kind is written (see `kind_text`).
#[verifier::loop_isolation(false)]
pub fn format_sig_kind(kind: &hir::SigKind) -> (r: String)
    ensures
        r@ == kind_text(kind@),
    decreases kind,
{
    match kind {
        hir::SigKind::Byte => "byte".to_string(),
        hir::SigKind::Int => "int".to_string(),
        hir::SigKind::Str => "str".to_string(),
        hir::SigKind::F64 => "f64".to_string(),
        hir::SigKind::CompileTimeInt => "int!".to_string(),
        hir::SigKind::CompileTimeStr => "str!".to_string(),
        hir::SigKind::Sig(inner) => {
            let ghost items = inner@.items;
            proof {
                hir::lemma_view_sig(*inner);
                assert(items.take(0) =~= Seq::<ItemView>::empty());
            }
            let mut entries = String::new();
            let mut i: usize = 0;
            while i < inner.items.len()
                invariant
                    i <= inner.items@.len(),
                    items == inner@.items,
                    entries@ == item_kinds_text(items.take(i as int)),
                decreases inner.items@.len() - i,
            {
                proof {
                    assert(decreases_to!(inner.items@[i as int] => inner.items@[i as int].kind));
                    assert(decreases_to!(inner.items@ => inner.items@[i as int]));
                    assert(decreases_to!(inner.items => inner.items@));
                    assert(decreases_to!(*inner => inner.items));
                    assert(decreases_to!(*kind => *inner));
                    let t = items.take(i + 1);
                    assert(t.drop_last() =~= items.take(i as int));
                    assert(t.last() == items[i as int]);
                    if i == 0 {
                        assert(t[0] == items[0]);
                    }
                }
                let text = format_sig_kind(&inner.items[i].kind);
                append_joined(&mut entries, i == 0, text.as_str());
                i = i + 1;
            }
            proof {
                assert(items.take(inner.items@.len() as int) =~= items);
            }
            let mut out = "(".to_string();
            push_str(&mut out, entries.as_str());
            push_str(&mut out, ")");
            out
        },
        hir::SigKind::Ident(ident) => ident.name.clone(),
        hir::SigKind::Variadic => "...".to_string(),
        hir::SigKind::GenericInst { name, args } => {
            let ghost a = kind@->GenericInst_1;
            proof {
                hir::lemma_view_inst(*name, *args);
                assert(a.take(0) =~= Seq::<KindView>::empty());
            }
            let mut entries = String::new();
            let mut i: usize = 0;
            while i < args.len()
                invariant
                    i <= args@.len(),
                    a == kind@->GenericInst_1,
                    a.len() == args@.len(),
                    entries@ == kinds_text(a.take(i as int)),
                decreases args@.len() - i,
            {
                proof {
                    assert(decreases_to!(args@ => args@[i as int]));
                    assert(decreases_to!(*args => args@));
                    assert(decreases_to!(*kind => *args));
                    let t = a.take(i + 1);
                    assert(t.drop_last() =~= a.take(i as int));
                    assert(t.last() == a[i as int]);
                    if i == 0 {
                        assert(t[0] == a[0]);
                    }
                }
                let text = format_sig_kind(&args[i]);
                append_joined(&mut entries, i == 0, text.as_str());
                i = i + 1;
            }
            proof {
                assert(a.take(args@.len() as int) =~= a);
            }
            let mut out = name.clone();
            push_str(&mut out, "<");
            push_str(&mut out, entries.as_str());
            push_str(&mut out, ">");
            out
        },
        hir::SigKind::Generic(name) => name.clone(),
    }
}

// ---------------------------------------------------------------------------
// Programs
// ---------------------------------------------------------------------------

/// A parameter's kind as written in a parameter list: a `!` is added for a
/// compile-time parameter whose kind text does not end with one already.
pub open spec fn shown_param_kind(p: ItemView) -> Seq<char> {
    let ty = kind_text(p.kind);
    if p.has_bang && !(ty.len() > 0 && ty.last() == '!') {
        ty + "!"@
    } else {
        ty
    }
}

/// A parameter as written in a parameter list: `name: kind`, or `name:(...)` when the
/// kind is a tuple.
pub open spec fn param_entry(p: ItemView) -> Seq<char> {
    let ty = shown_param_kind(p);
    if ty.len() > 0 && ty[0] == '(' {
        p.name + ":"@ + ty
    } else {
        p.name + ": "@ + ty
    }
}

pub open spec fn param_entries(params: Seq<ItemView>) -> Seq<Seq<char>> {
    Seq::new(params.len(), |i: int| param_entry(params[i]))
}

/// A parameter list: the entries, joined by `, ` and put in parentheses.
pub open spec fn param_list_text(params: Seq<ItemView>) -> Seq<char> {
    "("@ + joined_parts(param_entries(params)) + ")"@
}

/// The line that a block item other than a function stands for, without indentation
/// or newline.
pub open spec fn item_line(item: BlockItem) -> Seq<char> {
    match item {
        BlockItem::Import { label, path } => label@ + ": @"@ + path@,
        BlockItem::LitDef { name, literal } => name@ + ": "@ + match literal@ {
            LitView::Str(s) => source_quoted(s),
            LitView::Int(v) => int_text(v as int),
        },
        BlockItem::ClosureDef(c) => c.name@ + ": "@ + c.of@ + "("@ + joined_parts(names_view(c.args@)) + ")"@,
        BlockItem::Exec(e) => e.of@ + "("@ + joined_parts(names_view(e.args@)) + ")"@,
        BlockItem::SigDef { name, sig } => name@ + ": "@ + (if sig.generics@.len() == 0 {
            seq![]
        } else {
            "<"@ + joined_parts(names_view(sig.generics@)) + ">"@
        }) + kind_text(KindView::Sig(sig@)),
        BlockItem::FunctionDef(_) => seq![],
    }
}

/// A function written with every line starting with `indent`: its head
/// `name: (params){`, its body one level deeper, and `}`.
pub open spec fn function_text(f: Function, indent: Seq<char>) -> Seq<char>
    decreases f,
{
    indent + f.name@ + ": "@ + param_list_text(f.sig@.items) + "{\n"@ + items_text(f.body.items@, indent + "    "@)
        + indent + "}\n"@
}

/// The items of a block, each written with `indent` (see `item_text`).
pub open spec fn items_text(items: Seq<BlockItem>, indent: Seq<char>) -> Seq<char>
    decreases items,
{
    if items.len() == 0 {
        seq![]
    } else {
        items_text(items.drop_last(), indent) + item_text(items.last(), indent)
    }
}

/// A block item written with `indent`: a function as `function_text` writes it, any
/// other item as its line.
pub open spec fn item_text(item: BlockItem, indent: Seq<char>) -> Seq<char>
    decreases item,
{
    match item {
        BlockItem::FunctionDef(f) => function_text(f, indent),
        _ => indent + item_line(item) + "\n"@,
    }
}

/// A top-level item of a program: written without indentation, a function followed by
/// an empty line when the next item is a function too.
pub open spec fn top_item_text(items: Seq<BlockItem>, i: int) -> Seq<char> {
    match items[i] {
        BlockItem::FunctionDef(f) => function_text(f, seq![]) + (if i + 1 < items.len() && items[i + 1] is FunctionDef {
            "\n"@
        } else {
            seq![]
        }),
        _ => item_text(items[i], seq![]),
    }
}

/// The first `n` top-level items of a program, written in order.
pub open spec fn rendered_prefix(items: Seq<BlockItem>, n: int) -> Seq<char>
    decreases n,
{
    if n <= 0 {
        seq![]
    } else {
        rendered_prefix(items, n - 1) + top_item_text(items, n - 1)
    }
}

/// The names joined by `, `.
pub(crate) fn join_names(v: &Vec<String>) -> (r: String)
    ensures
        r@ == joined_parts(names_view(v@)),
{
    let ghost names = names_view(v@);
    proof {
        assert(names.take(0) =~= Seq::<Seq<char>>::empty());
    }
    let mut out = String::new();
    let mut i: usize = 0;
    while i < v.len()
        invariant
            i <= v@.len(),
            names == names_view(v@),
            out@ == joined_parts(names.take(i as int)),
        decreases v@.len() - i,
    {
        proof {
            assert(names.take(i + 1) =~= names.take(i as int).push(v@[i as int]@));
            lemma_joined_push(names.take(i as int), v@[i as int]@);
        }
        append_joined(&mut out, i == 0, v[i].as_str());
        i = i + 1;
    }
    proof {
        assert(names.take(v@.len() as int) =~= names);
    }
    out
}

/// The parameter list as `param_list_text` writes it.
fn format_param_list(params: &Vec<hir::SigItem>) -> (r: String)
    ensures
        r@ == param_list_text(hir::items_view(params@)),
{
    let ghost ps = hir::items_view(params@);
    let ghost entries = param_entries(ps);
    proof {
        assert(entries.take(0) =~= Seq::<Seq<char>>::empty());
    }
    let mut joined = String::new();
    let mut i: usize = 0;
    while i < params.len()
        invariant
            i <= params@.len(),
            ps == hir::items_view(params@),
            entries == param_entries(ps),
            joined@ == joined_parts(entries.take(i as int)),
        decreases params@.len() - i,
    {
        let param = &params[i];
        let mut ty = format_sig_kind(&param.kind);
        let n = ty.unicode_len();
        let ends_with_bang = n > 0 && ty.get_char(n - 1) == '!';
        if param.has_bang && !ends_with_bang {
            push_char(&mut ty, '!');
            proof {
                reveal_strlit("!");
                assert(ty@ =~= kind_text(param.kind@) + "!"@);
            }
        }
        assert(ty@ == shown_param_kind(ps[i as int]));
        let mut entry = param.name.clone();
        if ty.unicode_len() > 0 && ty.get_char(0) == '(' {
            push_str(&mut entry, ":");
        } else {
            push_str(&mut entry, ": ");
        }
        push_str(&mut entry, ty.as_str());
        proof {
            assert(entry@ == param_entry(ps[i as int]));
            assert(entries.take(i + 1) =~= entries.take(i as int).push(entry@));
            lemma_joined_push(entries.take(i as int), entry@);
        }
        append_joined(&mut joined, i == 0, entry.as_str());
        i = i + 1;
    }
    proof {
        assert(entries.take(params@.len() as int) =~= entries);
    }
    let mut out = "(".to_string();
    push_str(&mut out, joined.as_str());
    push_str(&mut out, ")");
    out
}

/// Appends the line of a block item other than a function (see `item_line`).
fn write_item_line(item: &BlockItem, out: &mut String)
    ensures
        final(out)@ == old(out)@ + item_line(*item),
{
    match item {
        BlockItem::Import { label, path } => {
            push_str(out, label.as_str());
            push_str(out, ": @");
            push_str(out, path.as_str());
        },
        BlockItem::LitDef { name, literal } => {
            push_str(out, name.as_str());
            push_str(out, ": ");
            match literal {
                hir::Lit::Str(s) => {
                    let q = quote_source_string(s.as_str());
                    push_str(out, q.as_str());
                },
                hir::Lit::Int(v) => {
                    let d = i64_to_string(*v);
                    push_str(out, d.as_str());
                },
            }
        },
        BlockItem::ClosureDef(c) => {
            push_str(out, c.name.as_str());
            push_str(out, ": ");
            push_str(out, c.of.as_str());
            push_str(out, "(");
            let a = join_names(&c.args);
            push_str(out, a.as_str());
            push_str(out, ")");
        },
        BlockItem::Exec(e) => {
            push_str(out, e.of.as_str());
            push_str(out, "(");
            let a = join_names(&e.args);
            push_str(out, a.as_str());
            push_str(out, ")");
        },
        BlockItem::SigDef { name, sig } => {
            push_str(out, name.as_str());
            push_str(out, ": ");
            if sig.generics.len() > 0 {
                push_str(out, "<");
                let g = join_names(&sig.generics);
                push_str(out, g.as_str());
                push_str(out, ">");
            }
            let kind = hir::SigKind::Sig(clone_signature(sig));
            let t = format_sig_kind(&kind);
            push_str(out, t.as_str());
        },
        BlockItem::FunctionDef(_) => {},
    }
}

/// Appends the function written with `indent` (see `function_text`).
fn write_function(f: &Function, out: &mut String, indent: &str)
    ensures
        final(out)@ == old(out)@ + function_text(*f, indent@),
    decreases f,
{
    push_str(out, indent);
    push_str(out, f.name.as_str());
    push_str(out, ": ");
    let params = format_param_list(&f.sig.items);
    proof {
        hir::lemma_view_sig(f.sig);
        assert(hir::items_view(f.sig.items@) =~= f.sig@.items);
    }
    push_str(out, params.as_str());
    push_str(out, "{\n");
    let inner = concat(indent, "    ");
    let ghost head = out@;
    let ghost items = f.body.items@;
    let mut i: usize = 0;
    while i < f.body.items.len()
        invariant
            i <= items.len(),
            items == f.body.items@,
            inner@ == indent@ + "    "@,
            out@ == head + items_text(items.take(i as int), inner@),
        decreases items.len() - i,
    {
        proof {
            assert(items.take(i + 1).drop_last() =~= items.take(i as int));
            assert(decreases_to!(f.body.items@ => f.body.items@[i as int]));
            assert(decreases_to!(f.body.items => f.body.items@));
            assert(decreases_to!(f.body => f.body.items));
            assert(decreases_to!(*f => f.body));
        }
        write_block_item(&f.body.items[i], out, inner.as_str());
        i = i + 1;
    }
    proof {
        assert(items.take(items.len() as int) =~= items);
    }
    push_str(out, indent);
    push_str(out, "}\n");
}

/// Appends the block item written with `indent` (see `item_text`).
fn write_block_item(item: &BlockItem, out: &mut String, indent: &str)
    ensures
        final(out)@ == old(out)@ + item_text(*item, indent@),
    decreases item,
{
    if let BlockItem::FunctionDef(f) = item {
        proof {
            assert(decreases_to!(*item => *f));
        }
        write_function(f, out, indent);
        return;
    }
    push_str(out, indent);
    write_item_line(item, out);
    push_str(out, "\n");
}

/// The program's top-level items as rgo source text: functions with their bodies
/// indented by four spaces per level and separated by empty lines, other items one per
/// line (see `rendered_prefix`).
pub fn render_normalized_rgo(items: &[BlockItem]) -> (r: String)
    ensures
        r@ == rendered_prefix(items@, items@.len() as int),
{
    let mut out = String::new();
    let mut i: usize = 0;
    while i < items.len()
        invariant
            i <= items@.len(),
            out@ == rendered_prefix(items@, i as int),
        decreases items@.len() - i,
    {
        let ghost before = out@;
        match &items[i] {
            BlockItem::FunctionDef(function) => {
                write_function(function, &mut out, "");
                if i + 1 < items.len() && matches!(items[i + 1], BlockItem::FunctionDef(_)) {
                    push_str(&mut out, "\n");
                }
            },
            _ => {
                write_block_item(&items[i], &mut out, "");
            },
        }
        proof {
            reveal_strlit("");
            assert(""@ =~= Seq::<char>::empty());
            assert(out@ == before + top_item_text(items@, i as int));
        }
        i = i + 1;
    }
    out
}

} // verus!
