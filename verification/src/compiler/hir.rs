//! Checks that lowering makes on kinds and arguments: when an argument's kind fits a
//! parameter's (binding generic parameters on the way), whether named types exist, and
//! whether an execution supplies every argument.

use vstd::prelude::*;

use crate::compiler::error::{Code, Error};
use crate::compiler::hir_ast::{
    self as hir, clone_kind, clone_names, kinds_view, names_view, shape, ItemView, KindView,
    SigKind, SigView,
};
use crate::compiler::hir_context::{
    binding_views, clone_entry, contains_name, duplicate_message, duplicate_param_message, find_binding, lookup_in,
    scope_encloses, ContextEntry, Context, EntryView,
};
use crate::compiler::ast;
use crate::compiler::format_hir::{format_sig_kind, kind_text};
use crate::compiler::hir_ast::canon_sig;
use crate::compiler::hir_context::tagged_name;
use crate::compiler::signature::{
    ast_signature_to_hir, hir_signature_to_ast, normalize_sig_kind, normalized_kind, resolve_signature, resolved_sig,
    sig_of_kind,
};
use crate::compiler::span::Span;
use crate::compiler::symbol::{assoc_lookup, kind_bindings};
use crate::text::{push_str, str_eq, usize_to_string, decimal_text};

pub use crate::compiler::hir_lower::Lowerer;

verus! {

// ---------------------------------------------------------------------------
// Canonical kinds: compile-time values as run-time ones
// ---------------------------------------------------------------------------

/// The kind with `int!` and `str!` read as `int` and `str`, at every depth.
pub open spec fn canonical_kind(k: KindView) -> KindView
    decreases k,
{
    match k {
        KindView::CompileTimeInt => KindView::Int,
        KindView::CompileTimeStr => KindView::Str,
        KindView::Sig(s) => KindView::Sig(
            SigView {
                items: Seq::new(
                    s.items.len(),
                    |j: int|
                        if 0 <= j < s.items.len() {
                            ItemView {
                                name: s.items[j].name,
                                kind: canonical_kind(s.items[j].kind),
                                has_bang: s.items[j].has_bang,
                            }
                        } else {
                            ItemView { name: seq![], kind: KindView::Int, has_bang: false }
                        },
                ),
                generics: s.generics,
            },
        ),
        KindView::GenericInst(n, args) => KindView::GenericInst(
            n,
            Seq::new(
                args.len(),
                |j: int|
                    if 0 <= j < args.len() {
                        canonical_kind(args[j])
                    } else {
                        KindView::Int
                    },
            ),
        ),
        other => other,
    }
}

/// The kind with compile-time values read as run-time ones (see `canonical_kind`).
#[verifier::loop_isolation(false)]
pub fn canonicalize_kind(kind: &SigKind) -> (r: SigKind)
    ensures
        r@ == canonical_kind(kind@),
    decreases kind,
{
    match kind {
        SigKind::CompileTimeInt => SigKind::Int,
        SigKind::CompileTimeStr => SigKind::Str,
        SigKind::Sig(signature) => {
            let mut items: Vec<hir::SigItem> = Vec::new();
            let mut i: usize = 0;
            proof {
                hir::lemma_view_sig(*signature);
            }
            while i < signature.items.len()
                invariant
                    i <= signature.items@.len(),
                    items@.len() == i,
                    forall|j: int| 0 <= j < i ==> (#[trigger] items@[j])@ == canonical_kind(kind@)->Sig_0.items[j],
                decreases signature.items@.len() - i,
            {
                proof {
                    assert(decreases_to!(signature.items@[i as int] => signature.items@[i as int].kind));
                    assert(decreases_to!(signature.items@ => signature.items@[i as int]));
                    assert(decreases_to!(signature.items => signature.items@));
                    assert(decreases_to!(*signature => signature.items));
                    assert(decreases_to!(*kind => *signature));
                }
                let item = &signature.items[i];
                let k = canonicalize_kind(&item.kind);
                items.push(hir::SigItem { name: item.name.clone(), kind: k, has_bang: item.has_bang });
                i = i + 1;
            }
            let r = hir::Signature { items, generics: clone_names(&signature.generics) };
            proof {
                hir::lemma_view_sig(r);
                assert(r@.items =~= canonical_kind(kind@)->Sig_0.items);
            }
            SigKind::Sig(r)
        },
        SigKind::GenericInst { name, args } => {
            let mut out: Vec<SigKind> = Vec::new();
            let mut i: usize = 0;
            proof {
                hir::lemma_view_inst(*name, *args);
            }
            while i < args.len()
                invariant
                    i <= args@.len(),
                    out@.len() == i,
                    forall|j: int| 0 <= j < i ==> (#[trigger] out@[j])@ == canonical_kind(args@[j]@),
                decreases args@.len() - i,
            {
                proof {
                    assert(decreases_to!(args@ => args@[i as int]));
                    assert(decreases_to!(*args => args@));
                    assert(decreases_to!(*kind => *args));
                }
                out.push(canonicalize_kind(&args[i]));
                i = i + 1;
            }
            let r = SigKind::GenericInst { name: name.clone(), args: out };
            proof {
                hir::lemma_view_inst(r->name, out);
                assert(r@->GenericInst_1 =~= canonical_kind(kind@)->GenericInst_1);
            }
            r
        },
        other => clone_kind(other),
    }
}

// ---------------------------------------------------------------------------
// Generic kinds
// ---------------------------------------------------------------------------

/// Whether the kind mentions a generic parameter: an unbound one, or a name among the
/// generic parameters in scope.
pub open spec fn has_generic(k: KindView, gens: Seq<Seq<char>>) -> bool
    decreases k,
{
    match k {
        KindView::Generic(_) => true,
        KindView::Ident(n) => gens.contains(n),
        KindView::Sig(s) => items_have_generic(s.items, gens),
        KindView::GenericInst(_, args) => args_have_generic(args, gens),
        _ => false,
    }
}

pub open spec fn items_have_generic(items: Seq<ItemView>, gens: Seq<Seq<char>>) -> bool
    decreases items,
{
    items.len() > 0 && (items_have_generic(items.drop_last(), gens) || has_generic(items.last().kind, gens))
}

pub open spec fn args_have_generic(args: Seq<KindView>, gens: Seq<Seq<char>>) -> bool
    decreases args,
{
    args.len() > 0 && (args_have_generic(args.drop_last(), gens) || has_generic(args.last(), gens))
}

/// Whether the kind mentions a generic parameter (see `has_generic`).
#[verifier::loop_isolation(false)]
pub fn has_generic_kind(kind: &SigKind, active_generics: &Vec<String>) -> (r: bool)
    ensures
        r == has_generic(kind@, names_view(active_generics@)),
    decreases kind,
{
    let ghost gens = names_view(active_generics@);
    match kind {
        SigKind::Generic(_) => true,
        SigKind::Ident(ident) => contains_name(active_generics, ident.name.as_str()),
        SigKind::Sig(signature) => {
            let ghost items = signature@.items;
            proof {
                hir::lemma_view_sig(*signature);
                assert(items.take(0) =~= Seq::<ItemView>::empty());
            }
            let mut i: usize = 0;
            while i < signature.items.len()
                invariant
                    i <= signature.items@.len(),
                    items == signature@.items,
                    !items_have_generic(items.take(i as int), gens),
                decreases signature.items@.len() - i,
            {
                proof {
                    assert(decreases_to!(signature.items@[i as int] => signature.items@[i as int].kind));
                    assert(decreases_to!(signature.items@ => signature.items@[i as int]));
                    assert(decreases_to!(signature.items => signature.items@));
                    assert(decreases_to!(*signature => signature.items));
                    assert(decreases_to!(*kind => *signature));
                    let t = items.take(i + 1);
                    assert(t.drop_last() =~= items.take(i as int));
                    assert(t.last() == items[i as int]);
                }
                if has_generic_kind(&signature.items[i].kind, active_generics) {
                    proof {
                        lemma_items_generic_prefix(items, gens, i + 1);
                    }
                    return true;
                }
                i = i + 1;
            }
            proof {
                assert(items.take(signature.items@.len() as int) =~= items);
            }
            false
        },
        SigKind::GenericInst { name, args } => {
            let ghost a = kind@->GenericInst_1;
            proof {
                hir::lemma_view_inst(*name, *args);
                assert(a.take(0) =~= Seq::<KindView>::empty());
            }
            let mut i: usize = 0;
            while i < args.len()
                invariant
                    i <= args@.len(),
                    a == kind@->GenericInst_1,
                    a.len() == args@.len(),
                    !args_have_generic(a.take(i as int), gens),
                decreases args@.len() - i,
            {
                proof {
                    assert(decreases_to!(args@ => args@[i as int]));
                    assert(decreases_to!(*args => args@));
                    assert(decreases_to!(*kind => *args));
                    let t = a.take(i + 1);
                    assert(t.drop_last() =~= a.take(i as int));
                    assert(t.last() == a[i as int]);
                }
                if has_generic_kind(&args[i], active_generics) {
                    proof {
                        lemma_args_generic_prefix(a, gens, i + 1);
                    }
                    return true;
                }
                i = i + 1;
            }
            proof {
                assert(a.take(args@.len() as int) =~= a);
            }
            false
        },
        _ => false,
    }
}

/// A generic parameter in a prefix is one in the whole.
proof fn lemma_items_generic_prefix(items: Seq<ItemView>, gens: Seq<Seq<char>>, i: int)
    requires
        0 <= i <= items.len(),
        items_have_generic(items.take(i), gens),
    ensures
        items_have_generic(items, gens),
    decreases items.len() - i,
{
    if i < items.len() {
        let t = items.take(i + 1);
        assert(t.drop_last() =~= items.take(i));
        lemma_items_generic_prefix(items, gens, i + 1);
    } else {
        assert(items.take(i) =~= items);
    }
}

proof fn lemma_args_generic_prefix(args: Seq<KindView>, gens: Seq<Seq<char>>, i: int)
    requires
        0 <= i <= args.len(),
        args_have_generic(args.take(i), gens),
    ensures
        args_have_generic(args, gens),
    decreases args.len() - i,
{
    if i < args.len() {
        let t = args.take(i + 1);
        assert(t.drop_last() =~= args.take(i));
        lemma_args_generic_prefix(args, gens, i + 1);
    } else {
        assert(args.take(i) =~= args);
    }
}

// ---------------------------------------------------------------------------
// Kind compatibility
// ---------------------------------------------------------------------------

/// Matching a value of kind `actual` against the generic parameter `name`: a generic
/// parameter matches only itself; any other kind binds `name` the first time (as its
/// canonical kind, or `int` for a compile-time integer) and must agree with that
/// binding afterwards. The result and the bindings afterwards.
pub open spec fn match_generic(
    name: Seq<char>,
    actual: KindView,
    ctint: bool,
    gens: Seq<Seq<char>>,
    b: Seq<(Seq<char>, KindView)>,
) -> (bool, Seq<(Seq<char>, KindView)>) {
    if actual is Ident && gens.contains(actual->Ident_0) {
        (actual->Ident_0 == name, b)
    } else if actual is Generic {
        (actual->Generic_0 == name, b)
    } else {
        let ca = if ctint { KindView::Int } else { canonical_kind(actual) };
        match assoc_lookup(b, name) {
            Some(bound) => (shape(canonical_kind(bound)) == shape(ca), b),
            None => (true, b.push((name, ca))),
        }
    }
}

/// Whether a value of kind `actual` fits a parameter of kind `expected`, with the
/// bindings of generic parameters made so far; the result and the bindings afterwards.
/// Equal kinds fit (parameter names aside); a generic parameter is matched as
/// `match_generic` says; a compile-time parameter takes only a compile-time value; an
/// `f64` takes a compile-time integer; tuple signatures and generic instances fit
/// element by element, left to right, stopping at the first misfit; other kinds fit
/// when their canonical kinds are equal.
pub open spec fn kinds_match(
    actual: KindView,
    expected: KindView,
    ctint: bool,
    gens: Seq<Seq<char>>,
    b: Seq<(Seq<char>, KindView)>,
) -> (bool, Seq<(Seq<char>, KindView)>)
    decreases expected,
{
    if shape(expected) == shape(actual) {
        (true, b)
    } else if expected is Generic {
        match_generic(expected->Generic_0, actual, ctint, gens, b)
    } else if expected is Ident && gens.contains(expected->Ident_0) {
        match_generic(expected->Ident_0, actual, ctint, gens, b)
    } else {
        match expected {
            KindView::CompileTimeInt => (actual is CompileTimeInt, b),
            KindView::CompileTimeStr => (actual is CompileTimeStr, b),
            KindView::Sig(es) => if actual is Sig && actual->Sig_0.items.len() == es.items.len() {
                items_match(actual->Sig_0.items, es.items, gens, b)
            } else {
                (false, b)
            },
            KindView::GenericInst(en, eargs) => if actual is GenericInst && actual->GenericInst_0 == en
                && actual->GenericInst_1.len() == eargs.len() {
                args_match(actual->GenericInst_1, eargs, gens, b)
            } else {
                (false, b)
            },
            _ => if expected is F64 && ctint {
                (true, b)
            } else {
                (shape(canonical_kind(actual)) == shape(canonical_kind(expected)), b)
            },
        }
    }
}

pub open spec fn items_match(
    a: Seq<ItemView>,
    e: Seq<ItemView>,
    gens: Seq<Seq<char>>,
    b: Seq<(Seq<char>, KindView)>,
) -> (bool, Seq<(Seq<char>, KindView)>)
    decreases e,
{
    if e.len() == 0 || a.len() == 0 {
        (true, b)
    } else {
        let r = kinds_match(a[0].kind, e[0].kind, false, gens, b);
        if !r.0 {
            (false, r.1)
        } else {
            items_match(a.drop_first(), e.drop_first(), gens, r.1)
        }
    }
}

pub open spec fn args_match(
    a: Seq<KindView>,
    e: Seq<KindView>,
    gens: Seq<Seq<char>>,
    b: Seq<(Seq<char>, KindView)>,
) -> (bool, Seq<(Seq<char>, KindView)>)
    decreases e,
{
    if e.len() == 0 || a.len() == 0 {
        (true, b)
    } else {
        let r = kinds_match(a[0], e[0], false, gens, b);
        if !r.0 {
            (false, r.1)
        } else {
            args_match(a.drop_first(), e.drop_first(), gens, r.1)
        }
    }
}

/// The position of the last binding of `key`.
fn find_binding_kind(s: &Vec<(String, SigKind)>, key: &str) -> (r: Option<usize>)
    ensures
        match r {
            Some(i) => i < s@.len() && assoc_lookup(kind_bindings(s@), key@) == Some(s@[i as int].1@),
            None => assoc_lookup(kind_bindings(s@), key@) is None,
        },
{
    let ghost v = kind_bindings(s@);
    let mut i: usize = s.len();
    proof {
        assert(v.take(v.len() as int) =~= v);
    }
    while i > 0
        invariant
            i <= s@.len(),
            v == kind_bindings(s@),
            assoc_lookup(v, key@) == assoc_lookup(v.take(i as int), key@),
        decreases i,
    {
        proof {
            assert(v.take(i as int).drop_last() =~= v.take(i - 1));
        }
        if str_eq(s[i - 1].0.as_str(), key) {
            return Some(i - 1);
        }
        i = i - 1;
    }
    proof {
        assert(v.take(0) =~= Seq::<(Seq<char>, KindView)>::empty());
    }
    None
}

/// Matches a value of kind `actual` against the generic parameter `name` (see
/// `match_generic`), recording a new binding in `generic_bindings`.
pub fn match_generic_kind(
    name: &str,
    actual: &SigKind,
    actual_is_compile_time_int: bool,
    active_generics: &Vec<String>,
    generic_bindings: &mut Vec<(String, SigKind)>,
) -> (r: bool)
    ensures
        (r, kind_bindings(final(generic_bindings)@)) == match_generic(
            name@,
            actual@,
            actual_is_compile_time_int,
            names_view(active_generics@),
            kind_bindings(old(generic_bindings)@),
        ),
{
    if let SigKind::Ident(actual_ident) = actual {
        if contains_name(active_generics, actual_ident.name.as_str()) {
            return str_eq(actual_ident.name.as_str(), name);
        }
    }
    if let SigKind::Generic(actual_name) = actual {
        return str_eq(actual_name.as_str(), name);
    }
    let canonical_actual = if actual_is_compile_time_int {
        SigKind::Int
    } else {
        canonicalize_kind(actual)
    };
    match find_binding_kind(generic_bindings, name) {
        Some(i) => {
            let bound = canonicalize_kind(&generic_bindings[i].1);
            hir::kind_eq(&bound, &canonical_actual)
        },
        None => {
            let ghost ca = canonical_actual@;
            generic_bindings.push((name.to_string(), canonical_actual));
            proof {
                assert(kind_bindings(generic_bindings@) =~= kind_bindings(old(generic_bindings)@).push((name@, ca)));
            }
            true
        },
    }
}

/// Whether a value of kind `actual` fits a parameter of kind `expected` (see
/// `kinds_match`), recording the generic bindings that the match makes.
#[verifier::loop_isolation(false)]
pub fn kind_matches(
    actual: &SigKind,
    expected: &SigKind,
    actual_is_compile_time_int: bool,
    active_generics: &Vec<String>,
    generic_bindings: &mut Vec<(String, SigKind)>,
) -> (r: bool)
    ensures
        (r, kind_bindings(final(generic_bindings)@)) == kinds_match(
            actual@,
            expected@,
            actual_is_compile_time_int,
            names_view(active_generics@),
            kind_bindings(old(generic_bindings)@),
        ),
    decreases expected,
{
    let ghost gens = names_view(active_generics@);
    if hir::kind_eq(expected, actual) {
        return true;
    }
    if let SigKind::Generic(name) = expected {
        return match_generic_kind(name.as_str(), actual, actual_is_compile_time_int, active_generics, generic_bindings);
    }
    if let SigKind::Ident(ident) = expected {
        if contains_name(active_generics, ident.name.as_str()) {
            return match_generic_kind(
                ident.name.as_str(),
                actual,
                actual_is_compile_time_int,
                active_generics,
                generic_bindings,
            );
        }
    }
    match expected {
        SigKind::CompileTimeInt => matches!(actual, SigKind::CompileTimeInt),
        SigKind::CompileTimeStr => matches!(actual, SigKind::CompileTimeStr),
        SigKind::Sig(expected_sig) => {
            let actual_sig = match actual {
                SigKind::Sig(s) => s,
                _ => {
                    return false;
                },
            };
            proof {
                hir::lemma_view_sig(*expected_sig);
                hir::lemma_view_sig(*actual_sig);
            }
            if actual_sig.items.len() != expected_sig.items.len() {
                return false;
            }
            let ghost a = actual_sig@.items;
            let ghost e = expected_sig@.items;
            let ghost b0 = kind_bindings(generic_bindings@);
            let mut i: usize = 0;
            proof {
                assert(a.skip(0) =~= a);
                assert(e.skip(0) =~= e);
            }
            while i < expected_sig.items.len()
                invariant
                    i <= expected_sig.items@.len(),
                    a.len() == e.len(),
                    e.len() == expected_sig.items@.len(),
                    a == actual_sig@.items,
                    e == expected_sig@.items,
                    items_match(a, e, gens, b0) == items_match(a.skip(i as int), e.skip(i as int), gens, kind_bindings(generic_bindings@)),
                decreases expected_sig.items@.len() - i,
            {
                proof {
                    assert(decreases_to!(expected_sig.items@[i as int] => expected_sig.items@[i as int].kind));
                    assert(decreases_to!(expected_sig.items@ => expected_sig.items@[i as int]));
                    assert(decreases_to!(expected_sig.items => expected_sig.items@));
                    assert(decreases_to!(*expected_sig => expected_sig.items));
                    assert(decreases_to!(*expected => *expected_sig));
                    assert(a.skip(i as int)[0] == a[i as int]);
                    assert(e.skip(i as int)[0] == e[i as int]);
                    assert(a.skip(i as int).drop_first() =~= a.skip(i + 1));
                    assert(e.skip(i as int).drop_first() =~= e.skip(i + 1));
                }
                let ok = kind_matches(
                    &actual_sig.items[i].kind,
                    &expected_sig.items[i].kind,
                    false,
                    active_generics,
                    generic_bindings,
                );
                if !ok {
                    return false;
                }
                i = i + 1;
            }
            true
        },
        SigKind::GenericInst { name: expected_name, args: expected_args } => {
            let (actual_name, actual_args) = match actual {
                SigKind::GenericInst { name, args } => (name, args),
                _ => {
                    return false;
                },
            };
            proof {
                hir::lemma_view_inst(*expected_name, *expected_args);
                hir::lemma_view_inst(*actual_name, *actual_args);
            }
            if !str_eq(expected_name.as_str(), actual_name.as_str()) || expected_args.len() != actual_args.len() {
                return false;
            }
            let ghost a = actual@->GenericInst_1;
            let ghost e = expected@->GenericInst_1;
            let ghost b0 = kind_bindings(generic_bindings@);
            let mut i: usize = 0;
            proof {
                assert(a.skip(0) =~= a);
                assert(e.skip(0) =~= e);
            }
            while i < expected_args.len()
                invariant
                    i <= expected_args@.len(),
                    a.len() == e.len(),
                    e.len() == expected_args@.len(),
                    a == actual@->GenericInst_1,
                    e == expected@->GenericInst_1,
                    args_match(a, e, gens, b0) == args_match(a.skip(i as int), e.skip(i as int), gens, kind_bindings(generic_bindings@)),
                decreases expected_args@.len() - i,
            {
                proof {
                    assert(decreases_to!(expected_args@ => expected_args@[i as int]));
                    assert(decreases_to!(*expected_args => expected_args@));
                    assert(decreases_to!(*expected => *expected_args));
                    assert(a.skip(i as int)[0] == a[i as int]);
                    assert(e.skip(i as int)[0] == e[i as int]);
                    assert(a.skip(i as int).drop_first() =~= a.skip(i + 1));
                    assert(e.skip(i as int).drop_first() =~= e.skip(i + 1));
                }
                let ok = kind_matches(&actual_args[i], &expected_args[i], false, active_generics, generic_bindings);
                if !ok {
                    return false;
                }
                i = i + 1;
            }
            true
        },
        _ => {
            if matches!(expected, SigKind::F64) && actual_is_compile_time_int {
                return true;
            }
            let ca = canonicalize_kind(actual);
            let ce = canonicalize_kind(expected);
            hir::kind_eq(&ca, &ce)
        },
    }
}

// ---------------------------------------------------------------------------
// Named types and argument counts
// ---------------------------------------------------------------------------

/// The first type name in the kind (in writing order) that is neither a generic
/// parameter in scope nor bound in the context.
pub open spec fn missing_type(b: Seq<(Seq<char>, EntryView)>, gens: Seq<Seq<char>>, k: KindView) -> Option<Seq<char>>
    decreases k,
{
    match k {
        KindView::Ident(n) => if gens.contains(n) {
            None
        } else if lookup_in(b, n) is None {
            Some(n)
        } else {
            None
        },
        KindView::Sig(s) => missing_in_items(b, gens, s.items),
        KindView::GenericInst(n, args) => if lookup_in(b, n) is None {
            Some(n)
        } else {
            missing_in_args(b, gens, args)
        },
        _ => None,
    }
}

pub open spec fn missing_in_items(b: Seq<(Seq<char>, EntryView)>, gens: Seq<Seq<char>>, items: Seq<ItemView>) -> Option<Seq<char>>
    decreases items,
{
    if items.len() == 0 {
        None
    } else {
        match missing_type(b, gens, items[0].kind) {
            Some(n) => Some(n),
            None => missing_in_items(b, gens, items.drop_first()),
        }
    }
}

pub open spec fn missing_in_args(b: Seq<(Seq<char>, EntryView)>, gens: Seq<Seq<char>>, args: Seq<KindView>) -> Option<Seq<char>>
    decreases args,
{
    if args.len() == 0 {
        None
    } else {
        match missing_type(b, gens, args[0]) {
            Some(n) => Some(n),
            None => missing_in_args(b, gens, args.drop_first()),
        }
    }
}

pub open spec fn undefined_type_message(n: Seq<char>) -> Seq<char> {
    "type `"@ + n + "` is not defined"@
}

fn undefined_type(name: &str) -> (e: Error)
    ensures
        e.code == Code::HIR,
        e.message@ == undefined_type_message(name@),
        e.span == Span::spec_unknown(),
{
    let mut m = "type `".to_string();
    push_str(&mut m, name);
    push_str(&mut m, "` is not defined");
    Error::new(Code::HIR, m, Span::unknown())
}

/// Checks that every type name in the kind is a generic parameter in scope or bound in
/// the context; the first one that is not is an error.
#[verifier::loop_isolation(false)]
pub fn ensure_sig_kind_exists(ctx: &Context, kind: &SigKind, active_generics: &Vec<String>) -> (r: Result<(), Error>)
    ensures
        match missing_type(ctx.bindings(), names_view(active_generics@), kind@) {
            Some(n) => r matches Err(e) && e.code == Code::HIR && e.message@ == undefined_type_message(n)
                && e.span == Span::spec_unknown(),
            None => r is Ok,
        },
    decreases kind,
{
    let ghost gens = names_view(active_generics@);
    let ghost b = ctx.bindings();
    match kind {
        SigKind::Ident(ident) => {
            if contains_name(active_generics, ident.name.as_str()) {
                return Ok(());
            }
            if ctx.get(ident.name.as_str()).is_none() {
                return Err(undefined_type(ident.name.as_str()));
            }
            Ok(())
        },
        SigKind::Sig(signature) => {
            let ghost items = signature@.items;
            proof {
                hir::lemma_view_sig(*signature);
                assert(items.skip(0) =~= items);
            }
            let mut i: usize = 0;
            while i < signature.items.len()
                invariant
                    i <= signature.items@.len(),
                    items == signature@.items,
                    missing_in_items(b, gens, items) == missing_in_items(b, gens, items.skip(i as int)),
                decreases signature.items@.len() - i,
            {
                proof {
                    assert(decreases_to!(signature.items@[i as int] => signature.items@[i as int].kind));
                    assert(decreases_to!(signature.items@ => signature.items@[i as int]));
                    assert(decreases_to!(signature.items => signature.items@));
                    assert(decreases_to!(*signature => signature.items));
                    assert(decreases_to!(*kind => *signature));
                    assert(items.skip(i as int)[0] == items[i as int]);
                    assert(items.skip(i as int).drop_first() =~= items.skip(i + 1));
                }
                ensure_sig_kind_exists(ctx, &signature.items[i].kind, active_generics)?;
                i = i + 1;
            }
            Ok(())
        },
        SigKind::GenericInst { name, args } => {
            if ctx.get(name.as_str()).is_none() {
                return Err(undefined_type(name.as_str()));
            }
            let ghost a = kind@->GenericInst_1;
            proof {
                hir::lemma_view_inst(*name, *args);
                assert(a.skip(0) =~= a);
            }
            let mut i: usize = 0;
            while i < args.len()
                invariant
                    i <= args@.len(),
                    a == kind@->GenericInst_1,
                    a.len() == args@.len(),
                    missing_in_args(b, gens, a) == missing_in_args(b, gens, a.skip(i as int)),
                decreases args@.len() - i,
            {
                proof {
                    assert(decreases_to!(args@ => args@[i as int]));
                    assert(decreases_to!(*args => args@));
                    assert(decreases_to!(*kind => *args));
                    assert(a.skip(i as int)[0] == a[i as int]);
                    assert(a.skip(i as int).drop_first() =~= a.skip(i + 1));
                }
                ensure_sig_kind_exists(ctx, &args[i], active_generics)?;
                i = i + 1;
            }
            Ok(())
        },
        _ => Ok(()),
    }
}

/// The number of arguments an execution must supply: one per capture and one per
/// parameter, a variadic parameter not counted.
pub fn required_exec_arg_count(signature: &hir::Signature, capture_count: usize) -> (r: usize)
    requires
        capture_count + signature.items@.len() <= usize::MAX,
    ensures
        r == capture_count + (if exists|j: int| 0 <= j < signature.items@.len() && (#[trigger] signature.items@[j]).kind is Variadic {
            signature.items@.len() - 1
        } else {
            signature.items@.len() as int
        }),
{
    let mut is_variadic = false;
    let mut i: usize = 0;
    while i < signature.items.len()
        invariant
            i <= signature.items@.len(),
            is_variadic == exists|j: int| 0 <= j < i && (#[trigger] signature.items@[j]).kind is Variadic,
        decreases signature.items@.len() - i,
    {
        if matches!(signature.items[i].kind, SigKind::Variadic) {
            is_variadic = true;
        }
        i = i + 1;
    }
    let param_count = if is_variadic { signature.items.len() - 1 } else { signature.items.len() };
    capture_count + param_count
}

pub open spec fn incomplete_exec_message(name: Seq<char>, required: nat, got: nat) -> Seq<char> {
    "cannot execute function '"@ + name + "': not all args have been provided (expected at least "@
        + decimal_text(required) + ", got "@ + decimal_text(got) + ")"@
}

/// Checks that an execution of `target` with `arg_count` arguments supplies every
/// argument that its signature (when one is known) requires.
pub fn ensure_exec_args_complete(ctx: &Context, target: &ContextEntry, arg_count: usize) -> (r: Result<(), Error>)
    requires
        forall|s: SigView| sig_of_kind(ctx.bindings(), seq![], target@.kind) == Some(s) ==> target.captures@.len()
            + s.items.len() <= usize::MAX,
    ensures
        match sig_of_kind(ctx.bindings(), seq![], target@.kind) {
            Some(s) => {
                let variadic = exists|j: int| 0 <= j < s.items.len() && (#[trigger] s.items[j]).kind is Variadic;
                let required = target.captures@.len() + (if variadic { s.items.len() - 1 } else { s.items.len() as int });
                if arg_count >= required {
                    r is Ok
                } else {
                    r matches Err(e) && e.code == Code::HIR && e.message@ == incomplete_exec_message(
                        target.name@,
                        required as nat,
                        arg_count as nat,
                    )
                }
            },
            None => r is Ok,
        },
{
    let mut seen: Vec<String> = Vec::new();
    proof {
        assert(names_view(seen@) =~= Seq::<Seq<char>>::empty());
    }
    let signature = match crate::compiler::signature::signature_from_kind(&target.kind, ctx, &mut seen) {
        Some(s) => s,
        None => {
            return Ok(());
        },
    };
    proof {
        hir::lemma_view_sig(signature);
        assert forall|j: int| 0 <= j < signature.items@.len() implies ((#[trigger] signature.items@[j]).kind is Variadic
            <==> signature@.items[j].kind is Variadic) by {
            assert(signature@.items[j] == signature.items@[j]@);
        }
    }
    let required_count = required_exec_arg_count(&signature, target.captures.len());
    if arg_count >= required_count {
        return Ok(());
    }
    let mut m = "cannot execute function '".to_string();
    push_str(&mut m, target.name.as_str());
    push_str(&mut m, "': not all args have been provided (expected at least ");
    push_str(&mut m, usize_to_string(required_count).as_str());
    push_str(&mut m, ", got ");
    push_str(&mut m, usize_to_string(arg_count).as_str());
    push_str(&mut m, ")");
    Err(Error::new(Code::HIR, m, Span::unknown()))
}

/// The first parameter position below `param_count` that is not among `assigned`.
pub fn first_unassigned_param(param_count: usize, assigned: &Vec<usize>) -> (r: Option<usize>)
    ensures
        match r {
            Some(i) => i < param_count && !assigned@.contains(i) && forall|j: usize| j < i ==> assigned@.contains(j),
            None => forall|j: usize| j < param_count ==> assigned@.contains(j),
        },
{
    let mut i: usize = 0;
    while i < param_count
        invariant
            i <= param_count,
            forall|j: usize| j < i ==> assigned@.contains(j),
        decreases param_count - i,
    {
        let mut found = false;
        let mut k: usize = 0;
        while k < assigned.len()
            invariant
                k <= assigned@.len(),
                found == exists|m: int| 0 <= m < k && assigned@[m] == i,
            decreases assigned@.len() - k,
        {
            if assigned[k] == i {
                found = true;
            }
            k = k + 1;
        }
        if !found {
            return Some(i);
        }
        i = i + 1;
    }
    None
}

/// The generic parameters of the function whose scope this is.
pub fn current_scope_generics(ctx: &Context) -> (r: Vec<String>)
    ensures
        names_view(r@) == (match ctx.lookup(ctx.name@) {
            Some(e) => match e.kind {
                KindView::Sig(s) => s.generics,
                _ => seq![],
            },
            None => seq![],
        }),
{
    if let Some(entry) = ctx.get(ctx.name.as_str()) {
        if let SigKind::Sig(signature) = &entry.kind {
            proof {
                hir::lemma_view_sig(*signature);
            }
            return clone_names(&signature.generics);
        }
    }
    let r: Vec<String> = Vec::new();
    proof {
        assert(names_view(r@) =~= Seq::<Seq<char>>::empty());
    }
    r
}

// ---------------------------------------------------------------------------
// Scopes
// ---------------------------------------------------------------------------

pub open spec fn undefined_name_message(n: Seq<char>) -> Seq<char> {
    "`"@ + n + "` is not defined"@
}

/// The entry that a parameter added for a capture of `e` gets.
pub open spec fn capture_entry(e: EntryView, kind: KindView, scope: Seq<Seq<char>>) -> EntryView {
    EntryView {
        name: e.name,
        kind,
        is_builtin: false,
        is_root: false,
        is_param: true,
        is_capture: true,
        span: e.span,
        scope,
        captures: seq![],
    }
}

/// Makes `name` available in the current scope: when it is not bound there but in an
/// enclosing function's scope (and is neither a builtin nor a root definition seen
/// from a root function), it becomes a captured parameter, with its kind normalized.
/// A name bound nowhere is an error.
pub fn maybe_capture_name(ctx: &mut Context, name: &str) -> (r: Result<(), Error>)
    requires
        old(ctx).counter < usize::MAX,
    ensures
        match old(ctx).inner_lookup(name@) {
            Some(_) => r is Ok && *final(ctx) == *old(ctx),
            None => match lookup_in(binding_views(old(ctx).outer@), name@) {
                None => r matches Err(e) && e.code == Code::HIR && e.message@ == undefined_name_message(name@)
                    && *final(ctx) == *old(ctx),
                Some(e) => if e.is_builtin || !scope_encloses(e.scope, old(ctx).scope_names()) || (e.is_root
                    && old(ctx).is_root_fn) {
                    r is Ok && *final(ctx) == *old(ctx)
                } else {
                    match old(ctx).inner_lookup(e.name) {
                        Some(_) => r matches Err(err) && err.code == Code::Resolve && err.message@
                            == duplicate_param_message(e.name),
                        None => {
                            &&& r is Ok
                            &&& binding_views(final(ctx).inner@) == binding_views(old(ctx).inner@).push((
                                e.name,
                                capture_entry(
                                    e,
                                    normalized_kind(old(ctx).bindings(), seq![], e.kind),
                                    old(ctx).scope_names(),
                                ),
                            ))
                            &&& final(ctx).param_names() == old(ctx).param_names().push(e.name)
                            &&& final(ctx).outer == old(ctx).outer
                            &&& final(ctx).counter == old(ctx).counter
                        },
                    }
                },
            },
        },
{
    if find_binding(&ctx.inner, name).is_some() {
        return Ok(());
    }
    let entry = match find_binding(&ctx.outer, name) {
        Some(i) => clone_entry(&ctx.outer[i].1),
        None => {
            let mut m = "`".to_string();
            push_str(&mut m, name);
            push_str(&mut m, "` is not defined");
            return Err(Error::new(Code::HIR, m, Span::unknown()));
        },
    };
    if entry.is_builtin {
        return Ok(());
    }
    if !ctx.is_scope_ancestor(&entry) {
        return Ok(());
    }
    if entry.is_root && ctx.is_root_fn {
        return Ok(());
    }
    let normalized_ty = normalize_sig_kind(&entry.kind, ctx);
    ctx.add_param(entry.name.as_str(), normalized_ty, entry.span, true)
}

/// The binding of a generic parameter as a placeholder type.
pub open spec fn placeholder_binding(g: Seq<char>, scope: Seq<Seq<char>>) -> (Seq<char>, EntryView) {
    (
        g,
        EntryView {
            name: g,
            kind: KindView::Generic(g),
            is_builtin: false,
            is_root: true,
            is_param: false,
            is_capture: false,
            span: Span::spec_unknown(),
            scope,
            captures: seq![],
        },
    )
}

pub open spec fn placeholder_bindings(gs: Seq<Seq<char>>, scope: Seq<Seq<char>>) -> Seq<(Seq<char>, EntryView)> {
    Seq::new(gs.len(), |i: int| placeholder_binding(gs[i], scope))
}

/// The first position from `i` on whose generic parameter is bound already when the
/// ones before it have been added.
pub open spec fn first_clash_from(
    inner0: Seq<(Seq<char>, EntryView)>,
    gs: Seq<Seq<char>>,
    scope: Seq<Seq<char>>,
    i: int,
) -> Option<int>
    decreases gs.len() - i,
{
    if i < 0 || i >= gs.len() {
        None
    } else if lookup_in(inner0 + placeholder_bindings(gs.take(i), scope), gs[i]) is Some {
        Some(i)
    } else {
        first_clash_from(inner0, gs, scope, i + 1)
    }
}

/// Binds each generic parameter as a placeholder type in the current scope, in order;
/// the first that the scope binds already (or that came before) is an error, and the
/// ones before it stay bound.
pub fn register_generic_placeholders(ctx: &mut Context, generics: &Vec<String>) -> (r: Result<(), Error>)
    ensures
        ({
            let gs = names_view(generics@);
            let inner0 = binding_views(old(ctx).inner@);
            let scope = old(ctx).scope_names();
            match first_clash_from(inner0, gs, scope, 0) {
                None => r is Ok && binding_views(final(ctx).inner@) == inner0 + placeholder_bindings(gs, scope),
                Some(k) => r matches Err(e) && e.code == Code::Resolve && e.message@ == duplicate_message(gs[k])
                    && binding_views(final(ctx).inner@) == inner0 + placeholder_bindings(gs.take(k), scope),
            }
        }),
        final(ctx).outer == old(ctx).outer,
        final(ctx).scope_stack == old(ctx).scope_stack,
        final(ctx).counter == old(ctx).counter,
        final(ctx).ns == old(ctx).ns,
        final(ctx).params == old(ctx).params,
{
    let ghost gs = names_view(generics@);
    let ghost inner0 = binding_views(ctx.inner@);
    let ghost scope = ctx.scope_names();
    let ghost c0 = *ctx;
    let mut i: usize = 0;
    let mut failure: Option<Error> = None;
    proof {
        assert(placeholder_bindings(gs.take(0), scope) =~= Seq::<(Seq<char>, EntryView)>::empty());
        assert(inner0 + placeholder_bindings(gs.take(0), scope) =~= inner0);
    }
    while i < generics.len()
        invariant_except_break
            failure is None,
        invariant
            i <= generics@.len(),
            gs == names_view(generics@),
            scope == ctx.scope_names(),
            binding_views(ctx.inner@) == inner0 + placeholder_bindings(gs.take(i as int), scope),
            ctx.outer == c0.outer,
            ctx.scope_stack == c0.scope_stack,
            ctx.counter == c0.counter,
            ctx.ns == c0.ns,
            ctx.params == c0.params,
            failure is None ==> first_clash_from(inner0, gs, scope, 0) == first_clash_from(inner0, gs, scope, i as int),
            failure matches Some(e) ==> first_clash_from(inner0, gs, scope, 0) == Some(i as int) && e.code == Code::Resolve
                && e.message@ == duplicate_message(gs[i as int]),
        ensures
            failure is None ==> i == generics@.len() && first_clash_from(inner0, gs, scope, 0) is None,
        decreases generics@.len() - i,
    {
        let g = &generics[i];
        let ghost before = *ctx;
        let ghost bound = lookup_in(inner0 + placeholder_bindings(gs.take(i as int), scope), gs[i as int]);
        proof {
            assert(gs[i as int] == g@);
            assert(before.inner_lookup(g@) == bound);
        }
        let res = ctx.add_type(g.as_str(), g.as_str(), SigKind::Generic(g.clone()), Span::unknown(), false);
        match res {
            Ok(()) => {
                proof {
                    assert(bound is None);
                    let ph = placeholder_bindings(gs.take(i as int), scope);
                    assert(placeholder_bindings(gs.take(i + 1), scope) =~= ph.push(placeholder_binding(gs[i as int], scope)));
                    assert(inner0 + ph.push(placeholder_binding(gs[i as int], scope)) =~= (inner0 + ph).push(
                        placeholder_binding(gs[i as int], scope),
                    ));
                }
                i = i + 1;
            },
            Err(e) => {
                proof {
                    assert(bound is Some);
                }
                failure = Some(e);
                break;
            },
        }
    }
    match failure {
        Some(e) => Err(e),
        None => {
            proof {
                assert(gs.take(generics@.len() as int) =~= gs);
            }
            Ok(())
        },
    }
}

// ---------------------------------------------------------------------------
// Parameter names and argument kinds
// ---------------------------------------------------------------------------

/// The items with a fresh name `_{n}_{ns}` for each unnamed one, left to right; the
/// items and the next fresh-name number.
pub open spec fn named_items(ns: Seq<char>, c: nat, items: Seq<ItemView>) -> (Seq<ItemView>, nat)
    decreases items.len(),
{
    if items.len() == 0 {
        (seq![], c)
    } else {
        let p = named_items(ns, c, items.drop_last());
        let it = items.last();
        if it.name.len() == 0 {
            (p.0.push(ItemView { name: tagged_name(p.1, ns), kind: it.kind, has_bang: it.has_bang }), p.1 + 1)
        } else {
            (p.0.push(it), p.1)
        }
    }
}

proof fn lemma_named_items_monotone(ns: Seq<char>, c: nat, items: Seq<ItemView>)
    ensures
        c <= named_items(ns, c, items).1,
    decreases items.len(),
{
    if items.len() > 0 {
        lemma_named_items_monotone(ns, c, items.drop_last());
    }
}

proof fn lemma_named_items_counts_up(ns: Seq<char>, c: nat, items: Seq<ItemView>, i: int)
    requires
        0 <= i <= items.len(),
    ensures
        c <= named_items(ns, c, items.take(i)).1 <= named_items(ns, c, items).1,
    decreases items.len() - i,
{
    lemma_named_items_monotone(ns, c, items.take(i));
    if i < items.len() {
        lemma_named_items_counts_up(ns, c, items, i + 1);
        assert(items.take(i + 1).drop_last() =~= items.take(i));
    } else {
        assert(items.take(i) =~= items);
    }
}

/// Naming keeps the number of items.
pub proof fn lemma_named_items_len(ns: Seq<char>, c: nat, items: Seq<ItemView>)
    ensures
        named_items(ns, c, items).0.len() == items.len(),
    decreases items.len(),
{
    if items.len() > 0 {
        lemma_named_items_len(ns, c, items.drop_last());
    }
}

/// Naming the items takes at most one fresh name per item.
pub proof fn lemma_named_items_bound(ns: Seq<char>, c: nat, items: Seq<ItemView>)
    ensures
        named_items(ns, c, items).1 <= c + items.len(),
    decreases items.len(),
{
    if items.len() > 0 {
        lemma_named_items_bound(ns, c, items.drop_last());
    }
}

/// The parsed form of the signature with every unnamed parameter given a fresh name
/// (see `named_items`).
pub fn ensure_param_names(ctx: &mut Context, expected_sig: &hir::Signature) -> (r: ast::Signature)
    requires
        named_items(old(ctx).ns@, old(ctx).counter as nat, expected_sig@.items).1 <= usize::MAX,
    ensures
        ({
            let n = named_items(old(ctx).ns@, old(ctx).counter as nat, expected_sig@.items);
            &&& r@ == (SigView { items: n.0, generics: expected_sig@.generics })
            &&& r.span == Span::spec_unknown()
            &&& *final(ctx) == (Context { counter: n.1 as usize, ..*old(ctx) })
        }),
{
    let ghost c0 = ctx.counter as nat;
    let ghost before = *ctx;
    let ghost ns = ctx.ns@;
    let ghost its = expected_sig@.items;
    proof {
        hir::lemma_view_sig(*expected_sig);
        assert(its.take(0) =~= Seq::<ItemView>::empty());
        assert(hir::items_view(Seq::<hir::SigItem>::empty()) =~= Seq::<ItemView>::empty());
    }
    let mut items: Vec<hir::SigItem> = Vec::new();
    let mut i: usize = 0;
    while i < expected_sig.items.len()
        invariant
            i <= expected_sig.items@.len(),
            its == expected_sig@.items,
            ns == ctx.ns@,
            named_items(ns, c0, its).1 <= usize::MAX,
            hir::items_view(items@) == named_items(ns, c0, its.take(i as int)).0,
            *ctx == (Context { counter: named_items(ns, c0, its.take(i as int)).1 as usize, ..before }),
        decreases expected_sig.items@.len() - i,
    {
        proof {
            let t = its.take(i + 1);
            assert(t.drop_last() =~= its.take(i as int));
            assert(t.last() == expected_sig.items@[i as int]@);
            lemma_named_items_counts_up(ns, c0, its, i + 1);
            lemma_named_items_counts_up(ns, c0, its, i as int);
        }
        let item = &expected_sig.items[i];
        let param_name = if item.name.unicode_len() == 0 {
            ctx.new_name()
        } else {
            item.name.clone()
        };
        let new_item = hir::SigItem { name: param_name, kind: clone_kind(&item.kind), has_bang: item.has_bang };
        let ghost prev = items@;
        items.push(new_item);
        proof {
            assert(hir::items_view(items@) =~= hir::items_view(prev).push(new_item@));
        }
        i = i + 1;
    }
    proof {
        assert(its.take(expected_sig.items@.len() as int) =~= its);
    }
    let named = hir::Signature { items, generics: clone_names(&expected_sig.generics) };
    proof {
        hir::lemma_view_sig(named);
        assert(named@.items =~= hir::items_view(items@));
    }
    hir_signature_to_ast(named)
}

/// The kind that an argument term has, if it can be told: a literal's compile-time kind,
/// the bound kind of a name without arguments (when names are allowed), or a lambda's
/// resolved signature without the parameters its arguments fill. The kind and the next
/// fresh-name number.
pub open spec fn term_kind(b: Seq<(Seq<char>, EntryView)>, ns: Seq<char>, c: nat, term: ast::Term, allow_idents: bool) -> (Option<KindView>, nat) {
    match term {
        ast::Term::Int(_) => (Some(KindView::CompileTimeInt), c),
        ast::Term::String(_) => (Some(KindView::CompileTimeStr), c),
        ast::Term::Ident(ident) => if allow_idents && ident.args@.len() == 0 {
            (
                match lookup_in(b, ident.name@) {
                    Some(e) => Some(e.kind),
                    None => None,
                },
                c,
            )
        } else {
            (None, c)
        },
        ast::Term::Lambda(lambda) => {
            let rs = resolved_sig(b, ns, c, canon_sig(lambda.params@));
            let n = rs.0.items.len();
            let d = if lambda.args@.len() < n { lambda.args@.len() as int } else { n as int };
            (Some(KindView::Sig(SigView { items: rs.0.items.skip(d), generics: rs.0.generics })), rs.1)
        },
    }
}

/// The kind of an argument term (see `term_kind`).
pub fn term_sig_kind(ctx: &mut Context, term: &ast::Term, allow_idents: bool) -> (r: Option<SigKind>)
    requires
        term_kind(old(ctx).bindings(), old(ctx).ns@, old(ctx).counter as nat, *term, allow_idents).1 <= usize::MAX,
    ensures
        ({
            let t = term_kind(old(ctx).bindings(), old(ctx).ns@, old(ctx).counter as nat, *term, allow_idents);
            &&& match t.0 {
                Some(k) => r matches Some(x) && x@ == k,
                None => r is None,
            }
            &&& *final(ctx) == (Context { counter: t.1 as usize, ..*old(ctx) })
        }),
{
    match term {
        ast::Term::Int(_) => Some(SigKind::CompileTimeInt),
        ast::Term::String(_) => Some(SigKind::CompileTimeStr),
        ast::Term::Ident(ast_ident) => {
            if allow_idents && ast_ident.args.len() == 0 {
                match ctx.get(ast_ident.name.as_str()) {
                    Some(entry) => Some(clone_kind(&entry.kind)),
                    None => None,
                }
            } else {
                None
            }
        },
        ast::Term::Lambda(lambda) => {
            let params = ast_signature_to_hir(ast::clone_signature(&lambda.params));
            let signature = resolve_signature(&params, ctx);
            let n = signature.items.len();
            let drop_count = if lambda.args.len() < n { lambda.args.len() } else { n };
            let mut items: Vec<hir::SigItem> = Vec::new();
            let mut j: usize = drop_count;
            proof {
                hir::lemma_view_sig(signature);
            }
            while j < n
                invariant
                    drop_count <= j <= n,
                    n == signature.items@.len(),
                    items@.len() == j - drop_count,
                    forall|m: int| 0 <= m < j - drop_count ==> (#[trigger] items@[m])@ == signature@.items[m + drop_count],
                decreases n - j,
            {
                items.push(hir::clone_item(&signature.items[j]));
                j = j + 1;
            }
            let r = hir::Signature { items, generics: clone_names(&signature.generics) };
            proof {
                hir::lemma_view_sig(r);
                assert(r@.items =~= signature@.items.skip(drop_count as int));
            }
            Some(SigKind::Sig(r))
        },
    }
}

/// What checking an argument against its parameter gives: an error message or none, the
/// generic bindings afterwards, and the next fresh-name number. Nothing is checked
/// without a parameter or against a variadic one. The parameter's kind is normalized
/// and its type names must exist; the argument's kind (names allowed where the
/// parameter is compile-time, the empty tuple, or generic) is normalized and must fit
/// (see `kinds_match`); an argument whose kind cannot be told passes.
pub open spec fn input_check(
    b: Seq<(Seq<char>, EntryView)>,
    ns: Seq<char>,
    c: nat,
    term: ast::Term,
    expected: Option<ItemView>,
    gens: Seq<Seq<char>>,
    binds: Seq<(Seq<char>, KindView)>,
) -> (Option<Seq<char>>, Seq<(Seq<char>, KindView)>, nat) {
    match expected {
        None => (None, binds, c),
        Some(p) => if p.kind is Variadic {
            (None, binds, c)
        } else {
            let ne = normalized_kind(b, seq![], p.kind);
            match missing_type(b, gens, ne) {
                Some(n) => (Some(undefined_type_message(n)), binds, c),
                None => {
                    let allow = ne is CompileTimeInt || ne is CompileTimeStr || (ne is Sig && ne->Sig_0.items.len()
                        == 0) || has_generic(ne, gens);
                    let t = term_kind(b, ns, c, term, allow);
                    match t.0 {
                        None => (None, binds, t.1),
                        Some(ak) => {
                            let na = normalized_kind(b, seq![], ak);
                            let m = kinds_match(na, ne, ak is CompileTimeInt, gens, binds);
                            if m.0 {
                                (None, m.1, t.1)
                            } else {
                                (Some("expected "@ + kind_text(ne) + ", found "@ + kind_text(na)), m.1, t.1)
                            }
                        },
                    }
                },
            }
        },
    }
}

/// Checks an argument term against the parameter it fills (see `input_check`).
pub fn validate_input_type(
    ctx: &mut Context,
    term: &ast::Term,
    expected_param: Option<&hir::SigItem>,
    active_generics: &Vec<String>,
    generic_bindings: &mut Vec<(String, SigKind)>,
) -> (r: Result<(), Error>)
    requires
        forall|allow: bool| #[trigger] term_kind(old(ctx).bindings(), old(ctx).ns@, old(ctx).counter as nat, *term, allow).1
            <= usize::MAX,
    ensures
        ({
            let v = input_check(
                old(ctx).bindings(),
                old(ctx).ns@,
                old(ctx).counter as nat,
                *term,
                match expected_param { Some(p) => Some(p@), None => None },
                names_view(active_generics@),
                kind_bindings(old(generic_bindings)@),
            );
            &&& match v.0 {
                None => r is Ok,
                Some(m) => r matches Err(e) && e.code == Code::HIR && e.message@ == m && e.span == Span::spec_unknown(),
            }
            &&& kind_bindings(final(generic_bindings)@) == v.1
            &&& *final(ctx) == (Context { counter: v.2 as usize, ..*old(ctx) })
        }),
{
    let expected = match expected_param {
        Some(p) => p,
        None => {
            return Ok(());
        },
    };
    if matches!(expected.kind, SigKind::Variadic) {
        return Ok(());
    }
    let normalized_expected = normalize_sig_kind(&expected.kind, ctx);
    ensure_sig_kind_exists(ctx, &normalized_expected, active_generics)?;
    let expected_is_compile_time = matches!(normalized_expected, SigKind::CompileTimeInt | SigKind::CompileTimeStr);
    let expected_is_unit_sig = match &normalized_expected {
        SigKind::Sig(sig) => {
            proof {
                hir::lemma_view_sig(*sig);
            }
            sig.items.len() == 0
        },
        _ => false,
    };
    let allow_idents = expected_is_compile_time || expected_is_unit_sig || has_generic_kind(
        &normalized_expected,
        active_generics,
    );
    let actual_kind = match term_sig_kind(ctx, term, allow_idents) {
        Some(k) => k,
        None => {
            return Ok(());
        },
    };
    let actual_is_compile_time_int = matches!(actual_kind, SigKind::CompileTimeInt);
    let normalized_actual = normalize_sig_kind(&actual_kind, ctx);
    if kind_matches(
        &normalized_actual,
        &normalized_expected,
        actual_is_compile_time_int,
        active_generics,
        generic_bindings,
    ) {
        return Ok(());
    }
    let mut m = "expected ".to_string();
    let e_text = format_sig_kind(&normalized_expected);
    push_str(&mut m, e_text.as_str());
    push_str(&mut m, ", found ");
    let a_text = format_sig_kind(&normalized_actual);
    push_str(&mut m, a_text.as_str());
    Err(Error::new(Code::HIR, m, Span::unknown()))
}

} // verus!
