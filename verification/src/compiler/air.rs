//! Lowering helpers from the high-level representation to AIR: helper-function labels,
//! signatures as code generation sees them, argument kinds, and the operations that
//! builtins become.

use vstd::prelude::*;

use crate::compiler::air_ast::{
    clone_function_sig, AirAdd, AirAddF64, AirArg, AirDivF64, AirDivInt, AirExecTarget, AirJumpClosure,
    AirJumpEq, AirJumpGt, AirJumpLt, AirLabel, AirMul, AirMulF64, AirNewClosure, AirOp, AirPrintf,
    AirReleaseHeap, AirSprintf, AirStmt, AirSub, AirSysExit, AirValue, AirWrite, ArgView, FunctionSig,
    FunctionSigView,
};
use crate::compiler::builtins::{self, builtin_name, Builtin};
use crate::compiler::error::{Code, Error};
use crate::compiler::hir_ast::{
    self as hir, clone_kind, clone_lit, clone_names, items_view, kinds_view, names_view, ItemView,
    KindView, Lit, LitView, SigItem, SigKind, SigView,
};
use crate::compiler::hir_context::contains_name;
use crate::compiler::symbol::{self, assoc_lookup, function_lookup, SymbolRegistry};
use crate::text::{concat, push_char, push_str, str_eq};
use crate::{is_symbol_char, sanitize_function_name, sanitized};

verus! {

// ---------------------------------------------------------------------------
// Labels of generated helper functions
// ---------------------------------------------------------------------------

/// `{name}_unwrapper`.
pub fn closure_unwrapper_label(name: &str) -> (r: String)
    ensures
        r@ == name@ + "_unwrapper"@,
{
    concat(name, "_unwrapper")
}

/// `{name}_deep_release`.
pub fn closure_deep_release_label(name: &str) -> (r: String)
    ensures
        r@ == name@ + "_deep_release"@,
{
    concat(name, "_deep_release")
}

/// `{name}_deepcopy`.
pub fn closure_deepcopy_label(name: &str) -> (r: String)
    ensures
        r@ == name@ + "_deepcopy"@,
{
    concat(name, "_deepcopy")
}

impl AirNewClosure {
    /// The label of the function that unpacks this closure's environment and jumps to
    /// its target.
    pub fn unwrapper_label(&self) -> (r: String)
        ensures
            r@ == self.target.name@ + "_unwrapper"@,
    {
        closure_unwrapper_label(self.target.name.as_str())
    }

    /// The label of the function that releases this closure's environment deeply.
    pub fn deep_release_label(&self) -> (r: String)
        ensures
            r@ == self.target.name@ + "_deep_release"@,
    {
        closure_deep_release_label(self.target.name.as_str())
    }

    /// The label of the function that copies this closure's environment deeply.
    pub fn deepcopy_label(&self) -> (r: String)
        ensures
            r@ == self.target.name@ + "_deepcopy"@,
    {
        closure_deepcopy_label(self.target.name.as_str())
    }
}

/// The label of one branch of a conditional builtin's bridge:
/// `{function}_{continuation}_{branch}_0_0`, with both names sanitized (the trailing
/// numbers are the line and column of an unknown span).
pub open spec fn branch_label(function: Seq<char>, continuation: Seq<char>, branch: Seq<char>) -> Seq<char> {
    sanitized(function) + "_"@ + sanitized(continuation) + "_"@ + branch + "_0_0"@
}

fn conditional_builtin_branch_label(sig: &FunctionSig, continuation: &AirArg, branch: &str) -> (r: String)
    ensures
        r@ == branch_label(sig.name@, continuation.name@, branch@),
{
    let mut s = sanitize_function_name(sig.name.as_str());
    push_str(&mut s, "_");
    let c = sanitize_function_name(continuation.name.as_str());
    push_str(&mut s, c.as_str());
    push_str(&mut s, "_");
    push_str(&mut s, branch);
    push_str(&mut s, "_0_0");
    s
}

// ---------------------------------------------------------------------------
// Signatures as code generation sees them
// ---------------------------------------------------------------------------

/// The kind that stands for a value of a generic type: a pointer, written as the empty
/// tuple.
pub open spec fn generic_pointer_view() -> KindView {
    KindView::Sig(SigView { items: seq![], generics: seq![] })
}

/// The kind with each generic parameter of the enclosing function (written as a
/// generic or as a name in `gens`) replaced by the pointer kind, at every depth.
pub open spec fn pointerized(k: KindView, gens: Seq<Seq<char>>) -> KindView
    decreases k,
{
    match k {
        KindView::Generic(_) => generic_pointer_view(),
        KindView::Ident(n) => if gens.contains(n) {
            generic_pointer_view()
        } else {
            k
        },
        KindView::Sig(s) => KindView::Sig(
            SigView {
                items: Seq::new(
                    s.items.len(),
                    |j: int|
                        if 0 <= j < s.items.len() {
                            ItemView {
                                name: s.items[j].name,
                                kind: pointerized(s.items[j].kind, gens),
                                has_bang: s.items[j].has_bang,
                            }
                        } else {
                            ItemView { name: seq![], kind: KindView::Int, has_bang: false }
                        },
                ),
                generics: s.generics,
            },
        ),
        KindView::GenericInst(n, args) => KindView::GenericInst(
            n,
            Seq::new(
                args.len(),
                |j: int|
                    if 0 <= j < args.len() {
                        pointerized(args[j], gens)
                    } else {
                        KindView::Int
                    },
            ),
        ),
        other => other,
    }
}

pub open spec fn pointerized_items(items: Seq<ItemView>, gens: Seq<Seq<char>>) -> Seq<ItemView> {
    Seq::new(
        items.len(),
        |j: int| ItemView { name: items[j].name, kind: pointerized(items[j].kind, gens), has_bang: items[j].has_bang },
    )
}

fn generic_pointer_kind() -> (r: SigKind)
    ensures
        r@ == generic_pointer_view(),
{
    let s = hir::Signature { items: Vec::new(), generics: Vec::new() };
    proof {
        hir::lemma_view_sig(s);
    }
    let r = SigKind::Sig(s);
    proof {
        assert(r@->Sig_0.items =~= Seq::<ItemView>::empty());
        assert(r@->Sig_0.generics =~= Seq::<Seq<char>>::empty());
    }
    r
}

/// The signature under which a lowered function is declared: values of its generic
/// types are passed as pointers.
pub fn function_sig_from_hir(function: &hir::Function) -> (r: FunctionSig)
    ensures
        r@ == (FunctionSigView {
            name: function.name@,
            params: pointerized_items(function.sig@.items, function.sig@.generics),
            generics: function.sig@.generics,
            builtin: None,
        }),
{
    proof {
        hir::lemma_view_sig(function.sig);
    }
    FunctionSig {
        name: function.name.clone(),
        params: air_sig_items_from_hir(&function.sig.items, &function.sig.generics),
        generics: clone_names(&function.sig.generics),
        builtin: None,
    }
}

#[verifier::loop_isolation(false)]
fn air_sig_items_from_hir(items: &Vec<SigItem>, generics: &Vec<String>) -> (r: Vec<SigItem>)
    ensures
        items_view(r@) == pointerized_items(items_view(items@), names_view(generics@)),
    decreases items, 0nat,
{
    let mut out: Vec<SigItem> = Vec::new();
    let mut i: usize = 0;
    while i < items.len()
        invariant
            i <= items@.len(),
            out@.len() == i,
            forall|j: int| 0 <= j < i ==> (#[trigger] out@[j])@ == pointerized_items(items_view(items@), names_view(generics@))[j],
        decreases items@.len() - i,
    {
        proof {
            assert(decreases_to!(items@[i as int] => items@[i as int].kind));
            assert(decreases_to!(items@ => items@[i as int]));
            assert(decreases_to!(*items => items@));
        }
        let item = &items[i];
        let kind = air_sig_kind_from_hir(&item.kind, generics);
        out.push(SigItem { name: item.name.clone(), kind, has_bang: item.has_bang });
        i = i + 1;
    }
    proof {
        assert(items_view(out@) =~= pointerized_items(items_view(items@), names_view(generics@)));
    }
    out
}

#[verifier::loop_isolation(false)]
fn air_sig_kind_from_hir(kind: &SigKind, generics: &Vec<String>) -> (r: SigKind)
    ensures
        r@ == pointerized(kind@, names_view(generics@)),
    decreases kind, 1nat,
{
    match kind {
        SigKind::Generic(_) => generic_pointer_kind(),
        SigKind::Ident(ident) => {
            if contains_name(generics, ident.name.as_str()) {
                generic_pointer_kind()
            } else {
                SigKind::Ident(hir::SigIdent { name: ident.name.clone() })
            }
        },
        SigKind::Sig(signature) => {
            proof {
                assert(decreases_to!(*kind => *signature));
                assert(decreases_to!(*signature => signature.items));
                hir::lemma_view_sig(*signature);
            }
            let items = air_sig_items_from_hir(&signature.items, generics);
            let r = hir::Signature { items, generics: clone_names(&signature.generics) };
            proof {
                hir::lemma_view_sig(r);
                let g = names_view(generics@);
                let p = pointerized(kind@, g);
                assert(items_view(r.items@) == pointerized_items(items_view(signature.items@), g));
                assert(kind@ == KindView::Sig(signature@));
                assert(signature@.items =~= items_view(signature.items@));
                assert(p->Sig_0.items.len() == signature.items@.len());
                assert forall|j: int| 0 <= j < signature.items@.len() implies #[trigger] r@.items[j] == p->Sig_0.items[j] by {
                    assert(r@.items[j] == pointerized_items(items_view(signature.items@), g)[j]);
                    assert(items_view(signature.items@)[j] == signature@.items[j]);
                }
                assert(r@.items =~= p->Sig_0.items);
            }
            SigKind::Sig(r)
        },
        SigKind::GenericInst { name, args } => {
            let mut out: Vec<SigKind> = Vec::new();
            let mut i: usize = 0;
            proof {
                hir::lemma_view_inst(*name, *args);
            }
            while i < args.len()
                invariant
                    i <= args@.len(),
                    out@.len() == i,
                    forall|j: int| 0 <= j < i ==> (#[trigger] out@[j])@ == pointerized(args@[j]@, names_view(generics@)),
                decreases args@.len() - i,
            {
                proof {
                    assert(decreases_to!(args@ => args@[i as int]));
                    assert(decreases_to!(*args => args@));
                    assert(decreases_to!(*kind => *args));
                }
                out.push(air_sig_kind_from_hir(&args[i], generics));
                i = i + 1;
            }
            let r = SigKind::GenericInst { name: name.clone(), args: out };
            proof {
                hir::lemma_view_inst(r->name, out);
                assert(r@->GenericInst_1 =~= pointerized(kind@, names_view(generics@))->GenericInst_1);
            }
            r
        },
        other => clone_kind(other),
    }
}

// ---------------------------------------------------------------------------
// Environment layout
// ---------------------------------------------------------------------------

/// For each position, how many words remain from it to the end.
pub fn suffix_word_counts(kinds: &Vec<SigKind>) -> (r: Vec<usize>)
    ensures
        r@.len() == kinds@.len(),
        forall|i: int| 0 <= i < r@.len() ==> r@[i] == kinds@.len() - i,
{
    let len = kinds.len();
    let mut out: Vec<usize> = Vec::new();
    let mut i: usize = 0;
    while i < len
        invariant
            len == kinds@.len(),
            i <= len,
            out@.len() == i,
            forall|j: int| 0 <= j < i ==> out@[j] == len - j,
        decreases len - i,
    {
        out.push(len - i);
        i = i + 1;
    }
    out
}

/// The builtins that are lowered to machine operations in place.
pub fn is_inline_builtin(builtin: Builtin) -> (r: bool)
    ensures
        r == (builtin is Add || builtin is Sub || builtin is Mul || builtin is Div || builtin is AddF64
            || builtin is MulF64 || builtin is DivF64 || builtin is Eq || builtin is Eqi || builtin is Eqs
            || builtin is Lt || builtin is Gt),
{
    matches!(
        builtin,
        Builtin::Add | Builtin::Sub | Builtin::Mul | Builtin::Div | Builtin::AddF64 | Builtin::MulF64
            | Builtin::DivF64 | Builtin::Eq | Builtin::Eqi | Builtin::Eqs | Builtin::Lt | Builtin::Gt
    )
}

// ---------------------------------------------------------------------------
// Jump targets
// ---------------------------------------------------------------------------

pub open spec fn remaining_kinds_of(closure_remaining: Seq<(Seq<char>, Seq<KindView>)>, target: &AirExecTarget) -> Option<Seq<KindView>> {
    match target {
        AirExecTarget::Function(sig) => Some(sig@.params.map_values(|p: ItemView| p.kind)),
        AirExecTarget::Closure { name } => assoc_lookup(closure_remaining, name@),
    }
}

pub open spec fn remaining_views(s: Seq<(String, Vec<SigKind>)>) -> Seq<(Seq<char>, Seq<KindView>)> {
    Seq::new(s.len(), |i: int| (s[i].0@, kinds_view(s[i].1@)))
}

/// The position of the last entry for `name`.
pub(crate) fn find_remaining(s: &Vec<(String, Vec<SigKind>)>, name: &str) -> (r: Option<usize>)
    ensures
        match r {
            Some(i) => i < s@.len() && assoc_lookup(remaining_views(s@), name@) == Some(kinds_view(s@[i as int].1@)),
            None => assoc_lookup(remaining_views(s@), name@) is None,
        },
{
    let ghost v = remaining_views(s@);
    let mut i: usize = s.len();
    proof {
        assert(v.take(v.len() as int) =~= v);
    }
    while i > 0
        invariant
            i <= s@.len(),
            v == remaining_views(s@),
            assoc_lookup(v, name@) == assoc_lookup(v.take(i as int), name@),
        decreases i,
    {
        proof {
            assert(v.take(i as int).drop_last() =~= v.take(i - 1));
        }
        if str_eq(s[i - 1].0.as_str(), name) {
            return Some(i - 1);
        }
        i = i - 1;
    }
    proof {
        assert(v.take(0) =~= Seq::<(Seq<char>, Seq<KindView>)>::empty());
    }
    None
}

/// The parameter kinds that a target still expects after `applied` arguments: none
/// when it expects none (or a closure's are unknown).
pub(crate) fn closure_remaining_after_applying(
    closure_remaining: &Vec<(String, Vec<SigKind>)>,
    target: &AirExecTarget,
    applied: usize,
) -> (r: Option<Vec<SigKind>>)
    ensures
        match remaining_kinds_of(remaining_views(closure_remaining@), target) {
            Some(rem) => if rem.len() == 0 {
                r is None
            } else {
                r matches Some(v) && kinds_view(v@) == rem.skip(if applied < rem.len() { applied as int } else { rem.len() as int })
            },
            None => r is None,
        },
{
    let remaining: Vec<SigKind> = match target {
        AirExecTarget::Function(sig) => sig.param_kinds(),
        AirExecTarget::Closure { name } => {
            let found = find_remaining(closure_remaining, name.as_str());
            match found {
                Some(k) => {
                    let kinds = &closure_remaining[k].1;
                    let mut out: Vec<SigKind> = Vec::new();
                    let mut j: usize = 0;
                    while j < kinds.len()
                        invariant
                            j <= kinds@.len(),
                            out@.len() == j,
                            forall|m: int| 0 <= m < j ==> (#[trigger] out@[m])@ == kinds@[m]@,
                        decreases kinds@.len() - j,
                    {
                        out.push(clone_kind(&kinds[j]));
                        j = j + 1;
                    }
                    proof {
                        assert(kinds_view(out@) =~= kinds_view(kinds@));
                    }
                    out
                },
                None => {
                    return None;
                },
            }
        },
    };
    if remaining.len() == 0 {
        return None;
    }
    let start = if applied < remaining.len() { applied } else { remaining.len() };
    let mut out: Vec<SigKind> = Vec::new();
    let mut j: usize = start;
    while j < remaining.len()
        invariant
            start <= j <= remaining@.len(),
            out@.len() == j - start,
            forall|m: int| 0 <= m < j - start ==> (#[trigger] out@[m])@ == remaining@[m + start]@,
        decreases remaining@.len() - j,
    {
        out.push(clone_kind(&remaining[j]));
        j = j + 1;
    }
    proof {
        assert(kinds_view(out@) =~= kinds_view(remaining@).skip(start as int));
    }
    Some(out)
}

/// What a jump to `name` goes to: a declared function, a builtin imported under that
/// alias, or else a closure value of that name.
pub open spec fn target_view_ok(symbols: &SymbolRegistry, name: Seq<char>, r: AirExecTarget) -> bool {
    match function_lookup(symbols.function_table(), name) {
        Some(f) => r matches AirExecTarget::Function(sig) && sig@ == f,
        None => match assoc_lookup(symbols.import_table(), name) {
            Some(b) => match builtins::builtin_named(b) {
                Some(builtin) => r matches AirExecTarget::Function(sig) && sig@ == (FunctionSigView {
                    name: b,
                    params: builtins::builtin_signature(builtin).items,
                    generics: seq![],
                    builtin: Some(builtin),
                }),
                None => false,
            },
            None => r matches AirExecTarget::Closure { name: n } && n@ == name,
        },
    }
}

/// Resolves a jump target by name (see `target_view_ok`); an alias of something that is
/// not a callable builtin is an error.
pub(crate) fn resolve_target(name: &str, symbols: &SymbolRegistry) -> (r: Result<AirExecTarget, Error>)
    ensures
        match r {
            Ok(t) => target_view_ok(symbols, name@, t),
            Err(e) => e.code == Code::Internal && function_lookup(symbols.function_table(), name@) is None
                && (assoc_lookup(symbols.import_table(), name@) matches Some(b) && builtins::builtin_named(b) is None),
        },
{
    if let Some(sig) = symbols.get_function(name) {
        return Ok(AirExecTarget::Function(clone_function_sig(sig)));
    }
    if let Some(builtin_name) = symbols.builtin_name_for_alias(name) {
        let sig = symbol::builtin_function_sig(builtin_name.as_str(), crate::compiler::span::Span::unknown());
        return match sig {
            Ok(s) => Ok(AirExecTarget::Function(s)),
            Err(e) => Err(e),
        };
    }
    Ok(AirExecTarget::Closure { name: name.to_string() })
}

// ---------------------------------------------------------------------------
// Arguments against a signature
// ---------------------------------------------------------------------------

pub open spec fn literal_views(s: Seq<(String, Lit)>) -> Seq<(Seq<char>, LitView)> {
    Seq::new(s.len(), |i: int| (s[i].0@, s[i].1@))
}

/// `n` integer kinds.
pub open spec fn int_kinds(n: int) -> Seq<KindView> {
    Seq::new(if n > 0 { n as nat } else { 0 }, |_i: int| KindView::Int)
}

/// The kinds that arguments `c..n` get when matched against the parameters from `s` on:
/// each parameter takes one argument and gives it its kind, except a variadic one,
/// which takes as many integers as leave one argument for each later parameter.
/// Arguments beyond the parameters are integers.
pub open spec fn consumed_kinds(params: Seq<KindView>, n: int, c: int, s: int) -> Seq<KindView>
    decreases params.len() - s,
{
    if c < n && 0 <= s < params.len() {
        if params[s] is Variadic {
            let final_items = if params.len() - (s + 1) > 0 { params.len() - (s + 1) } else { 0 };
            let vc = if (n - c) - final_items > 0 { (n - c) - final_items } else { 0 };
            int_kinds(vc) + consumed_kinds(params, n, c + vc, s + 1)
        } else {
            seq![params[s]] + consumed_kinds(params, n, c + 1, s + 1)
        }
    } else {
        int_kinds(n - c)
    }
}

proof fn lemma_consumed_len(params: Seq<KindView>, n: int, c: int, s: int)
    requires
        0 <= c <= n,
        0 <= s,
    ensures
        consumed_kinds(params, n, c, s).len() == n - c,
    decreases params.len() - s,
{
    if c < n && s < params.len() {
        if params[s] is Variadic {
            let final_items = if params.len() - (s + 1) > 0 { params.len() - (s + 1) } else { 0 };
            let vc = if (n - c) - final_items > 0 { (n - c) - final_items } else { 0 };
            lemma_consumed_len(params, n, c + vc, s + 1);
        } else {
            lemma_consumed_len(params, n, c + 1, s + 1);
        }
    }
}

/// The literal bound to `name`.
pub(crate) fn literal_for_arg(name: &str, literals: &Vec<(String, Lit)>) -> (r: Option<Lit>)
    ensures
        match assoc_lookup(literal_views(literals@), name@) {
            Some(l) => r matches Some(x) && x@ == l,
            None => r is None,
        },
{
    let ghost v = literal_views(literals@);
    let mut i: usize = literals.len();
    proof {
        assert(v.take(v.len() as int) =~= v);
    }
    while i > 0
        invariant
            i <= literals@.len(),
            v == literal_views(literals@),
            assoc_lookup(v, name@) == assoc_lookup(v.take(i as int), name@),
        decreases i,
    {
        proof {
            assert(v.take(i as int).drop_last() =~= v.take(i - 1));
        }
        if str_eq(literals[i - 1].0.as_str(), name) {
            return Some(clone_lit(&literals[i - 1].1));
        }
        i = i - 1;
    }
    proof {
        assert(v.take(0) =~= Seq::<(Seq<char>, LitView)>::empty());
    }
    None
}

/// The argument named `name` with the given kind and its literal value, if any.
fn make_arg(name: &String, kind: SigKind, literals: &Vec<(String, Lit)>) -> (r: AirArg)
    ensures
        r@ == (ArgView { name: name@, kind: kind@, literal: assoc_lookup(literal_views(literals@), name@) }),
{
    let literal = literal_for_arg(name.as_str(), literals);
    AirArg { name: name.clone(), kind, literal }
}

/// The arguments `args` with the kinds that matching them against `params` gives (see
/// `consumed_kinds`) and their literal values.
#[verifier::loop_isolation(false)]
pub fn consume_signature_for_args(params: &Vec<SigItem>, args: &Vec<String>, literals: &Vec<(String, Lit)>) -> (r: Vec<AirArg>)
    ensures
        r@.len() == args@.len(),
        forall|i: int| 0 <= i < args@.len() ==> (#[trigger] r@[i])@ == (ArgView {
            name: args@[i]@,
            kind: consumed_kinds(items_view(params@).map_values(|p: ItemView| p.kind), args@.len() as int, 0, 0)[i],
            literal: assoc_lookup(literal_views(literals@), args@[i]@),
        }),
{
    let ghost pk = items_view(params@).map_values(|p: ItemView| p.kind);
    let ghost n = args@.len() as int;
    let ghost k = consumed_kinds(pk, n, 0, 0);
    proof {
        lemma_consumed_len(pk, n, 0, 0);
        assert(k.subrange(0, n) =~= k);
    }
    let mut consumed: usize = 0;
    let mut sig_index: usize = 0;
    let total = params.len();
    let mut air_args: Vec<AirArg> = Vec::new();
    while consumed < args.len() && sig_index < total
        invariant
            total == params@.len(),
            pk == items_view(params@).map_values(|p: ItemView| p.kind),
            n == args@.len(),
            k == consumed_kinds(pk, n, 0, 0),
            k.len() == n,
            consumed <= n,
            air_args@.len() == consumed,
            k.subrange(consumed as int, n) == consumed_kinds(pk, n, consumed as int, sig_index as int),
            forall|i: int| 0 <= i < consumed ==> (#[trigger] air_args@[i])@ == (ArgView {
                name: args@[i]@,
                kind: k[i],
                literal: assoc_lookup(literal_views(literals@), args@[i]@),
            }),
        decreases total - sig_index,
    {
        let c0 = consumed;
        if matches!(params[sig_index].kind, SigKind::Variadic) {
            let remaining_args = args.len() - consumed;
            let final_items = if total > sig_index + 1 { total - (sig_index + 1) } else { 0 };
            let variadic_count = if remaining_args > final_items { remaining_args - final_items } else { 0 };
            proof {
                assert(pk[sig_index as int] is Variadic);
                lemma_consumed_len(pk, n, c0 + variadic_count, sig_index + 1);
                let rest = consumed_kinds(pk, n, c0 + variadic_count, sig_index + 1);
                assert(k.subrange(c0 as int, n) == int_kinds(variadic_count as int) + rest);
            }
            let mut j: usize = 0;
            while j < variadic_count
                invariant
                    c0 + variadic_count <= n,
                    consumed == c0 + j,
                    j <= variadic_count,
                    air_args@.len() == consumed,
                    k.subrange(c0 as int, n) == int_kinds(variadic_count as int) + consumed_kinds(pk, n, c0 + variadic_count, sig_index + 1),
                    forall|i: int| 0 <= i < consumed ==> (#[trigger] air_args@[i])@ == (ArgView {
                        name: args@[i]@,
                        kind: k[i],
                        literal: assoc_lookup(literal_views(literals@), args@[i]@),
                    }),
                decreases variadic_count - j,
            {
                proof {
                    assert(k.subrange(c0 as int, n)[j as int] == KindView::Int);
                    assert(k[consumed as int] == KindView::Int);
                }
                air_args.push(make_arg(&args[consumed], SigKind::Int, literals));
                consumed = consumed + 1;
                j = j + 1;
            }
            proof {
                let rest = consumed_kinds(pk, n, c0 + variadic_count, sig_index + 1);
                assert forall|m: int| 0 <= m < rest.len() implies #[trigger] k.subrange(consumed as int, n)[m] == rest[m] by {
                    assert(k.subrange(c0 as int, n)[variadic_count + m] == rest[m]);
                }
                assert(k.subrange(consumed as int, n) =~= rest);
            }
            sig_index = sig_index + 1;
        } else {
            proof {
                assert(!(pk[sig_index as int] is Variadic));
                lemma_consumed_len(pk, n, c0 + 1, sig_index + 1);
                assert(k.subrange(c0 as int, n) == seq![pk[sig_index as int]] + consumed_kinds(pk, n, c0 + 1, sig_index + 1));
                assert(k[c0 as int] == k.subrange(c0 as int, n)[0]);
                assert(pk[sig_index as int] == params@[sig_index as int].kind@);
            }
            air_args.push(make_arg(&args[consumed], clone_kind(&params[sig_index].kind), literals));
            consumed = consumed + 1;
            sig_index = sig_index + 1;
            proof {
                let rest = consumed_kinds(pk, n, consumed as int, sig_index as int);
                assert forall|m: int| 0 <= m < rest.len() implies #[trigger] k.subrange(consumed as int, n)[m] == rest[m] by {
                    assert(k.subrange(c0 as int, n)[1 + m] == rest[m]);
                }
                assert(k.subrange(consumed as int, n) =~= rest);
            }
        }
    }
    proof {
        assert(k.subrange(consumed as int, n) == int_kinds(n - consumed));
    }
    while consumed < args.len()
        invariant
            n == args@.len(),
            k.len() == n,
            consumed <= n,
            air_args@.len() == consumed,
            k.subrange(consumed as int, n) == int_kinds(n - consumed),
            forall|i: int| 0 <= i < consumed ==> (#[trigger] air_args@[i])@ == (ArgView {
                name: args@[i]@,
                kind: k[i],
                literal: assoc_lookup(literal_views(literals@), args@[i]@),
            }),
        decreases n - consumed,
    {
        proof {
            assert(k[consumed as int] == k.subrange(consumed as int, n)[0]);
            assert forall|m: int| 0 <= m < n - consumed - 1 implies #[trigger] k.subrange(consumed + 1, n)[m] == int_kinds(n - consumed - 1)[m] by {
                assert(k.subrange(consumed as int, n)[m + 1] == KindView::Int);
            }
            assert(k.subrange(consumed + 1, n) =~= int_kinds(n - consumed - 1));
        }
        air_args.push(make_arg(&args[consumed], SigKind::Int, literals));
        consumed = consumed + 1;
    }
    air_args
}

// ---------------------------------------------------------------------------
// Builtins as operations
// ---------------------------------------------------------------------------

/// An argument used as a numeric operand: its integer literal, or its binding.
pub open spec fn operand_of(a: AirArg) -> AirValue {
    match a.literal {
        Some(Lit::Int(v)) => AirValue::Literal(v),
        _ => AirValue::Binding(a.name),
    }
}

/// Whether the argument is a string literal, which cannot be a numeric operand.
pub open spec fn is_str_literal(a: AirArg) -> bool {
    a.literal matches Some(Lit::Str(_))
}

/// The builtins that become one machine operation on the arguments before the last,
/// continuing at the last.
pub open spec fn is_instruction_builtin(b: Builtin) -> bool {
    b is Add || b is Sub || b is Mul || b is Div || b is AddF64 || b is MulF64 || b is DivF64
        || b is Eq || b is Eqi || b is Eqs || b is Lt || b is Gt
}

/// The arguments on which `instruction_op` is defined: a continuation last, two operands
/// for arithmetic and comparisons (and an error continuation before the last for `div`),
/// and no string literal as a comparison operand.
pub open spec fn instruction_args_ok(b: Builtin, args: Seq<AirArg>) -> bool {
    &&& is_instruction_builtin(b)
    &&& args.len() >= 1
    &&& (b is Div ==> args.len() >= 4)
    &&& (b is Add || b is Sub || b is Mul || b is AddF64 || b is MulF64 || b is DivF64 || b is Lt || b is Gt)
        ==> args.len() >= 3
    &&& (b is Lt || b is Gt) ==> !is_str_literal(args[0]) && !is_str_literal(args[1])
}

/// The operation that an instruction builtin becomes: the first two arguments as
/// inputs (as operands for comparisons), the last as the continuation (and for `div`
/// the one before it as the error continuation); the equality tests take every
/// argument but the last.
pub open spec fn instruction_op_ok(b: Builtin, args: Seq<AirArg>, r: AirOp) -> bool {
    let n = args.len() as int;
    let target = args[n - 1].name;
    match b {
        Builtin::Add => r == AirOp::Add(AirAdd { input_a: args[0], input_b: args[1], target }),
        Builtin::Sub => r == AirOp::Sub(AirSub { input_a: args[0], input_b: args[1], target }),
        Builtin::Mul => r == AirOp::Mul(AirMul { input_a: args[0], input_b: args[1], target }),
        Builtin::AddF64 => r == AirOp::AddF64(AirAddF64 { input_a: args[0], input_b: args[1], target }),
        Builtin::MulF64 => r == AirOp::MulF64(AirMulF64 { input_a: args[0], input_b: args[1], target }),
        Builtin::DivF64 => r == AirOp::DivF64(AirDivF64 { input_a: args[0], input_b: args[1], target }),
        Builtin::Div => r == AirOp::DivInt(
            AirDivInt { input_a: args[0], input_b: args[1], err_target: args[n - 2].name, ok_target: target },
        ),
        Builtin::Eq | Builtin::Eqi => r matches AirOp::JumpEqInt(j) && j.args@ == args.take(n - 1) && j.target == target,
        Builtin::Eqs => r matches AirOp::JumpEqStr(j) && j.args@ == args.take(n - 1) && j.target == target,
        Builtin::Lt => r == AirOp::JumpLt(AirJumpLt { left: operand_of(args[0]), right: operand_of(args[1]), target }),
        Builtin::Gt => r == AirOp::JumpGt(AirJumpGt { left: operand_of(args[0]), right: operand_of(args[1]), target }),
        _ => false,
    }
}

/// The first two inputs.
fn binary_input_args(inputs: Vec<AirArg>) -> (r: (AirArg, AirArg))
    requires
        inputs@.len() >= 2,
    ensures
        r.0 == inputs@[0],
        r.1 == inputs@[1],
{
    let mut rest = inputs;
    let input_a = rest.remove(0);
    let input_b = rest.remove(0);
    (input_a, input_b)
}

/// An argument as a numeric operand.
fn arg_to_operand(arg: AirArg) -> (r: AirValue)
    requires
        !is_str_literal(arg),
    ensures
        r == operand_of(arg),
{
    let AirArg { name, kind: _, literal } = arg;
    match literal {
        Some(Lit::Int(value)) => AirValue::Literal(value),
        _ => AirValue::Binding(name),
    }
}

/// The first two inputs as numeric operands.
fn binary_operands(inputs: Vec<AirArg>) -> (r: (AirValue, AirValue))
    requires
        inputs@.len() >= 2,
        !is_str_literal(inputs@[0]),
        !is_str_literal(inputs@[1]),
    ensures
        r.0 == operand_of(inputs@[0]),
        r.1 == operand_of(inputs@[1]),
{
    let (input_a, input_b) = binary_input_args(inputs);
    (arg_to_operand(input_a), arg_to_operand(input_b))
}

/// The operation that an instruction builtin applied to `args` becomes (see
/// `instruction_op_ok`).
pub fn instruction_op(builtin: Builtin, args: Vec<AirArg>) -> (r: AirOp)
    requires
        instruction_args_ok(builtin, args@),
    ensures
        instruction_op_ok(builtin, args@, r),
{
    let ghost all = args@;
    let mut inputs = args;
    let last = inputs.pop().unwrap();
    let AirArg { name: continuation_target, kind: _, literal: _ } = last;
    proof {
        assert(inputs@ =~= all.take(all.len() - 1));
    }
    match builtin {
        Builtin::Add => {
            let (input_a, input_b) = binary_input_args(inputs);
            AirOp::Add(AirAdd { input_a, input_b, target: continuation_target })
        },
        Builtin::AddF64 => {
            let (input_a, input_b) = binary_input_args(inputs);
            AirOp::AddF64(AirAddF64 { input_a, input_b, target: continuation_target })
        },
        Builtin::Sub => {
            let (input_a, input_b) = binary_input_args(inputs);
            AirOp::Sub(AirSub { input_a, input_b, target: continuation_target })
        },
        Builtin::Mul => {
            let (input_a, input_b) = binary_input_args(inputs);
            AirOp::Mul(AirMul { input_a, input_b, target: continuation_target })
        },
        Builtin::MulF64 => {
            let (input_a, input_b) = binary_input_args(inputs);
            AirOp::MulF64(AirMulF64 { input_a, input_b, target: continuation_target })
        },
        Builtin::Div => {
            let err = inputs.pop().unwrap();
            let AirArg { name: err_target, kind: _, literal: _ } = err;
            let (input_a, input_b) = binary_input_args(inputs);
            AirOp::DivInt(AirDivInt { input_a, input_b, err_target, ok_target: continuation_target })
        },
        Builtin::DivF64 => {
            let (input_a, input_b) = binary_input_args(inputs);
            AirOp::DivF64(AirDivF64 { input_a, input_b, target: continuation_target })
        },
        Builtin::Eq | Builtin::Eqi => AirOp::JumpEqInt(AirJumpEq { args: inputs, target: continuation_target }),
        Builtin::Eqs => AirOp::JumpEqStr(AirJumpEq { args: inputs, target: continuation_target }),
        Builtin::Lt => {
            let (left, right) = binary_operands(inputs);
            AirOp::JumpLt(AirJumpLt { left, right, target: continuation_target })
        },
        _ => {
            let (left, right) = binary_operands(inputs);
            AirOp::JumpGt(AirJumpGt { left, right, target: continuation_target })
        },
    }
}

/// The builtins that become a C library call (or the exit system call).
pub open spec fn is_call_builtin(b: Builtin) -> bool {
    b is Printf || b is Sprintf || b is Write || b is Exit
}

/// The operation that a call builtin becomes: every argument but the last, with their
/// kinds, continuing at the last; `exit` takes every argument.
pub open spec fn call_op_ok(b: Builtin, args: Seq<AirArg>, r: AirOp) -> bool {
    let n = args.len() as int;
    let call_args = args.take(n - 1);
    let kinds = call_args.map_values(|a: AirArg| a.kind@);
    let target = args[n - 1].name;
    match b {
        Builtin::Printf => r matches AirOp::Printf(c) && c.args@ == call_args && kinds_view(c.arg_kinds@) == kinds
            && c.target == target,
        Builtin::Sprintf => r matches AirOp::Sprintf(c) && c.args@ == call_args && kinds_view(c.arg_kinds@) == kinds
            && c.target == target,
        Builtin::Write => r matches AirOp::Write(c) && c.args@ == call_args && kinds_view(c.arg_kinds@) == kinds
            && c.target == target,
        Builtin::Exit => r matches AirOp::SysExit(c) && c.args@ == args,
        _ => false,
    }
}

/// The operation that a call builtin applied to `args` becomes (see `call_op_ok`).
pub fn call_op(builtin: Builtin, args: Vec<AirArg>) -> (r: AirOp)
    requires
        is_call_builtin(builtin),
        args@.len() >= 1,
    ensures
        call_op_ok(builtin, args@, r),
{
    if let Builtin::Exit = builtin {
        return AirOp::SysExit(AirSysExit { args });
    }
    let ghost all = args@;
    let mut call_args = args;
    let last = call_args.pop().unwrap();
    let AirArg { name: continuation_target, kind: _, literal: _ } = last;
    let mut arg_kinds: Vec<SigKind> = Vec::new();
    let mut i: usize = 0;
    while i < call_args.len()
        invariant
            i <= call_args@.len(),
            arg_kinds@.len() == i,
            forall|j: int| 0 <= j < i ==> (#[trigger] arg_kinds@[j])@ == call_args@[j].kind@,
        decreases call_args@.len() - i,
    {
        arg_kinds.push(clone_kind(&call_args[i].kind));
        i = i + 1;
    }
    proof {
        assert(call_args@ =~= all.take(all.len() - 1));
        assert(kinds_view(arg_kinds@) =~= call_args@.map_values(|a: AirArg| a.kind@));
    }
    match builtin {
        Builtin::Printf => AirOp::Printf(AirPrintf { args: call_args, arg_kinds, target: continuation_target }),
        Builtin::Sprintf => AirOp::Sprintf(AirSprintf { args: call_args, arg_kinds, target: continuation_target }),
        _ => AirOp::Write(AirWrite { args: call_args, arg_kinds, target: continuation_target }),
    }
}

/// The seven statements of a conditional builtin's bridge: jump to the true branch when
/// the inputs are equal, else release the true continuation and enter the false one;
/// the true branch does the converse.
pub open spec fn bridge_ok(sig_name: Seq<char>, b: Builtin, args: Seq<AirArg>, r: Seq<AirStmt>) -> bool {
    let n = args.len() as int;
    let t = args[n - 2].name@;
    let f = args[n - 1].name@;
    let true_label = branch_label(sig_name, t, "true"@);
    let false_label = branch_label(sig_name, f, "false"@);
    &&& r.len() == 7
    &&& r[0] matches AirStmt::Op(op) && (if b is Eqs {
        *op matches AirOp::JumpEqStr(j) && j.args@ == args.take(n - 2) && j.target@ == true_label
    } else {
        *op matches AirOp::JumpEqInt(j) && j.args@ == args.take(n - 2) && j.target@ == true_label
    })
    &&& r[1] matches AirStmt::Label(l) && l.name@ == false_label
    &&& r[2] matches AirStmt::Op(op) && *op matches AirOp::ReleaseHeap(h) && h.name@ == t
    &&& r[3] matches AirStmt::Op(op) && *op matches AirOp::JumpClosure(j) && j.env_end@ == f && j.args@.len() == 0
    &&& r[4] matches AirStmt::Label(l) && l.name@ == true_label
    &&& r[5] matches AirStmt::Op(op) && *op matches AirOp::ReleaseHeap(h) && h.name@ == f
    &&& r[6] matches AirStmt::Op(op) && *op matches AirOp::JumpClosure(j) && j.env_end@ == t && j.args@.len() == 0
}

/// The statements that branch on an equality builtin applied to `args`, whose last two
/// arguments are the true and the false continuation (see `bridge_ok`).
pub fn build_conditional_builtin_bridge(sig: &FunctionSig, builtin: Builtin, args: Vec<AirArg>) -> (r: Vec<AirStmt>)
    requires
        args@.len() >= 2,
    ensures
        bridge_ok(sig.name@, builtin, args@, r@),
{
    let ghost all = args@;
    let mut inputs = args;
    let false_cont = inputs.pop().unwrap();
    let true_cont = inputs.pop().unwrap();
    proof {
        assert(inputs@ =~= all.take(all.len() - 2));
    }
    let true_label = conditional_builtin_branch_label(sig, &true_cont, "true");
    let false_label = conditional_builtin_branch_label(sig, &false_cont, "false");
    let eq_jump = if let Builtin::Eqs = builtin {
        AirOp::JumpEqStr(AirJumpEq { args: inputs, target: true_label.clone() })
    } else {
        AirOp::JumpEqInt(AirJumpEq { args: inputs, target: true_label.clone() })
    };
    let r = vec![
        AirStmt::Op(Box::new(eq_jump)),
        AirStmt::Label(AirLabel { name: false_label }),
        AirStmt::Op(Box::new(AirOp::ReleaseHeap(AirReleaseHeap { name: true_cont.name.clone() }))),
        AirStmt::Op(Box::new(AirOp::JumpClosure(AirJumpClosure { env_end: false_cont.name.clone(), args: Vec::new() }))),
        AirStmt::Label(AirLabel { name: true_label }),
        AirStmt::Op(Box::new(AirOp::ReleaseHeap(AirReleaseHeap { name: false_cont.name }))),
        AirStmt::Op(Box::new(AirOp::JumpClosure(AirJumpClosure { env_end: true_cont.name, args: Vec::new() }))),
    ];
    proof {
        reveal_strlit("true");
        reveal_strlit("false");
    }
    r
}

/// The arguments on which `build_builtin_statements` is defined: two continuations for
/// an equality test, a continuation for a call, and `instruction_args_ok` for the other
/// instructions.
pub open spec fn builtin_statements_pre(builtin: Builtin, args: Seq<AirArg>) -> bool {
    &&& (builtin is Eq || builtin is Eqi || builtin is Eqs ==> args.len() >= 2)
    &&& (is_call_builtin(builtin) ==> args.len() >= 1)
    &&& (!(builtin is Eq || builtin is Eqi || builtin is Eqs) && is_instruction_builtin(builtin) ==> instruction_args_ok(
        builtin,
        args,
    ))
}

/// What a builtin applied to `args` becomes: the bridge of an equality test
/// (`bridge_ok`), or one operation (`instruction_op_ok`, `call_op_ok`).
pub open spec fn builtin_statements_ok(sig_name: Seq<char>, builtin: Builtin, args: Seq<AirArg>, r: Seq<AirStmt>) -> bool {
    if builtin is Eq || builtin is Eqi || builtin is Eqs {
        bridge_ok(sig_name, builtin, args, r)
    } else if is_instruction_builtin(builtin) {
        r.len() == 1 && (r[0] matches AirStmt::Op(op) && instruction_op_ok(builtin, args, *op))
    } else {
        r.len() == 1 && (r[0] matches AirStmt::Op(op) && call_op_ok(builtin, args, *op))
    }
}

/// The statements that a builtin applied to `args` becomes: the bridge of an equality
/// test, or one operation (see `builtin_statements_ok`).
pub fn build_builtin_statements(sig: &FunctionSig, builtin: Builtin, args: Vec<AirArg>) -> (r: Vec<AirStmt>)
    requires
        builtin_statements_pre(builtin, args@),
    ensures
        builtin_statements_ok(sig.name@, builtin, args@, r@),
{
    if builtin.is_conditional() {
        return build_conditional_builtin_bridge(sig, builtin, args);
    }
    if builtin.is_instruction() {
        return vec![AirStmt::Op(Box::new(instruction_op(builtin, args)))];
    }
    if builtin.is_libc_call() {
        return vec![AirStmt::Op(Box::new(call_op(builtin, args)))];
    }
    vec![AirStmt::Op(Box::new(AirOp::SysExit(AirSysExit { args })))]
}

} // verus!
