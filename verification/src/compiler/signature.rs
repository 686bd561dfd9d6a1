//! Conversions between parsed and lowered signatures, and the signature queries that
//! lowering relies on.

use vstd::prelude::*;

use crate::compiler::ast;
use crate::compiler::hir_ast as hir;
use crate::compiler::hir_ast::{canon_kind, canon_sig, kind_wf, names_view, sig_wf, ItemView, KindView, SigView};
use crate::compiler::hir_context::{
    contains_name, lemma_unvisited_decreases, lookup_in, tagged_name, unvisited, Context, EntryView,
};
use crate::compiler::span::Span;
use crate::name_set::{lemma_sorted_set_of, lemma_sorted_set_of_sorted, sorted_set_from, sorted_set_of};
use crate::text::sorted_names;

verus! {

// ---------------------------------------------------------------------------
// Canonical form: every generic list as an ordered set
// ---------------------------------------------------------------------------

/// Taking the canonical form twice changes nothing: lowered kinds are well formed.
pub proof fn lemma_canon_kind(k: KindView)
    ensures
        canon_kind(canon_kind(k)) == canon_kind(k),
        kind_wf(canon_kind(k)),
    decreases k,
{
    match k {
        KindView::Sig(s) => {
            lemma_canon_sig(s);
        },
        KindView::GenericInst(n, args) => {
            let c = canon_kind(k);
            let cc = canon_kind(c);
            assert forall|j: int| 0 <= j < args.len() implies #[trigger] cc->GenericInst_1[j] == c->GenericInst_1[j] by {
                assert(decreases_to!(k => args));
                assert(decreases_to!(args => args[j]));
                lemma_canon_kind(args[j]);
            }
            assert(cc->GenericInst_1 =~= c->GenericInst_1);
        },
        _ => {},
    }
}

pub proof fn lemma_canon_sig(s: SigView)
    ensures
        canon_sig(canon_sig(s)) == canon_sig(s),
        sig_wf(canon_sig(s)),
        sorted_names(canon_sig(s).generics),
    decreases s,
{
    let c = canon_sig(s);
    let cc = canon_sig(c);
    lemma_sorted_set_of(s.generics);
    lemma_sorted_set_of_sorted(sorted_set_of(s.generics));
    assert forall|j: int| 0 <= j < s.items.len() implies #[trigger] cc.items[j] == c.items[j] by {
        assert(decreases_to!(s => s.items));
        assert(decreases_to!(s.items => s.items[j]));
        assert(decreases_to!(s.items[j] => s.items[j].kind));
        lemma_canon_kind(s.items[j].kind);
    }
    assert(cc.items =~= c.items);
}

/// A well-formed signature lists its generic parameters as an ordered set.
pub proof fn lemma_sig_wf_generics(s: SigView)
    requires
        sig_wf(s),
    ensures
        sorted_names(s.generics),
{
    lemma_canon_sig(s);
}

// ---------------------------------------------------------------------------
// Parsed <-> lowered
// ---------------------------------------------------------------------------

/// The lowered form of a parsed signature: the same parameters, with the generic
/// parameters as an ordered set.
pub fn ast_signature_to_hir(signature: ast::Signature) -> (r: hir::Signature)
    ensures
        r@ == canon_sig(signature@),
{
    ast_signature_ref_to_hir(&signature)
}

/// The parsed form of a lowered signature, with unknown spans.
pub fn hir_signature_to_ast(signature: hir::Signature) -> (r: ast::Signature)
    ensures
        r@ == signature@,
        r.span == Span::spec_unknown(),
{
    hir_signature_ref_to_ast(&signature)
}

/// Lowering the parsed form of a well-formed lowered signature gives it back.
pub proof fn lemma_signature_round_trip(s: SigView)
    requires
        sig_wf(s),
    ensures
        canon_sig(s) == s,
{
}

/// Lowering is idempotent: a lowered signature is already canonical.
pub proof fn lemma_canon_sig_idempotent(s: SigView)
    ensures
        canon_sig(canon_sig(s)) == canon_sig(s),
        sig_wf(canon_sig(s)),
{
    lemma_canon_sig(s);
    lemma_canon_sig(canon_sig(s));
}

#[verifier::loop_isolation(false)]
fn ast_signature_ref_to_hir(signature: &ast::Signature) -> (r: hir::Signature)
    ensures
        r@ == canon_sig(signature@),
    decreases signature,
{
    let mut items: Vec<hir::SigItem> = Vec::new();
    let mut i: usize = 0;
    proof {
        ast::lemma_view_sig(*signature);
    }
    while i < signature.items.len()
        invariant
            i <= signature.items@.len(),
            items@.len() == i,
            forall|j: int| 0 <= j < i ==> (#[trigger] items@[j])@ == canon_sig(signature@).items[j],
        decreases signature.items@.len() - i,
    {
        proof {
            assert(decreases_to!(signature.items@[i as int] => signature.items@[i as int].ty));
            assert(decreases_to!(signature.items@ => signature.items@[i as int]));
            assert(decreases_to!(signature.items => signature.items@));
            assert(decreases_to!(*signature => signature.items));
        }
        let item = &signature.items[i];
        let kind = ast_sig_kind_to_hir(&item.ty);
        items.push(hir::SigItem { name: item.name.clone(), kind, has_bang: item.has_bang });
        i = i + 1;
    }
    let generics = sorted_set_from(&signature.generics);
    let r = hir::Signature { items, generics };
    proof {
        hir::lemma_view_sig(r);
        assert(r@.items =~= canon_sig(signature@).items);
    }
    r
}

#[verifier::loop_isolation(false)]
fn ast_sig_kind_to_hir(kind: &ast::SigKind) -> (r: hir::SigKind)
    ensures
        r@ == canon_kind(kind@),
    decreases kind,
{
    match kind {
        ast::SigKind::Byte => hir::SigKind::Byte,
        ast::SigKind::Int => hir::SigKind::Int,
        ast::SigKind::Str => hir::SigKind::Str,
        ast::SigKind::F64 => hir::SigKind::F64,
        ast::SigKind::Variadic => hir::SigKind::Variadic,
        ast::SigKind::CompileTimeInt => hir::SigKind::CompileTimeInt,
        ast::SigKind::CompileTimeStr => hir::SigKind::CompileTimeStr,
        ast::SigKind::Ident(ident) => hir::SigKind::Ident(hir::SigIdent { name: ident.name.clone() }),
        ast::SigKind::Sig(signature) => hir::SigKind::Sig(ast_signature_ref_to_hir(signature)),
        ast::SigKind::GenericInst { name, args } => {
            let mut out: Vec<hir::SigKind> = Vec::new();
            let mut i: usize = 0;
            proof {
                ast::lemma_view_inst(*name, *args);
            }
            while i < args.len()
                invariant
                    i <= args@.len(),
                    out@.len() == i,
                    forall|j: int| 0 <= j < i ==> (#[trigger] out@[j])@ == canon_kind(args@[j]@),
                decreases args@.len() - i,
            {
                proof {
                    assert(decreases_to!(args@ => args@[i as int]));
                    assert(decreases_to!(*args => args@));
                    assert(decreases_to!(*kind => *args));
                }
                out.push(ast_sig_kind_to_hir(&args[i]));
                i = i + 1;
            }
            let r = hir::SigKind::GenericInst { name: name.clone(), args: out };
            proof {
                hir::lemma_view_inst(r->name, out);
                assert(r@->GenericInst_1 =~= canon_kind(kind@)->GenericInst_1);
            }
            r
        },
        ast::SigKind::Generic(name) => hir::SigKind::Generic(name.clone()),
    }
}

#[verifier::loop_isolation(false)]
fn hir_signature_ref_to_ast(signature: &hir::Signature) -> (r: ast::Signature)
    ensures
        r@ == signature@,
        r.span == Span::spec_unknown(),
    decreases signature,
{
    let mut items: Vec<ast::SigItem> = Vec::new();
    let mut i: usize = 0;
    proof {
        hir::lemma_view_sig(*signature);
    }
    while i < signature.items.len()
        invariant
            i <= signature.items@.len(),
            items@.len() == i,
            forall|j: int| 0 <= j < i ==> (#[trigger] items@[j])@ == signature.items@[j]@,
        decreases signature.items@.len() - i,
    {
        proof {
            assert(decreases_to!(signature.items@[i as int] => signature.items@[i as int].kind));
            assert(decreases_to!(signature.items@ => signature.items@[i as int]));
            assert(decreases_to!(signature.items => signature.items@));
            assert(decreases_to!(*signature => signature.items));
        }
        let item = &signature.items[i];
        let ty = hir_sig_kind_to_ast(&item.kind);
        items.push(ast::SigItem { name: item.name.clone(), ty, has_bang: item.has_bang, span: Span::unknown() });
        i = i + 1;
    }
    let generics = hir::clone_names(&signature.generics);
    let r = ast::Signature { items, span: Span::unknown(), generics };
    proof {
        ast::lemma_view_sig(r);
        assert(r@.items =~= signature@.items);
    }
    r
}

#[verifier::loop_isolation(false)]
fn hir_sig_kind_to_ast(kind: &hir::SigKind) -> (r: ast::SigKind)
    ensures
        r@ == kind@,
    decreases kind,
{
    match kind {
        hir::SigKind::Byte => ast::SigKind::Byte,
        hir::SigKind::Int => ast::SigKind::Int,
        hir::SigKind::Str => ast::SigKind::Str,
        hir::SigKind::F64 => ast::SigKind::F64,
        hir::SigKind::Variadic => ast::SigKind::Variadic,
        hir::SigKind::CompileTimeInt => ast::SigKind::CompileTimeInt,
        hir::SigKind::CompileTimeStr => ast::SigKind::CompileTimeStr,
        hir::SigKind::Ident(ident) => ast::SigKind::Ident(ast::SigIdent { name: ident.name.clone(), span: Span::unknown() }),
        hir::SigKind::Sig(signature) => ast::SigKind::Sig(hir_signature_ref_to_ast(signature)),
        hir::SigKind::GenericInst { name, args } => {
            let mut out: Vec<ast::SigKind> = Vec::new();
            let mut i: usize = 0;
            proof {
                hir::lemma_view_inst(*name, *args);
            }
            while i < args.len()
                invariant
                    i <= args@.len(),
                    out@.len() == i,
                    forall|j: int| 0 <= j < i ==> (#[trigger] out@[j])@ == args@[j]@,
                decreases args@.len() - i,
            {
                proof {
                    assert(decreases_to!(args@ => args@[i as int]));
                    assert(decreases_to!(*args => args@));
                    assert(decreases_to!(*kind => *args));
                }
                out.push(hir_sig_kind_to_ast(&args[i]));
                i = i + 1;
            }
            let r = ast::SigKind::GenericInst { name: name.clone(), args: out };
            proof {
                ast::lemma_view_inst(r->name, out);
                assert(r@->GenericInst_1 =~= kind@->GenericInst_1);
            }
            r
        },
        hir::SigKind::Generic(name) => ast::SigKind::Generic(name.clone()),
    }
}

// ---------------------------------------------------------------------------
// Matching arguments to parameters
// ---------------------------------------------------------------------------

/// `i` is the first variadic parameter.
pub open spec fn is_first_variadic(params: Seq<hir::SigItem>, i: int) -> bool {
    &&& 0 <= i < params.len()
    &&& params[i].kind is Variadic
    &&& forall|j: int| 0 <= j < i ==> !(#[trigger] params[j].kind is Variadic)
}

/// The position of the first variadic parameter, if there is one.
pub open spec fn variadic_position(params: Seq<hir::SigItem>) -> Option<int> {
    if exists|i: int| is_first_variadic(params, i) {
        Some(choose|i: int| is_first_variadic(params, i))
    } else {
        None
    }
}

pub open spec fn min_int(a: int, b: int) -> int {
    if a <= b {
        a
    } else {
        b
    }
}

/// The parameter that the argument at `idx` (of `args_len`) is matched with. Without a
/// variadic parameter, argument `i` goes to parameter `i`. With one at `v`, the
/// parameters before `v` take the first arguments, the parameters after `v` take the
/// last ones (as many as there are, after the first ones), and `v` takes the rest.
pub open spec fn expected_index(n_params: int, variadic: Option<int>, args_len: int, idx: int) -> Option<int> {
    let p = match variadic {
        None => idx,
        Some(v) => {
            let prefix = min_int(v, args_len);
            let suffix_assigned = min_int(args_len - prefix, n_params - (v + 1));
            let suffix_start = args_len - suffix_assigned;
            if idx < prefix {
                idx
            } else if idx >= suffix_start {
                v + 1 + (idx - suffix_start)
            } else {
                v
            }
        },
    };
    if 0 <= p < n_params {
        Some(p)
    } else {
        None
    }
}

/// For each of `args_len` arguments, the parameter it is matched with (see
/// `expected_index`), or `None` where there is none.
pub fn expected_params_for_args<'a>(params: &'a [hir::SigItem], args_len: usize) -> (r: Vec<Option<&'a hir::SigItem>>)
    ensures
        r@.len() == args_len,
        forall|idx: int|
            0 <= idx < args_len ==> match expected_index(params@.len() as int, variadic_position(params@), args_len as int, idx) {
                Some(p) => (#[trigger] r@[idx]) matches Some(item) && *item == params@[p],
                None => r@[idx] is None,
            },
{
    let mut expected: Vec<Option<&'a hir::SigItem>> = Vec::new();
    if args_len == 0 {
        return expected;
    }
    let n = params.len();
    // The first variadic parameter.
    let mut variadic_index: Option<usize> = None;
    let mut k: usize = 0;
    while k < n
        invariant_except_break
            k <= n,
            n == params@.len(),
            variadic_index is None,
            forall|j: int| 0 <= j < k ==> !(#[trigger] params@[j].kind is Variadic),
        ensures
            n == params@.len(),
            match variadic_index {
                Some(v) => is_first_variadic(params@, v as int),
                None => forall|j: int| 0 <= j < n ==> !(#[trigger] params@[j].kind is Variadic),
            },
        decreases n - k,
    {
        if matches!(params[k].kind, hir::SigKind::Variadic) {
            variadic_index = Some(k);
            break;
        }
        k = k + 1;
    }
    proof {
        match variadic_index {
            Some(v) => {
                assert forall|i: int| is_first_variadic(params@, i) implies i == v by {
                    if i < v {
                        assert(!(params@[i].kind is Variadic));
                    } else if i > v {
                        assert(!(params@[v as int].kind is Variadic));
                    }
                }
                assert(variadic_position(params@) == Some(v as int));
            },
            None => {
                assert(!exists|i: int| is_first_variadic(params@, i));
            },
        }
    }
    let mut prefix_assigned: usize = 0;
    let mut suffix_start: usize = args_len;
    if let Some(var_idx) = variadic_index {
        prefix_assigned = if var_idx < args_len { var_idx } else { args_len };
        let remaining_after_prefix = args_len - prefix_assigned;
        let suffix_params = n - (var_idx + 1);
        let suffix_assigned = if remaining_after_prefix < suffix_params { remaining_after_prefix } else { suffix_params };
        suffix_start = args_len - suffix_assigned;
    }
    let mut idx: usize = 0;
    while idx < args_len
        invariant
            idx <= args_len,
            expected@.len() == idx,
            n == params@.len(),
            variadic_index is Some ==> variadic_position(params@) == Some(variadic_index->0 as int),
            variadic_index is None ==> variadic_position(params@) is None,
            variadic_index matches Some(v) ==> ({
                let prefix = min_int(v as int, args_len as int);
                &&& prefix_assigned == prefix
                &&& suffix_start == args_len - min_int(args_len - prefix, n - (v + 1))
                &&& v < n
            }),
            forall|i: int|
                0 <= i < idx ==> match expected_index(n as int, variadic_position(params@), args_len as int, i) {
                    Some(p) => (#[trigger] expected@[i]) matches Some(item) && *item == params@[p],
                    None => expected@[i] is None,
                },
        decreases args_len - idx,
    {
        let position: usize = match variadic_index {
            Some(var_idx) => {
                if idx < prefix_assigned {
                    idx
                } else if idx >= suffix_start {
                    var_idx + 1 + (idx - suffix_start)
                } else {
                    var_idx
                }
            },
            None => idx,
        };
        let expected_param = if position < n { Some(&params[position]) } else { None };
        expected.push(expected_param);
        idx = idx + 1;
    }
    expected
}

// ---------------------------------------------------------------------------
// Following type names through a context
// ---------------------------------------------------------------------------

/// The signature that a kind stands for: a tuple signature itself, or what a type name
/// is bound to, followed through further names. A name that is unbound, or that the
/// chain has already passed through, gives none.
pub open spec fn sig_of_kind(b: Seq<(Seq<char>, EntryView)>, visited: Seq<Seq<char>>, k: KindView) -> Option<SigView>
    decreases unvisited(b, visited),
{
    match k {
        KindView::Sig(s) => Some(s),
        KindView::Ident(name) => if visited.contains(name) {
            None
        } else {
            match lookup_in(b, name) {
                None => None,
                Some(e) => {
                    proof {
                        lemma_unvisited_decreases(b, visited, name);
                    }
                    sig_of_kind(b, visited.push(name), e.kind)
                },
            }
        },
        _ => None,
    }
}

/// The kind with every bound type name replaced by what it is bound to, at every depth
/// of nested tuple signatures. A name met again inside its own expansion is kept.
pub open spec fn normalized_kind(b: Seq<(Seq<char>, EntryView)>, seen: Seq<Seq<char>>, k: KindView) -> KindView
    decreases unvisited(b, seen), k,
{
    match k {
        KindView::Ident(name) => if seen.contains(name) {
            k
        } else {
            match lookup_in(b, name) {
                Some(e) => {
                    proof {
                        lemma_unvisited_decreases(b, seen, name);
                    }
                    normalized_kind(b, seen.push(name), e.kind)
                },
                None => k,
            }
        },
        KindView::Sig(s) => KindView::Sig(
            SigView {
                items: Seq::new(
                    s.items.len(),
                    |j: int|
                        if 0 <= j < s.items.len() {
                            ItemView {
                                name: s.items[j].name,
                                kind: normalized_kind(b, seen, s.items[j].kind),
                                has_bang: s.items[j].has_bang,
                            }
                        } else {
                            ItemView { name: seq![], kind: KindView::Int, has_bang: false }
                        },
                ),
                generics: s.generics,
            },
        ),
        other => other,
    }
}

/// Whether `k` names, at any depth, no type that `b` binds: there is nothing left to
/// normalize in it.
pub open spec fn free_of_bound_types(b: Seq<(Seq<char>, EntryView)>, k: KindView) -> bool
    decreases k,
{
    match k {
        KindView::Ident(name) => lookup_in(b, name) is None,
        KindView::Sig(s) => forall|j: int| 0 <= j < s.items.len() ==> free_of_bound_types(b, #[trigger] s.items[j].kind),
        _ => true,
    }
}

/// A kind that names no bound type is left as it is by normalization.
pub proof fn lemma_normalized_fixed(b: Seq<(Seq<char>, EntryView)>, seen: Seq<Seq<char>>, k: KindView)
    requires
        free_of_bound_types(b, k),
    ensures
        normalized_kind(b, seen, k) == k,
    decreases k,
{
    match k {
        KindView::Sig(s) => {
            assert forall|j: int| 0 <= j < s.items.len() implies normalized_kind(b, seen, #[trigger] s.items[j].kind)
                == s.items[j].kind by {
                lemma_normalized_fixed(b, seen, s.items[j].kind);
            }
            let n = normalized_kind(b, seen, k)->Sig_0;
            assert(n.items =~= s.items);
        },
        _ => {},
    }
}

/// Whether following the type names in `k` through their bindings meets a name again
/// that is on the way already (in `seen`): a type defined through itself.
pub open spec fn revisits(b: Seq<(Seq<char>, EntryView)>, seen: Seq<Seq<char>>, k: KindView) -> bool
    decreases unvisited(b, seen), k,
{
    match k {
        KindView::Ident(name) => if seen.contains(name) {
            lookup_in(b, name) is Some
        } else {
            match lookup_in(b, name) {
                Some(e) => {
                    proof {
                        lemma_unvisited_decreases(b, seen, name);
                    }
                    revisits(b, seen.push(name), e.kind)
                },
                None => false,
            }
        },
        KindView::Sig(s) => exists|j: int| 0 <= j < s.items.len() && revisits(b, seen, #[trigger] s.items[j].kind),
        _ => false,
    }
}

/// Where no type is defined through itself, normalization leaves no bound type name.
pub proof fn lemma_normalized_free(b: Seq<(Seq<char>, EntryView)>, seen: Seq<Seq<char>>, k: KindView)
    requires
        !revisits(b, seen, k),
    ensures
        free_of_bound_types(b, normalized_kind(b, seen, k)),
    decreases unvisited(b, seen), k,
{
    match k {
        KindView::Ident(name) => {
            if !seen.contains(name) {
                match lookup_in(b, name) {
                    Some(e) => {
                        lemma_unvisited_decreases(b, seen, name);
                        lemma_normalized_free(b, seen.push(name), e.kind);
                    },
                    None => {},
                }
            }
        },
        KindView::Sig(s) => {
            let n = normalized_kind(b, seen, k)->Sig_0;
            assert forall|j: int| 0 <= j < n.items.len() implies free_of_bound_types(b, #[trigger] n.items[j].kind) by {
                assert(!revisits(b, seen, s.items[j].kind));
                lemma_normalized_free(b, seen, s.items[j].kind);
            }
        },
        _ => {},
    }
}

/// Normalizing a kind twice gives what normalizing it once gives, where no type is
/// defined through itself; then no bound type name is left either.
pub proof fn lemma_normalize_idempotent(b: Seq<(Seq<char>, EntryView)>, k: KindView)
    requires
        !revisits(b, seq![], k),
    ensures
        free_of_bound_types(b, normalized_kind(b, seq![], k)),
        normalized_kind(b, seq![], normalized_kind(b, seq![], k)) == normalized_kind(b, seq![], k),
{
    lemma_normalized_free(b, seq![], k);
    lemma_normalized_fixed(b, seq![], normalized_kind(b, seq![], k));
}

/// The signature with each parameter's kind normalized.
pub open spec fn normalized_sig(b: Seq<(Seq<char>, EntryView)>, s: SigView) -> SigView {
    SigView {
        items: Seq::new(
            s.items.len(),
            |j: int|
                ItemView {
                    name: s.items[j].name,
                    kind: normalized_kind(b, seq![], s.items[j].kind),
                    has_bang: s.items[j].has_bang,
                },
        ),
        generics: s.generics,
    }
}

/// The signature that `kind` stands for in `ctx` (see `sig_of_kind`); the names in
/// `visited` count as passed through already. `visited` is the same afterwards.
pub fn signature_from_kind(kind: &hir::SigKind, ctx: &Context, visited: &mut Vec<String>) -> (r: Option<hir::Signature>)
    ensures
        final(visited)@ == old(visited)@,
        match sig_of_kind(ctx.bindings(), names_view(old(visited)@), kind@) {
            Some(s) => r matches Some(x) && x@ == s,
            None => r is None,
        },
    decreases unvisited(ctx.bindings(), names_view(old(visited)@)),
{
    match kind {
        hir::SigKind::Sig(signature) => Some(hir::clone_signature(signature)),
        hir::SigKind::Ident(ident) => {
            let name = &ident.name;
            if contains_name(visited, name.as_str()) {
                return None;
            }
            let ghost before = *visited;
            visited.push(name.clone());
            proof {
                assert(names_view(visited@) =~= names_view(before@).push(name@));
            }
            let out = match ctx.get(name.as_str()) {
                Some(entry) => {
                    proof {
                        lemma_unvisited_decreases(ctx.bindings(), names_view(before@), name@);
                    }
                    signature_from_kind(&entry.kind, ctx, visited)
                },
                None => None,
            };
            visited.pop();
            proof {
                assert(visited@ =~= before@);
            }
            out
        },
        _ => None,
    }
}

/// The signature that the name `target` stands for in `ctx`.
pub fn resolve_target_signature(target: &str, ctx: &Context) -> (r: Option<hir::Signature>)
    ensures
        match ctx.lookup(target@) {
            Some(e) => match sig_of_kind(ctx.bindings(), seq![], e.kind) {
                Some(s) => r matches Some(x) && x@ == s,
                None => r is None,
            },
            None => r is None,
        },
{
    let mut visited: Vec<String> = Vec::new();
    proof {
        assert(names_view(visited@) =~= Seq::<Seq<char>>::empty());
    }
    match ctx.get(target) {
        Some(entry) => signature_from_kind(&entry.kind, ctx, &mut visited),
        None => None,
    }
}

/// The kind with bound type names replaced by what they are bound to (see
/// `normalized_kind`).
pub fn normalize_sig_kind(kind: &hir::SigKind, ctx: &Context) -> (r: hir::SigKind)
    ensures
        r@ == normalized_kind(ctx.bindings(), seq![], kind@),
{
    let mut seen: Vec<String> = Vec::new();
    proof {
        assert(names_view(seen@) =~= Seq::<Seq<char>>::empty());
    }
    normalize_sig_kind_inner(kind, ctx, &mut seen)
}

#[verifier::loop_isolation(false)]
fn normalize_sig_kind_inner(kind: &hir::SigKind, ctx: &Context, seen: &mut Vec<String>) -> (r: hir::SigKind)
    ensures
        final(seen)@ == old(seen)@,
        r@ == normalized_kind(ctx.bindings(), names_view(old(seen)@), kind@),
    decreases unvisited(ctx.bindings(), names_view(old(seen)@)), kind,
{
    match kind {
        hir::SigKind::Ident(ident) => {
            if contains_name(seen, ident.name.as_str()) {
                return hir::SigKind::Ident(hir::SigIdent { name: ident.name.clone() });
            }
            match ctx.get(ident.name.as_str()) {
                Some(entry) => {
                    let ghost before = *seen;
                    seen.push(ident.name.clone());
                    proof {
                        assert(names_view(seen@) =~= names_view(before@).push(ident.name@));
                        lemma_unvisited_decreases(ctx.bindings(), names_view(before@), ident.name@);
                    }
                    let resolved = normalize_sig_kind_inner(&entry.kind, ctx, seen);
                    seen.pop();
                    proof {
                        assert(seen@ =~= before@);
                    }
                    resolved
                },
                None => hir::SigKind::Ident(hir::SigIdent { name: ident.name.clone() }),
            }
        },
        hir::SigKind::Sig(signature) => {
            let ghost s0 = *seen;
            let mut items: Vec<hir::SigItem> = Vec::new();
            let mut i: usize = 0;
            proof {
                hir::lemma_view_sig(*signature);
            }
            while i < signature.items.len()
                invariant
                    i <= signature.items@.len(),
                    items@.len() == i,
                    seen@ == s0@,
                    forall|j: int| 0 <= j < i ==> (#[trigger] items@[j])@ == (ItemView {
                        name: signature.items@[j].name@,
                        kind: normalized_kind(ctx.bindings(), names_view(s0@), signature.items@[j].kind@),
                        has_bang: signature.items@[j].has_bang,
                    }),
                decreases signature.items@.len() - i,
            {
                proof {
                    assert(decreases_to!(signature.items@[i as int] => signature.items@[i as int].kind));
                    assert(decreases_to!(signature.items@ => signature.items@[i as int]));
                    assert(decreases_to!(signature.items => signature.items@));
                    assert(decreases_to!(*signature => signature.items));
                }
                let item = &signature.items[i];
                let k = normalize_sig_kind_inner(&item.kind, ctx, seen);
                items.push(hir::SigItem { name: item.name.clone(), kind: k, has_bang: item.has_bang });
                i = i + 1;
            }
            let r = hir::Signature { items, generics: hir::clone_names(&signature.generics) };
            proof {
                hir::lemma_view_sig(r);
                let expected = normalized_kind(ctx.bindings(), names_view(s0@), kind@);
                assert(r@.items =~= expected->Sig_0.items);
                assert(r@.generics =~= expected->Sig_0.generics);
            }
            hir::SigKind::Sig(r)
        },
        other => hir::clone_kind(other),
    }
}

/// The signature with each parameter's kind normalized in `ctx`.
pub fn normalize_signature(signature: &hir::Signature, ctx: &Context) -> (r: hir::Signature)
    ensures
        r@ == normalized_sig(ctx.bindings(), signature@),
{
    let mut items: Vec<hir::SigItem> = Vec::new();
    let mut i: usize = 0;
    proof {
        hir::lemma_view_sig(*signature);
    }
    while i < signature.items.len()
        invariant
            i <= signature.items@.len(),
            items@.len() == i,
            forall|j: int| 0 <= j < i ==> (#[trigger] items@[j])@ == normalized_sig(ctx.bindings(), signature@).items[j],
        decreases signature.items@.len() - i,
    {
        let item = &signature.items[i];
        let k = normalize_sig_kind(&item.kind, ctx);
        items.push(hir::SigItem { name: item.name.clone(), kind: k, has_bang: item.has_bang });
        i = i + 1;
    }
    let r = hir::Signature { items, generics: hir::clone_names(&signature.generics) };
    proof {
        hir::lemma_view_sig(r);
        assert(r@.items =~= normalized_sig(ctx.bindings(), signature@).items);
    }
    r
}

// ---------------------------------------------------------------------------
// Resolving a signature: fresh names, builtin types, generic instances
// ---------------------------------------------------------------------------

/// What a type name resolves to: the bound kind when the binding is a builtin or a
/// generic parameter, else the name itself.
pub open spec fn resolved_ident(b: Seq<(Seq<char>, EntryView)>, name: Seq<char>) -> KindView {
    match lookup_in(b, name) {
        Some(e) => if e.is_builtin || e.kind is Generic {
            e.kind
        } else {
            KindView::Ident(name)
        },
        None => KindView::Ident(name),
    }
}

/// A parameter marked `!` takes its value at compile time.
pub open spec fn bang_kind(k: KindView, bang: bool) -> KindView {
    if bang {
        match k {
            KindView::Int => KindView::CompileTimeInt,
            KindView::Str => KindView::CompileTimeStr,
            other => other,
        }
    } else {
        k
    }
}

/// The last position of `name` among the generic parameters.
pub open spec fn generic_position(gens: Seq<Seq<char>>, name: Seq<char>) -> Option<int>
    decreases gens.len(),
{
    if gens.len() == 0 {
        None
    } else if gens.last() == name {
        Some(gens.len() - 1)
    } else {
        generic_position(gens.drop_last(), name)
    }
}

/// The kind with each generic parameter (written as a name or as a parameter) replaced
/// by its argument, inside nested tuple signatures too.
pub open spec fn substituted_kind(k: KindView, gens: Seq<Seq<char>>, args: Seq<KindView>) -> KindView
    decreases k,
{
    match k {
        KindView::Sig(s) => KindView::Sig(substituted_sig(s, gens, args)),
        KindView::Ident(name) => match generic_position(gens, name) {
            Some(i) => args[i],
            None => k,
        },
        KindView::Generic(name) => match generic_position(gens, name) {
            Some(i) => args[i],
            None => k,
        },
        _ => k,
    }
}

/// The signature with its generic parameters replaced; it has none left.
pub open spec fn substituted_sig(s: SigView, gens: Seq<Seq<char>>, args: Seq<KindView>) -> SigView
    decreases s,
{
    SigView {
        items: Seq::new(
            s.items.len(),
            |j: int|
                if 0 <= j < s.items.len() {
                    ItemView {
                        name: s.items[j].name,
                        kind: substituted_kind(s.items[j].kind, gens, args),
                        has_bang: s.items[j].has_bang,
                    }
                } else {
                    ItemView { name: seq![], kind: KindView::Int, has_bang: false }
                },
        ),
        generics: seq![],
    }
}

/// `name<args>`: the generic signature bound to `name` with its parameters replaced by
/// `args`, when `name` is bound to a signature with as many generic parameters.
pub open spec fn instantiated(b: Seq<(Seq<char>, EntryView)>, name: Seq<char>, args: Seq<KindView>) -> Option<KindView> {
    match lookup_in(b, name) {
        Some(e) => match e.kind {
            KindView::Sig(sig) => if sig.generics.len() == args.len() {
                Some(KindView::Sig(substituted_sig(sig, sig.generics, args)))
            } else {
                None
            },
            _ => None,
        },
        None => None,
    }
}

/// The resolved kind and the next fresh-name number.
pub open spec fn lowered_kind(b: Seq<(Seq<char>, EntryView)>, ns: Seq<char>, c: nat, k: KindView, bang: bool) -> (KindView, nat)
    decreases k,
{
    match k {
        KindView::Ident(name) => (bang_kind(resolved_ident(b, name), bang), c),
        KindView::Sig(s) => {
            let r = resolved_sig(b, ns, c, s);
            (KindView::Sig(r.0), r.1)
        },
        KindView::GenericInst(name, args) => {
            let r = lowered_args(b, ns, c, args);
            (
                match instantiated(b, name, r.0) {
                    Some(x) => x,
                    None => KindView::Ident(name),
                },
                r.1,
            )
        },
        KindView::Int => (if bang { KindView::CompileTimeInt } else { KindView::Int }, c),
        KindView::Str => (if bang { KindView::CompileTimeStr } else { KindView::Str }, c),
        other => (other, c),
    }
}

/// The arguments of a generic instance, resolved left to right.
pub open spec fn lowered_args(b: Seq<(Seq<char>, EntryView)>, ns: Seq<char>, c: nat, args: Seq<KindView>) -> (Seq<KindView>, nat)
    decreases args,
{
    if args.len() == 0 {
        (seq![], c)
    } else {
        let p = lowered_args(b, ns, c, args.drop_last());
        let x = lowered_kind(b, ns, p.1, args.last(), false);
        (p.0.push(x.0), x.1)
    }
}

/// The signature with each unnamed parameter given a fresh name `_{n}_{ns}` and each
/// kind resolved, parameters left to right.
pub open spec fn resolved_sig(b: Seq<(Seq<char>, EntryView)>, ns: Seq<char>, c: nat, s: SigView) -> (SigView, nat)
    decreases s,
{
    let r = resolved_items(b, ns, c, s.items);
    (SigView { items: r.0, generics: s.generics }, r.1)
}

pub open spec fn resolved_items(b: Seq<(Seq<char>, EntryView)>, ns: Seq<char>, c: nat, items: Seq<ItemView>) -> (Seq<ItemView>, nat)
    decreases items,
{
    if items.len() == 0 {
        (seq![], c)
    } else {
        let p = resolved_items(b, ns, c, items.drop_last());
        let it = items.last();
        let named: (Seq<char>, nat) = if it.name.len() == 0 {
            (tagged_name(p.1, ns), p.1 + 1)
        } else {
            (it.name, p.1)
        };
        let k = lowered_kind(b, ns, named.1, it.kind, it.has_bang);
        (p.0.push(ItemView { name: named.0, kind: k.0, has_bang: it.has_bang }), k.1)
    }
}

/// Resolution only ever counts fresh names up.
pub proof fn lemma_lowered_kind_counts_up(b: Seq<(Seq<char>, EntryView)>, ns: Seq<char>, c: nat, k: KindView, bang: bool)
    ensures
        lowered_kind(b, ns, c, k, bang).1 >= c,
    decreases k,
{
    match k {
        KindView::Sig(s) => lemma_resolved_items_count_up(b, ns, c, s.items),
        KindView::GenericInst(name, args) => lemma_lowered_args_count_up(b, ns, c, args),
        _ => {},
    }
}

pub proof fn lemma_lowered_args_count_up(b: Seq<(Seq<char>, EntryView)>, ns: Seq<char>, c: nat, args: Seq<KindView>)
    ensures
        lowered_args(b, ns, c, args).1 >= c,
    decreases args,
{
    if args.len() > 0 {
        lemma_lowered_args_count_up(b, ns, c, args.drop_last());
        let p = lowered_args(b, ns, c, args.drop_last());
        lemma_lowered_kind_counts_up(b, ns, p.1, args.last(), false);
    }
}

pub proof fn lemma_resolved_items_count_up(b: Seq<(Seq<char>, EntryView)>, ns: Seq<char>, c: nat, items: Seq<ItemView>)
    ensures
        resolved_items(b, ns, c, items).1 >= c,
    decreases items,
{
    if items.len() > 0 {
        lemma_resolved_items_count_up(b, ns, c, items.drop_last());
        let p = resolved_items(b, ns, c, items.drop_last());
        let it = items.last();
        let n: nat = if it.name.len() == 0 { p.1 + 1 } else { p.1 };
        lemma_lowered_kind_counts_up(b, ns, n, it.kind, it.has_bang);
    }
}

/// A bound on the fresh names that resolving a kind takes: one per parameter, at any
/// depth.
pub open spec fn kind_weight(k: KindView) -> nat
    decreases k,
{
    match k {
        KindView::Sig(s) => items_weight(s.items),
        KindView::GenericInst(_, args) => args_weight(args),
        _ => 0,
    }
}

pub open spec fn items_weight(items: Seq<ItemView>) -> nat
    decreases items,
{
    if items.len() == 0 {
        0
    } else {
        items_weight(items.drop_last()) + 1 + kind_weight(items.last().kind)
    }
}

pub open spec fn args_weight(args: Seq<KindView>) -> nat
    decreases args,
{
    if args.len() == 0 {
        0
    } else {
        args_weight(args.drop_last()) + kind_weight(args.last())
    }
}

/// Resolving a kind takes at most its weight in fresh names.
pub proof fn lemma_lowered_kind_bound(b: Seq<(Seq<char>, EntryView)>, ns: Seq<char>, c: nat, k: KindView, bang: bool)
    ensures
        lowered_kind(b, ns, c, k, bang).1 <= c + kind_weight(k),
    decreases k,
{
    match k {
        KindView::Sig(s) => lemma_resolved_items_bound(b, ns, c, s.items),
        KindView::GenericInst(name, args) => lemma_lowered_args_bound(b, ns, c, args),
        _ => {},
    }
}

pub proof fn lemma_lowered_args_bound(b: Seq<(Seq<char>, EntryView)>, ns: Seq<char>, c: nat, args: Seq<KindView>)
    ensures
        lowered_args(b, ns, c, args).1 <= c + args_weight(args),
    decreases args,
{
    if args.len() > 0 {
        lemma_lowered_args_bound(b, ns, c, args.drop_last());
        let p = lowered_args(b, ns, c, args.drop_last());
        lemma_lowered_kind_bound(b, ns, p.1, args.last(), false);
    }
}

pub proof fn lemma_resolved_items_bound(b: Seq<(Seq<char>, EntryView)>, ns: Seq<char>, c: nat, items: Seq<ItemView>)
    ensures
        resolved_items(b, ns, c, items).1 <= c + items_weight(items),
    decreases items,
{
    if items.len() > 0 {
        lemma_resolved_items_bound(b, ns, c, items.drop_last());
        let p = resolved_items(b, ns, c, items.drop_last());
        let it = items.last();
        let n: nat = if it.name.len() == 0 { p.1 + 1 } else { p.1 };
        lemma_lowered_kind_bound(b, ns, n, it.kind, it.has_bang);
    }
}

fn saturating_sum(a: usize, b: usize) -> (r: usize)
    ensures
        r == (if a + b > usize::MAX { usize::MAX as int } else { a + b }),
{
    if a > usize::MAX - b {
        usize::MAX
    } else {
        a + b
    }
}

pub open spec fn capped(n: nat) -> usize {
    if n > usize::MAX {
        usize::MAX
    } else {
        n as usize
    }
}

/// The weight of a kind (see `kind_weight`), capped at the largest `usize`.
#[verifier::loop_isolation(false)]
pub fn kind_weight_of(kind: &hir::SigKind) -> (r: usize)
    ensures
        r == capped(kind_weight(kind@)),
    decreases kind,
{
    match kind {
        hir::SigKind::Sig(sig) => {
            let ghost items = sig@.items;
            proof {
                hir::lemma_view_sig(*sig);
                assert(items.take(0) =~= Seq::<ItemView>::empty());
            }
            let mut total: usize = 0;
            let mut i: usize = 0;
            while i < sig.items.len()
                invariant
                    i <= sig.items@.len(),
                    items == sig@.items,
                    total == capped(items_weight(items.take(i as int))),
                decreases sig.items@.len() - i,
            {
                proof {
                    assert(decreases_to!(sig.items@ => sig.items@[i as int]));
                    assert(decreases_to!(sig.items => sig.items@));
                    assert(decreases_to!(*sig => sig.items));
                    assert(decreases_to!(*kind => *sig));
                    assert(items.take(i + 1).drop_last() =~= items.take(i as int));
                    assert(items.take(i + 1).last() == items[i as int]);
                    assert(items[i as int] == sig.items@[i as int]@);
                }
                let w = kind_weight_of(&sig.items[i].kind);
                let with_item = saturating_sum(total, 1);
                total = saturating_sum(with_item, w);
                i = i + 1;
            }
            proof {
                assert(items.take(sig.items@.len() as int) =~= items);
            }
            total
        },
        hir::SigKind::GenericInst { name, args } => {
            let ghost a = kind@->GenericInst_1;
            proof {
                hir::lemma_view_inst(*name, *args);
                assert(a.take(0) =~= Seq::<KindView>::empty());
            }
            let mut total: usize = 0;
            let mut i: usize = 0;
            while i < args.len()
                invariant
                    i <= args@.len(),
                    a == kind@->GenericInst_1,
                    a.len() == args@.len(),
                    total == capped(args_weight(a.take(i as int))),
                decreases args@.len() - i,
            {
                proof {
                    assert(decreases_to!(args@ => args@[i as int]));
                    assert(decreases_to!(*args => args@));
                    assert(decreases_to!(*kind => *args));
                    assert(a.take(i + 1).drop_last() =~= a.take(i as int));
                    assert(a.take(i + 1).last() == a[i as int]);
                }
                let w = kind_weight_of(&args[i]);
                total = saturating_sum(total, w);
                i = i + 1;
            }
            proof {
                assert(a.take(args@.len() as int) =~= a);
            }
            total
        },
        _ => 0,
    }
}

/// The weight of a signature's items (see `items_weight`), capped at the largest
/// `usize`.
pub fn sig_weight_of(sig: &hir::Signature) -> (r: usize)
    ensures
        r == capped(items_weight(sig@.items)),
{
    let k = hir::SigKind::Sig(hir::clone_signature(sig));
    kind_weight_of(&k)
}

/// The first bound of a prefix of the items is at most that of all the items.
proof fn lemma_resolved_items_prefix(b: Seq<(Seq<char>, EntryView)>, ns: Seq<char>, c: nat, items: Seq<ItemView>, i: int)
    requires
        0 <= i <= items.len(),
    ensures
        resolved_items(b, ns, c, items.take(i)).1 <= resolved_items(b, ns, c, items).1,
    decreases items.len() - i,
{
    if i < items.len() {
        lemma_resolved_items_prefix(b, ns, c, items, i + 1);
        let t = items.take(i + 1);
        assert(t.drop_last() =~= items.take(i));
        let p = resolved_items(b, ns, c, items.take(i));
        let it = t.last();
        let n: nat = if it.name.len() == 0 { p.1 + 1 } else { p.1 };
        lemma_lowered_kind_counts_up(b, ns, n, it.kind, it.has_bang);
    } else {
        assert(items.take(i) =~= items);
    }
}

proof fn lemma_lowered_args_prefix(b: Seq<(Seq<char>, EntryView)>, ns: Seq<char>, c: nat, args: Seq<KindView>, i: int)
    requires
        0 <= i <= args.len(),
    ensures
        lowered_args(b, ns, c, args.take(i)).1 <= lowered_args(b, ns, c, args).1,
    decreases args.len() - i,
{
    if i < args.len() {
        lemma_lowered_args_prefix(b, ns, c, args, i + 1);
        let t = args.take(i + 1);
        assert(t.drop_last() =~= args.take(i));
        let p = lowered_args(b, ns, c, args.take(i));
        lemma_lowered_kind_counts_up(b, ns, p.1, t.last(), false);
    } else {
        assert(args.take(i) =~= args);
    }
}

/// What a type name written in a signature resolves to.
fn resolve_ident(ident: &hir::SigIdent, ctx: &Context) -> (r: hir::SigKind)
    ensures
        r@ == resolved_ident(ctx.bindings(), ident.name@),
{
    if let Some(entry) = ctx.get(ident.name.as_str()) {
        if entry.is_builtin || matches!(entry.kind, hir::SigKind::Generic(_)) {
            return hir::clone_kind(&entry.kind);
        }
    }
    hir::SigKind::Ident(hir::SigIdent { name: ident.name.clone() })
}

/// A position that the search finds holds the name.
proof fn lemma_generic_position(gens: Seq<Seq<char>>, name: Seq<char>)
    ensures
        generic_position(gens, name) matches Some(i) ==> 0 <= i < gens.len() && gens[i] == name,
    decreases gens.len(),
{
    if gens.len() > 0 && gens.last() != name {
        lemma_generic_position(gens.drop_last(), name);
    }
}

/// The last position of `name` among the generic parameters.
fn generic_index(gens: &Vec<String>, name: &str) -> (r: Option<usize>)
    ensures
        match r {
            Some(i) => i < gens@.len() && generic_position(names_view(gens@), name@) == Some(i as int),
            None => generic_position(names_view(gens@), name@) is None,
        },
{
    let ghost g = names_view(gens@);
    let mut i: usize = gens.len();
    proof {
        assert(g.take(gens@.len() as int) =~= g);
    }
    while i > 0
        invariant
            i <= gens@.len(),
            g == names_view(gens@),
            generic_position(g, name@) == generic_position(g.take(i as int), name@),
        decreases i,
    {
        proof {
            assert(g.take(i as int).drop_last() =~= g.take(i - 1));
        }
        if crate::text::str_eq(gens[i - 1].as_str(), name) {
            proof {
                assert(g.take(i as int).last() == name@);
            }
            return Some(i - 1);
        }
        i = i - 1;
    }
    proof {
        assert(g.take(0) =~= Seq::<Seq<char>>::empty());
    }
    None
}

/// The kind with each generic parameter replaced by its argument.
fn substitute_kind(kind: &hir::SigKind, gens: &Vec<String>, args: &Vec<hir::SigKind>) -> (r: hir::SigKind)
    requires
        gens@.len() == args@.len(),
    ensures
        r@ == substituted_kind(kind@, names_view(gens@), hir::kinds_view(args@)),
    decreases kind,
{
    match kind {
        hir::SigKind::Sig(signature) => {
            return hir::SigKind::Sig(substitute_signature(signature, gens, args));
        },
        hir::SigKind::Ident(ident) => {
            proof {
                lemma_generic_position(names_view(gens@), ident.name@);
            }
            match generic_index(gens, ident.name.as_str()) {
                Some(i) => {
                    return hir::clone_kind(&args[i]);
                },
                None => {
                    return hir::SigKind::Ident(hir::SigIdent { name: ident.name.clone() });
                },
            }
        },
        hir::SigKind::Generic(name) => {
            proof {
                lemma_generic_position(names_view(gens@), name@);
            }
            match generic_index(gens, name.as_str()) {
                Some(i) => {
                    return hir::clone_kind(&args[i]);
                },
                None => {
                    return hir::SigKind::Generic(name.clone());
                },
            }
        },
        other => hir::clone_kind(other),
    }
}

/// The signature with each generic parameter replaced by its argument; it has no generic
/// parameters left.
#[verifier::loop_isolation(false)]
fn substitute_signature(signature: &hir::Signature, gens: &Vec<String>, args: &Vec<hir::SigKind>) -> (r: hir::Signature)
    requires
        gens@.len() == args@.len(),
    ensures
        r@ == substituted_sig(signature@, names_view(gens@), hir::kinds_view(args@)),
    decreases signature,
{
    let mut items: Vec<hir::SigItem> = Vec::new();
    let mut i: usize = 0;
    proof {
        hir::lemma_view_sig(*signature);
    }
    while i < signature.items.len()
        invariant
            i <= signature.items@.len(),
            items@.len() == i,
            forall|j: int| 0 <= j < i ==> (#[trigger] items@[j])@ == substituted_sig(signature@, names_view(gens@), hir::kinds_view(args@)).items[j],
        decreases signature.items@.len() - i,
    {
        proof {
            assert(decreases_to!(signature.items@[i as int] => signature.items@[i as int].kind));
            assert(decreases_to!(signature.items@ => signature.items@[i as int]));
            assert(decreases_to!(signature.items => signature.items@));
            assert(decreases_to!(*signature => signature.items));
        }
        let item = &signature.items[i];
        let k = substitute_kind(&item.kind, gens, args);
        items.push(hir::SigItem { name: item.name.clone(), kind: k, has_bang: item.has_bang });
        i = i + 1;
    }
    let r = hir::Signature { items, generics: Vec::new() };
    proof {
        hir::lemma_view_sig(r);
        assert(r@.items =~= substituted_sig(signature@, names_view(gens@), hir::kinds_view(args@)).items);
        assert(r@.generics =~= Seq::<Seq<char>>::empty());
    }
    r
}

/// `name<args>` (see `instantiated`).
fn instantiate_generic_inst(name: &str, args: &Vec<hir::SigKind>, ctx: &Context) -> (r: Option<hir::SigKind>)
    ensures
        match instantiated(ctx.bindings(), name@, hir::kinds_view(args@)) {
            Some(k) => r matches Some(x) && x@ == k,
            None => r is None,
        },
{
    let entry = match ctx.get(name) {
        Some(e) => e,
        None => return None,
    };
    let signature = match &entry.kind {
        hir::SigKind::Sig(signature) => signature,
        _ => {
            assert(!(entry@.kind is Sig));
            return None;
        },
    };
    proof {
        assert(entry@.kind == KindView::Sig(signature@));
        assert(signature@.generics.len() == signature.generics@.len());
    }
    if signature.generics.len() != args.len() {
        return None;
    }
    Some(hir::SigKind::Sig(substitute_signature(signature, &signature.generics, args)))
}

/// The kind with its type names resolved, its generic instances expanded and, for a
/// parameter marked `!`, `int` and `str` made compile-time (see `lowered_kind`).
#[verifier::loop_isolation(false)]
fn lower_sig_kind(kind: &hir::SigKind, ctx: &mut Context, has_bang: bool) -> (r: hir::SigKind)
    requires
        lowered_kind(old(ctx).bindings(), old(ctx).ns@, old(ctx).counter as nat, kind@, has_bang).1 <= usize::MAX,
    ensures
        ({
            let l = lowered_kind(old(ctx).bindings(), old(ctx).ns@, old(ctx).counter as nat, kind@, has_bang);
            &&& r@ == l.0
            &&& *final(ctx) == (Context { counter: l.1 as usize, ..*old(ctx) })
        }),
    decreases kind,
{
    match kind {
        hir::SigKind::Ident(ident) => {
            let resolved = resolve_ident(ident, ctx);
            if has_bang {
                match resolved {
                    hir::SigKind::Int => hir::SigKind::CompileTimeInt,
                    hir::SigKind::Str => hir::SigKind::CompileTimeStr,
                    hir::SigKind::CompileTimeInt => hir::SigKind::CompileTimeInt,
                    hir::SigKind::CompileTimeStr => hir::SigKind::CompileTimeStr,
                    other => other,
                }
            } else {
                resolved
            }
        },
        hir::SigKind::Sig(signature) => hir::SigKind::Sig(resolve_signature(signature, ctx)),
        hir::SigKind::GenericInst { name, args } => {
            let ghost b = ctx.bindings();
            let ghost ns = ctx.ns@;
            let ghost c0 = ctx.counter as nat;
            let ghost c_before = *ctx;
            let ghost a = hir::kinds_view(args@);
            proof {
                hir::lemma_view_inst(*name, *args);
                assert(kind@->GenericInst_1 =~= a);
            }
            let mut resolved_args: Vec<hir::SigKind> = Vec::new();
            let mut i: usize = 0;
            proof {
                assert(a.take(0) =~= Seq::<KindView>::empty());
                assert(hir::kinds_view(resolved_args@) =~= Seq::<KindView>::empty());
            }
            while i < args.len()
                invariant
                    i <= args@.len(),
                    a == hir::kinds_view(args@),
                    b == ctx.bindings(),
                    ns == ctx.ns@,
                    lowered_args(b, ns, c0, a).1 <= usize::MAX,
                    hir::kinds_view(resolved_args@) == lowered_args(b, ns, c0, a.take(i as int)).0,
                    *ctx == (Context { counter: lowered_args(b, ns, c0, a.take(i as int)).1 as usize, ..c_before }),
                decreases args@.len() - i,
            {
                proof {
                    assert(decreases_to!(args@ => args@[i as int]));
                    assert(decreases_to!(*args => args@));
                    assert(decreases_to!(*kind => *args));
                    let t = a.take(i + 1);
                    assert(t.drop_last() =~= a.take(i as int));
                    assert(t.last() == args@[i as int]@);
                    lemma_lowered_args_prefix(b, ns, c0, a, i + 1);
                    lemma_lowered_args_prefix(b, ns, c0, a, i as int);
                }
                let k = lower_sig_kind(&args[i], ctx, false);
                let ghost before = resolved_args@;
                resolved_args.push(k);
                proof {
                    assert(hir::kinds_view(resolved_args@) =~= hir::kinds_view(before).push(k@));
                }
                i = i + 1;
            }
            proof {
                assert(a.take(args@.len() as int) =~= a);
            }
            match instantiate_generic_inst(name.as_str(), &resolved_args, ctx) {
                Some(k) => k,
                None => hir::SigKind::Ident(hir::SigIdent { name: name.clone() }),
            }
        },
        hir::SigKind::Generic(name) => hir::SigKind::Generic(name.clone()),
        hir::SigKind::Int => {
            if has_bang {
                hir::SigKind::CompileTimeInt
            } else {
                hir::SigKind::Int
            }
        },
        hir::SigKind::Str => {
            if has_bang {
                hir::SigKind::CompileTimeStr
            } else {
                hir::SigKind::Str
            }
        },
        hir::SigKind::Byte => hir::SigKind::Byte,
        hir::SigKind::F64 => hir::SigKind::F64,
        hir::SigKind::Variadic => hir::SigKind::Variadic,
        hir::SigKind::CompileTimeInt => hir::SigKind::CompileTimeInt,
        hir::SigKind::CompileTimeStr => hir::SigKind::CompileTimeStr,
    }
}

/// The signature with a fresh name `_{n}_{ns}` for each unnamed parameter and each
/// kind resolved in `ctx` (see `resolved_sig`). Only the fresh-name counter of `ctx`
/// changes.
#[verifier::loop_isolation(false)]
pub fn resolve_signature(signature: &hir::Signature, ctx: &mut Context) -> (r: hir::Signature)
    requires
        resolved_sig(old(ctx).bindings(), old(ctx).ns@, old(ctx).counter as nat, signature@).1 <= usize::MAX,
    ensures
        ({
            let l = resolved_sig(old(ctx).bindings(), old(ctx).ns@, old(ctx).counter as nat, signature@);
            &&& r@ == l.0
            &&& *final(ctx) == (Context { counter: l.1 as usize, ..*old(ctx) })
        }),
    decreases signature,
{
    let ghost b = ctx.bindings();
    let ghost ns = ctx.ns@;
    let ghost c0 = ctx.counter as nat;
    let ghost c_before = *ctx;
    let ghost its = signature@.items;
    proof {
        hir::lemma_view_sig(*signature);
    }
    let mut items: Vec<hir::SigItem> = Vec::new();
    let mut i: usize = 0;
    proof {
        assert(its.take(0) =~= Seq::<ItemView>::empty());
        assert(hir::items_view(items@) =~= Seq::<ItemView>::empty());
    }
    while i < signature.items.len()
        invariant
            i <= signature.items@.len(),
            its == signature@.items,
            b == ctx.bindings(),
            ns == ctx.ns@,
            resolved_items(b, ns, c0, its).1 <= usize::MAX,
            hir::items_view(items@) == resolved_items(b, ns, c0, its.take(i as int)).0,
            *ctx == (Context { counter: resolved_items(b, ns, c0, its.take(i as int)).1 as usize, ..c_before }),
        decreases signature.items@.len() - i,
    {
        proof {
            assert(decreases_to!(signature.items@[i as int] => signature.items@[i as int].kind));
            assert(decreases_to!(signature.items@ => signature.items@[i as int]));
            assert(decreases_to!(signature.items => signature.items@));
            assert(decreases_to!(*signature => signature.items));
            let t = its.take(i + 1);
            assert(t.drop_last() =~= its.take(i as int));
            assert(t.last() == signature.items@[i as int]@);
            lemma_resolved_items_prefix(b, ns, c0, its, i + 1);
            lemma_resolved_items_prefix(b, ns, c0, its, i as int);
            let p = resolved_items(b, ns, c0, its.take(i as int));
            let it = t.last();
            let n: nat = if it.name.len() == 0 { p.1 + 1 } else { p.1 };
            lemma_lowered_kind_counts_up(b, ns, n, it.kind, it.has_bang);
        }
        let item = &signature.items[i];
        let name = if item.name.unicode_len() == 0 {
            ctx.new_name()
        } else {
            item.name.clone()
        };
        let kind = lower_sig_kind(&item.kind, ctx, item.has_bang);
        let new_item = hir::SigItem { name, kind, has_bang: item.has_bang };
        let ghost before = items@;
        items.push(new_item);
        proof {
            assert(hir::items_view(items@) =~= hir::items_view(before).push(new_item@));
        }
        i = i + 1;
    }
    proof {
        assert(its.take(signature.items@.len() as int) =~= its);
    }
    let r = hir::Signature { items, generics: hir::clone_names(&signature.generics) };
    proof {
        hir::lemma_view_sig(r);
        assert(r@.items =~= hir::items_view(items@));
    }
    r
}

} // verus!
