//! Lowering of parsed block items into the high-level representation: functions are
//! hoisted out with their captures as parameters, calls get their arguments checked
//! and turned into named values, and partial applications become closures.

use vstd::prelude::*;

use crate::compiler::ast;
use crate::compiler::call_args::{exhausted, exhausted_message, resolve_call_arguments, CallArg};
use crate::compiler::error::{Code, Error};
use crate::compiler::hir::{
    current_scope_generics, ensure_exec_args_complete, ensure_param_names, lemma_named_items_bound,
    maybe_capture_name, named_items, register_generic_placeholders, term_kind, undefined_name_message,
    validate_input_type,
};
use crate::compiler::hir_ast::{
    self as hir, canon_sig, clone_item, clone_kind, clone_names, clone_signature, extends, items_view, lemma_extends_append,
    lemma_extends_refl, lemma_extends_trans, names_view, Block, BlockItem,
    Closure, Exec, Function, ItemView, KindView, Lit, SigIdent, SigItem, SigKind, Signature,
};
use crate::compiler::hir_context::{
    binding_views, clone_entry, closure_lookup, closure_views, duplicate_message, lookup_in, register_import, ClosureView,
    ContextEntry, Context, EntryView,
};
use crate::compiler::signature::{
    ast_signature_to_hir, expected_params_for_args, items_weight, lemma_resolved_items_bound, normalize_signature,
    resolve_signature, resolve_target_signature, resolved_sig, sig_weight_of, signature_from_kind, capped,
};
use crate::compiler::span::Span;
use crate::text::{concat, push_str, usize_to_string};

verus! {

// ---------------------------------------------------------------------------
// Sizes of parsed terms
// ---------------------------------------------------------------------------

/// The size of a term: one for a literal, one plus the sizes of the parts for the
/// others. Lowering recurses on parts, which are smaller.
pub open spec fn term_size(t: ast::Term) -> nat
    decreases t,
{
    match t {
        ast::Term::Int(_) => 1,
        ast::Term::String(_) => 1,
        ast::Term::Lambda(l) => 1 + items_size(l.body.items@) + terms_size(l.args@),
        ast::Term::Ident(i) => 1 + terms_size(i.args@),
    }
}

pub open spec fn terms_size(ts: Seq<ast::Term>) -> nat
    decreases ts,
{
    if ts.len() == 0 {
        0
    } else {
        terms_size(ts.drop_last()) + term_size(ts.last())
    }
}

pub open spec fn items_size(items: Seq<ast::BlockItem>) -> nat
    decreases items,
{
    if items.len() == 0 {
        0
    } else {
        items_size(items.drop_last()) + item_size(items.last())
    }
}

pub open spec fn item_size(item: ast::BlockItem) -> nat
    decreases item,
{
    match item {
        ast::BlockItem::FunctionDef { lambda, .. } => 2 + items_size(lambda.body.items@) + terms_size(lambda.args@),
        ast::BlockItem::IdentDef { ident, .. } => 2 + terms_size(ident.args@),
        ast::BlockItem::Lambda(l) => 2 + items_size(l.body.items@) + terms_size(l.args@),
        ast::BlockItem::Ident(i) => 2 + terms_size(i.args@),
        ast::BlockItem::ScopeCapture { continuation, term, .. } => 3 + items_size(continuation.items@) + term_size(term),
        _ => 1,
    }
}

pub open spec fn lambda_size(l: ast::Lambda) -> nat {
    1 + items_size(l.body.items@) + terms_size(l.args@)
}

proof fn lemma_terms_elem(ts: Seq<ast::Term>, i: int)
    requires
        0 <= i < ts.len(),
    ensures
        term_size(ts[i]) <= terms_size(ts),
    decreases ts.len(),
{
    if i < ts.len() - 1 {
        lemma_terms_elem(ts.drop_last(), i);
    }
}

proof fn lemma_items_elem(items: Seq<ast::BlockItem>, i: int)
    requires
        0 <= i < items.len(),
    ensures
        item_size(items[i]) <= items_size(items),
    decreases items.len(),
{
    if i < items.len() - 1 {
        lemma_items_elem(items.drop_last(), i);
    }
}

proof fn lemma_terms_push(ts: Seq<ast::Term>, t: ast::Term)
    ensures
        terms_size(ts.push(t)) == terms_size(ts) + term_size(t),
{
    assert(ts.push(t).drop_last() =~= ts);
}

// ---------------------------------------------------------------------------
// Scope capture
// ---------------------------------------------------------------------------

/// The term with `callback` appended to its arguments; only a name or a lambda can take
/// one.
pub fn append_scope_capture_arg(term: ast::Term, callback: ast::Term) -> (r: Result<ast::Term, Error>)
    ensures
        match term {
            ast::Term::Ident(i) => r matches Ok(ast::Term::Ident(j)) && j.name == i.name && j.span == i.span && j.args@
                == i.args@.push(callback),
            ast::Term::Lambda(l) => r matches Ok(ast::Term::Lambda(m)) && m.params == l.params && m.body == l.body
                && m.span == l.span && m.args@ == l.args@.push(callback),
            _ => r matches Err(e) && e.code == Code::Parse && e.message@ == "ctx capture target must be callable"@,
        },
{
    match term {
        ast::Term::Ident(mut ident) => {
            ident.args.push(callback);
            Ok(ast::Term::Ident(ident))
        },
        ast::Term::Lambda(mut lambda) => {
            lambda.args.push(callback);
            Ok(ast::Term::Lambda(lambda))
        },
        _ => Err(Error::new(Code::Parse, "ctx capture target must be callable".to_string(), Span::unknown())),
    }
}

// ---------------------------------------------------------------------------
// Emitting closures
// ---------------------------------------------------------------------------

/// How many recorded closures have a name outside `seen`.
pub open spec fn unseen_count(closures: Seq<ClosureView>, seen: Seq<Seq<char>>) -> nat
    decreases closures.len(),
{
    if closures.len() == 0 {
        0
    } else {
        unseen_count(closures.drop_last(), seen) + if seen.contains(closures.last().name) {
            0nat
        } else {
            1nat
        }
    }
}

proof fn lemma_unseen_push(closures: Seq<ClosureView>, seen: Seq<Seq<char>>, name: Seq<char>)
    ensures
        unseen_count(closures, seen.push(name)) <= unseen_count(closures, seen),
        !seen.contains(name) && (exists|j: int| 0 <= j < closures.len() && closures[j].name == name) ==> unseen_count(
            closures,
            seen.push(name),
        ) < unseen_count(closures, seen),
    decreases closures.len(),
{
    if closures.len() > 0 {
        lemma_unseen_push(closures.drop_last(), seen, name);
        assert forall|x: Seq<char>| seen.contains(x) ==> #[trigger] seen.push(name).contains(x) by {
            if seen.contains(x) {
                let k = choose|k: int| 0 <= k < seen.len() && seen[k] == x;
                assert(seen.push(name)[k] == x);
            }
        }
        assert(seen.push(name).contains(name)) by {
            assert(seen.push(name)[seen.len() as int] == name);
        }
        if !seen.contains(name) && (exists|j: int| 0 <= j < closures.len() && closures[j].name == name) {
            let j = choose|j: int| 0 <= j < closures.len() && closures[j].name == name;
            if j < closures.len() - 1 {
                assert(closures.drop_last()[j].name == name);
            }
        }
        if seen.push(name).contains(closures.last().name) && !seen.contains(closures.last().name) {
            assert(closures.last().name == name) by {
                let k = choose|k: int| 0 <= k < seen.push(name).len() && seen.push(name)[k] == closures.last().name;
                if k < seen.len() {
                    assert(seen[k] == closures.last().name);
                }
            }
        }
    }
}

/// The index of the last closure recorded under `name`.
fn find_closure(defs: &Vec<Closure>, name: &str) -> (r: Option<usize>)
    ensures
        match r {
            Some(i) => i < defs@.len() && defs@[i as int].name@ == name@ && closure_lookup(closure_views(defs@), name@) == Some(
                closure_views(defs@)[i as int],
            ),
            None => closure_lookup(closure_views(defs@), name@) is None,
        },
{
    let ghost v = closure_views(defs@);
    let mut i: usize = defs.len();
    proof {
        assert(v.take(v.len() as int) =~= v);
    }
    while i > 0
        invariant
            i <= defs@.len(),
            v == closure_views(defs@),
            closure_lookup(v, name@) == closure_lookup(v.take(i as int), name@),
        decreases i,
    {
        proof {
            assert(v.take(i as int).drop_last() =~= v.take(i - 1));
        }
        if crate::text::str_eq(defs[i - 1].name.as_str(), name) {
            return Some(i - 1);
        }
        i = i - 1;
    }
    proof {
        assert(v.take(0) =~= Seq::<ClosureView>::empty());
    }
    None
}

/// The name under which the value `name` is used: a recorded closure not emitted yet
/// is emitted here (its arguments first) as a closure definition, or stands for its
/// target when it has no arguments; an emitted closure without arguments stands for its
/// target; any other name stands for itself. A name already being emitted stands for
/// itself.
pub fn emit_closure_for_term(
    ctx: &mut Context,
    name: &str,
    lowered_items: &mut Vec<BlockItem>,
    seen: &mut Vec<String>,
) -> (r: String)
    ensures
        final(ctx).closure_defs == old(ctx).closure_defs,
        *final(ctx) == (Context { emitted_closures: final(ctx).emitted_closures, ..*old(ctx) }),
        names_view(final(seen)@) == names_view(old(seen)@),
        final(lowered_items)@.len() >= old(lowered_items)@.len(),
        closure_lookup(old(ctx).closures(), name@) is None ==> r@ == name@ && final(lowered_items)@ == old(lowered_items)@,
    decreases unseen_count(old(ctx).closures(), names_view(old(seen)@)),
{
    if crate::compiler::hir_context::contains_name(seen, name) {
        return name.to_string();
    }
    let ghost seen0 = names_view(seen@);
    seen.push(name.to_string());
    proof {
        assert(names_view(seen@) =~= seen0.push(name@));
    }
    let mut result = name.to_string();
    let found = find_closure(&ctx.closure_defs, name);
    if let Some(k) = found {
        let of = ctx.closure_defs[k].of.clone();
        let info_args = clone_names(&ctx.closure_defs[k].args);
        proof {
            assert(ctx.closures()[k as int].name == name@);
            assert(exists|j: int| 0 <= j < ctx.closures().len() && ctx.closures()[j].name == name@);
            assert(!seen0.contains(name@));
            lemma_unseen_push(ctx.closures(), seen0, name@);
        }
        if crate::compiler::hir_context::contains_name(&ctx.emitted_closures, name) {
            if info_args.len() == 0 {
                result = of;
            }
        } else {
            let mut lowered_args: Vec<String> = Vec::new();
            let mut i: usize = 0;
            while i < info_args.len()
                invariant
                    ctx.closure_defs == old(ctx).closure_defs,
                    *ctx == (Context { emitted_closures: ctx.emitted_closures, ..*old(ctx) }),
                    names_view(seen@) == seen0.push(name@),
                    seen0 == names_view(old(seen)@),
                    unseen_count(old(ctx).closures(), seen0.push(name@)) < unseen_count(old(ctx).closures(), seen0),
                    lowered_items@.len() >= old(lowered_items)@.len(),
                decreases info_args@.len() - i,
            {
                let arg_name = emit_closure_for_term(ctx, info_args[i].as_str(), lowered_items, seen);
                lowered_args.push(arg_name);
                i = i + 1;
            }
            if lowered_args.len() == 0 {
                result = of;
            } else {
                lowered_items.push(BlockItem::ClosureDef(Closure { name: name.to_string(), of, args: lowered_args }));
            }
            ctx.emitted_closures.push(name.to_string());
        }
    }
    let ghost before_pop = seen@;
    proof {
        assert(names_view(before_pop) == seen0.push(name@));
    }
    seen.pop();
    proof {
        assert(seen@ =~= before_pop.drop_last());
        assert(names_view(seen@) =~= names_view(before_pop).drop_last());
        assert(names_view(seen@) =~= seen0);
    }
    result
}

// ---------------------------------------------------------------------------
// Builtins passed as function values
// ---------------------------------------------------------------------------

/// A lambda that takes the parameters of `expected_sig` (unnamed ones get fresh names)
/// and calls the builtin `ident` with them after its own arguments.
pub fn new_builtin_wrapper(ctx: &mut Context, ident: ast::Ident, expected_sig: &Signature) -> (r: Result<ast::Term, Error>)
    ensures
        r matches Ok(t) ==> (t matches ast::Term::Lambda(l) && l.args@.len() == 0 && l.body.items@.len() == 1
            && l.params@.items.len() == expected_sig@.items.len()),
        r matches Err(e) ==> e.code == Code::Internal,
{
    proof {
        hir::lemma_view_sig(*expected_sig);
        lemma_named_items_bound(ctx.ns@, ctx.counter as nat, expected_sig@.items);
        crate::compiler::hir::lemma_named_items_len(ctx.ns@, ctx.counter as nat, expected_sig@.items);
    }
    if ctx.counter > usize::MAX - expected_sig.items.len() {
        return Err(exhausted());
    }
    let lambda_sig = ensure_param_names(ctx, expected_sig);
    let mut builtin_call = ident;
    let mut i: usize = 0;
    while i < lambda_sig.items.len()
        decreases lambda_sig.items@.len() - i,
    {
        builtin_call.args.push(ast::Term::Ident(ast::Ident {
            name: lambda_sig.items[i].name.clone(),
            args: Vec::new(),
            span: Span::unknown(),
        }));
        i = i + 1;
    }
    let body = ast::Block { items: vec![ast::BlockItem::Ident(builtin_call)], span: Span::unknown() };
    Ok(ast::Term::Lambda(ast::Lambda { params: lambda_sig, body, args: Vec::new(), span: Span::unknown() }))
}

/// The name of an identifier term; empty for any other term.
pub open spec fn term_name(term: ast::Term) -> Seq<char> {
    match term {
        ast::Term::Ident(id) => id.name@,
        _ => Seq::empty(),
    }
}

/// Whether `term` is an identifier whose entry (`entry`) is a builtin, standing where
/// a parameter of function type is expected.
pub open spec fn wraps_builtin(entry: Option<EntryView>, term: ast::Term, expected_param: Option<&SigItem>) -> bool {
    &&& term is Ident
    &&& entry matches Some(e) && e.is_builtin
    &&& expected_param matches Some(item) && item.kind is Sig
}

/// A builtin named where a function value is expected becomes a lambda that calls it
/// (see `new_builtin_wrapper`); the second result says whether that happened. Any
/// other term stays as it is.
pub fn maybe_wrap_builtin(ctx: &mut Context, term: ast::Term, expected_param: Option<&SigItem>) -> (r: Result<
    (ast::Term, bool),
    Error,
>)
    ensures
        r matches Ok((t, wrapped)) ==> (!wrapped ==> t == term),
        !wraps_builtin(old(ctx).lookup(term_name(term)), term, expected_param) ==> (r matches Ok((t, wrapped))
            && t == term && !wrapped && *final(ctx) == *old(ctx)),
        wraps_builtin(old(ctx).lookup(term_name(term)), term, expected_param) ==> (r matches Ok((t, wrapped)) ==> (wrapped
            && (t matches ast::Term::Lambda(l) && l.args@.len() == 0 && l.body.items@.len() == 1
            && l.params@.items.len() == expected_param->Some_0.kind->Sig_0@.items.len()))),
{
    let ident = match term {
        ast::Term::Ident(ident) => ident,
        other => {
            return Ok((other, false));
        },
    };
    let is_builtin = match ctx.get(ident.name.as_str()) {
        Some(entry) => entry.is_builtin,
        None => false,
    };
    if !is_builtin {
        return Ok((ast::Term::Ident(ident), false));
    }
    let sig_item = match expected_param {
        Some(item) => item,
        None => {
            return Ok((ast::Term::Ident(ident), false));
        },
    };
    match &sig_item.kind {
        SigKind::Sig(signature) => {
            let wrapped = new_builtin_wrapper(ctx, ident, signature)?;
            Ok((wrapped, true))
        },
        _ => Ok((ast::Term::Ident(ident), false)),
    }
}

// ---------------------------------------------------------------------------
// Budget of fresh names
// ---------------------------------------------------------------------------

/// Whether `counter` fresh names have been taken and `weight` more (a bound of what a
/// signature resolution takes, capped at `usize::MAX`) still fit in a `usize`.
pub open spec fn fits_budget(counter: nat, weight: usize) -> bool {
    weight < usize::MAX && counter + weight <= usize::MAX
}

/// Whether the fresh names that telling the kind of `term` takes still fit the counter.
fn term_budget_ok(ctx: &Context, term: &ast::Term) -> (r: bool)
    ensures
        r == match *term {
            ast::Term::Lambda(l) => fits_budget(
                ctx.counter as nat,
                capped(items_weight(canon_sig(l.params@).items)),
            ),
            _ => true,
        },
        r ==> forall|allow: bool| #[trigger] term_kind(ctx.bindings(), ctx.ns@, ctx.counter as nat, *term, allow).1
            <= usize::MAX,
{
    match term {
        ast::Term::Lambda(l) => {
            let s = ast_signature_to_hir(ast::clone_signature(&l.params));
            let w = sig_weight_of(&s);
            proof {
                lemma_resolved_items_bound(ctx.bindings(), ctx.ns@, ctx.counter as nat, s@.items);
            }
            w < usize::MAX && ctx.counter <= usize::MAX - w
        },
        _ => true,
    }
}

/// Resolves a signature when the fresh names it takes still fit the counter.
fn resolve_signature_within(signature: &Signature, ctx: &mut Context) -> (r: Result<Signature, Error>)
    ensures
        r matches Ok(x) ==> ({
            let l = resolved_sig(old(ctx).bindings(), old(ctx).ns@, old(ctx).counter as nat, signature@);
            &&& x@ == l.0
            &&& *final(ctx) == (Context { counter: l.1 as usize, ..*old(ctx) })
        }),
        r is Err ==> *final(ctx) == *old(ctx),
        r is Ok <==> fits_budget(old(ctx).counter as nat, capped(items_weight(signature@.items))),
        r matches Err(e) ==> (e.code == Code::Internal && e.message@ == exhausted_message()),
{
    let w = sig_weight_of(signature);
    proof {
        lemma_resolved_items_bound(ctx.bindings(), ctx.ns@, ctx.counter as nat, signature@.items);
    }
    if w == usize::MAX || ctx.counter > usize::MAX - w {
        return Err(exhausted());
    }
    Ok(resolve_signature(signature, ctx))
}

fn unresolved_target(name: &str) -> (e: Error)
    ensures
        e.code == Code::HIR,
        e.message@ == "could not resolve target '"@ + name@ + "'"@,
{
    let mut m = concat("could not resolve target '", name);
    push_str(&mut m, "'");
    Error::new(Code::HIR, m, Span::unknown())
}

// ---------------------------------------------------------------------------
// The lowering of block items, terms and calls
// ---------------------------------------------------------------------------

/// Whether a function lowered in a scope with the given names under `display_name` is
/// called `name`: at the root, a function keeps a non-empty display name.
pub open spec fn root_named(scope: Seq<Seq<char>>, display_name: Option<String>, name: Seq<char>) -> bool {
    match display_name {
        Some(d) => (scope.len() == 0 && d@.len() > 0) ==> name == d@,
        None => true,
    }
}

/// Whether a block item transfers control: an execution of a name, of a lambda, or a
/// scope capture.
pub open spec fn executes(item: ast::BlockItem) -> bool {
    item is Ident || item is Lambda || item is ScopeCapture
}

/// Lowers a function: its signature is resolved (generic parameters bound as
/// placeholders) and bound under `name`, its body is lowered in a scope of its own, and
/// the lowered function, whose parameters are its captures followed by its own
/// parameters, is hoisted. An outer entry records the captures.
fn lower_function(
    outer_ctx: &mut Context,
    name: String,
    display_name: Option<String>,
    lambda: ast::Lambda,
    hoisted: &mut Vec<BlockItem>,
    is_root_def: bool,
    wrap: bool,
) -> (r: Result<(), Error>)
    ensures
        r is Ok ==> extends(old(hoisted)@, final(hoisted)@),
        r is Ok ==> final(hoisted)@.len() > 0 && (final(hoisted)@.last() matches BlockItem::FunctionDef(f)
            && root_named(old(outer_ctx).scope_names(), display_name, f.name@)),
        lambda.params@.items.len() == 0 && lambda.params@.generics.len() == 0 && lambda.body.items@.len() == 0
            && old(outer_ctx).counter < usize::MAX && old(outer_ctx).inner_lookup(name@) is None ==> r is Ok,
        r is Ok ==> (final(hoisted)@.last() matches BlockItem::FunctionDef(f) && f.sig@.generics == canon_sig(
            lambda.params@,
        ).generics),
        r is Ok && lambda.body.items@.len() > 0 && executes(lambda.body.items@.last()) ==> (final(hoisted)@.last() matches BlockItem::FunctionDef(
        f) && f.body.items@.len() > 0 && f.body.items@.last() is Exec),
    decreases (if wrap { 1nat } else { 0nat }), lambda_size(lambda), 0nat,
{
    proof {
        lemma_extends_refl(hoisted@);
    }
    let lambda_params = ast_signature_to_hir(ast::clone_signature(&lambda.params));
    let display = match &display_name {
        Some(d) => Some(d.as_str()),
        None => None,
    };
    let mut signature_ctx = outer_ctx.enter(name.as_str(), display, is_root_def);
    register_generic_placeholders(&mut signature_ctx, &lambda_params.generics)?;
    let signature = resolve_signature_within(&lambda_params, &mut signature_ctx)?;
    outer_ctx.leave(&signature_ctx);
    if outer_ctx.counter == usize::MAX {
        return Err(exhausted());
    }
    let new_name = outer_ctx.new_name_for_fn(display);
    outer_ctx.add_sig(name.as_str(), new_name.as_str(), clone_signature(&signature), Span::unknown(), false)?;
    let mut ctx = outer_ctx.enter(name.as_str(), display, is_root_def);
    register_generic_placeholders(&mut ctx, &lambda_params.generics)?;
    let mut p: usize = 0;
    proof {
        if lambda.params@.items.len() == 0 {
            assert(lambda_params@.items.len() == 0);
            assert(signature@.items.len() == 0);
            assert(signature.items@.len() == 0);
        }
    }
    while p < signature.items.len()
        invariant
            lambda.params@.items.len() == 0 ==> signature.items@.len() == 0,
        decreases signature.items@.len() - p,
    {
        ctx.add_param(signature.items[p].name.as_str(), clone_kind(&signature.items[p].kind), Span::unknown(), false)?;
        p = p + 1;
    }
    let ast::Lambda { params, body, args: _, span: _ } = lambda;
    let ghost all = body.items@;
    let mut rest = body.items;
    let mut lowered_items: Vec<BlockItem> = Vec::new();
    let ghost size = lambda_size(lambda);
    proof {
        assert(size == 1 + items_size(all) + terms_size(lambda.args@));
    }
    while rest.len() > 0
        invariant
            extends(old(hoisted)@, hoisted@),
            rest@ == all.subrange(all.len() - rest@.len(), all.len() as int),
            rest@.len() <= all.len(),
            size == 1 + items_size(all) + terms_size(lambda.args@),
            size == lambda_size(lambda),
            all == lambda.body.items@,
            rest@.len() < all.len() && executes(all[all.len() - rest@.len() - 1]) ==> (lowered_items@.len() > 0
                && lowered_items@.last() is Exec),
        decreases rest@.len(),
    {
        let ghost k = all.len() - rest@.len();
        let item = rest.remove(0);
        proof {
            assert(item == all[k]);
            lemma_items_elem(all, k);
            assert(rest@ =~= all.subrange(all.len() - rest@.len(), all.len() as int));
        }
        match item {
            ast::BlockItem::Import { .. } => {
                let m = "in-function imports should be blocked by the parser".to_string();
                return Err(Error::new(Code::Internal, m, Span::unknown()));
            },
            ast::BlockItem::FunctionDef { name: inner_name, lambda: inner, .. } => {
                let inner_display = inner_name.clone();
                let ghost before = hoisted@;
                lower_function(&mut ctx, inner_name, Some(inner_display), inner, hoisted, false, wrap)?;
                proof {
                    lemma_extends_trans(old(hoisted)@, before, hoisted@);
                }
            },
            other => {
                let ghost before = hoisted@;
                let mut items = lower_block_item(&mut ctx, other, hoisted, wrap)?;
                proof {
                    lemma_extends_trans(old(hoisted)@, before, hoisted@);
                }
                let ghost got = items@;
                let ghost had = lowered_items@;
                lowered_items.append(&mut items);
                proof {
                    if executes(all[k]) {
                        assert(lowered_items@ == had + got);
                        assert(lowered_items@.last() == got.last());
                    }
                }
            },
        }
    }
    outer_ctx.leave(&ctx);
    let params_signature = Signature { items: ctx.get_params(), generics: clone_names(&lambda_params.generics) };
    let normalized_sig = normalize_signature(&params_signature, &ctx);
    let ghost before_push = hoisted@;
    hoisted.push(BlockItem::FunctionDef(Function {
        name: new_name,
        sig: normalized_sig,
        body: Block { items: lowered_items },
    }));
    proof {
        lemma_extends_append(before_push, seq![hoisted@.last()]);
        assert(before_push + seq![hoisted@.last()] =~= hoisted@);
        lemma_extends_trans(old(hoisted)@, before_push, hoisted@);
    }
    let captures = ctx.get_captures();
    if captures.len() > 0 {
        match outer_ctx.get_mut(name.as_str()) {
            Some(entry) => {
                entry.captures = captures;
            },
            None => {},
        }
    }
    Ok(())
}

/// Whether `name` is bound nowhere in reach of the context.
pub open spec fn unbound(ctx: Context, name: Seq<char>) -> bool {
    ctx.inner_lookup(name) is None && lookup_in(binding_views(ctx.outer@), name) is None
}

/// The outcome of executing a name bound nowhere: the error that says so.
pub open spec fn undefined_outcome<T>(ctx: Context, name: Seq<char>, r: Result<T, Error>) -> bool {
    ctx.counter < usize::MAX && unbound(ctx, name) ==> (r matches Err(e) && e.code == Code::HIR
        && e.message@ == undefined_name_message(name))
}

/// The outcome of an alias `name: target`: a target bound nowhere is an error; a name
/// bound already in the current scope is refused (nothing changes); otherwise `name` is
/// bound to a copy of the target's entry and nothing is lowered or hoisted.
pub open spec fn alias_outcome(
    old_ctx: Context,
    new_ctx: Context,
    old_hoisted: Vec<BlockItem>,
    new_hoisted: Vec<BlockItem>,
    name: Seq<char>,
    target: Seq<char>,
    r: Result<Vec<BlockItem>, Error>,
) -> bool {
    &&& new_hoisted == old_hoisted
    &&& match old_ctx.lookup(target) {
        None => r matches Err(e) && e.code == Code::HIR && e.message@ == "could not resolve target '"@ + target + "'"@
            && new_ctx == old_ctx,
        Some(entry) => match old_ctx.inner_lookup(name) {
            Some(_) => r matches Err(e) && e.code == Code::Resolve && e.message@ == duplicate_message(name)
                && new_ctx == old_ctx,
            None => r matches Ok(items) && items@.len() == 0 && new_ctx == (Context { inner: new_ctx.inner, ..old_ctx })
                && binding_views(new_ctx.inner@) == binding_views(old_ctx.inner@).push((name, entry)),
        },
    }
}

/// The outcome of a literal definition: a name bound already in the current scope is
/// refused (nothing changes); otherwise the name is bound to a literal of `kind` and the
/// definition is kept as the one lowered item. Nothing is hoisted.
pub open spec fn literal_def_outcome(
    old_ctx: Context,
    new_ctx: Context,
    old_hoisted: Vec<BlockItem>,
    new_hoisted: Vec<BlockItem>,
    name: String,
    kind: KindView,
    literal: Lit,
    r: Result<Vec<BlockItem>, Error>,
) -> bool {
    &&& new_hoisted == old_hoisted
    &&& match old_ctx.inner_lookup(name@) {
        Some(_) => r matches Err(e) && e.code == Code::Resolve && e.message@ == duplicate_message(name@)
            && new_ctx == old_ctx,
        None => r matches Ok(items) && items@ == seq![BlockItem::LitDef { name, literal }]
            && new_ctx.literal_added(old_ctx, name@, kind, Span::spec_unknown()),
    }
}

/// Lowers a block item other than an import or a function: a scope capture becomes an
/// execution of its term with the rest of the block appended as a continuation; an
/// execution or lambda is executed; a literal and a type definition are bound and kept;
/// a name definition binds the name to the target, or to the closure that applies the
/// given arguments to it.
fn lower_block_item(ctx: &mut Context, item: ast::BlockItem, hoisted: &mut Vec<BlockItem>, wrap: bool) -> (r: Result<
    Vec<BlockItem>,
    Error,
>)
    requires
        !(item is Import),
        !(item is FunctionDef),
    ensures
        r is Ok ==> extends(old(hoisted)@, final(hoisted)@),
        item matches ast::BlockItem::StrDef { name, literal, .. } ==> literal_def_outcome(*old(ctx), *final(ctx),
            *old(hoisted), *final(hoisted), name, KindView::CompileTimeStr, Lit::Str(literal.value), r),
        item matches ast::BlockItem::IntDef { name, literal, .. } ==> literal_def_outcome(*old(ctx), *final(ctx),
            *old(hoisted), *final(hoisted), name, KindView::CompileTimeInt, Lit::Int(literal.value), r),
        item matches ast::BlockItem::Ident(i) ==> undefined_outcome(*old(ctx), i.name@, r),
        item matches ast::BlockItem::ScopeCapture { term: ast::Term::Ident(i), .. } ==> undefined_outcome(
            *old(ctx),
            i.name@,
            r,
        ),
        item matches ast::BlockItem::ScopeCapture { term, .. } ==> (term is Int || term is String ==> (r matches Err(e)
            && e.code == Code::Parse && e.message@ == "ctx capture target must be callable"@)),
        item matches ast::BlockItem::Ident(i) ==> (i.args@.len() == 0 && plain_call(*old(ctx), i.name@) ==> (r matches Ok(
        items) && plain_call_items(*old(ctx), i.name@, items@) && final(hoisted)@ == old(hoisted)@)),
        (item is Ident || item is Lambda || item is ScopeCapture) ==> (r matches Ok(items) ==> items@.len() >= 1
            && items@.last() is Exec),
        item matches ast::BlockItem::IdentDef { name, ident, .. } ==> (ident.args@.len() == 0 ==> alias_outcome(
            *old(ctx), *final(ctx), *old(hoisted), *final(hoisted), name@, ident.name@, r)),
    decreases (if wrap { 1nat } else { 0nat }), item_size(item), 5nat,
{
    proof {
        lemma_extends_refl(hoisted@);
    }
    match item {
        ast::BlockItem::ScopeCapture { params, continuation, term, .. } => {
            let ghost cont_items = continuation.items@;
            let ghost t0 = term;
            let lambda = ast::Lambda { params, body: continuation, args: Vec::new(), span: Span::unknown() };
            let callback = ast::Term::Lambda(lambda);
            proof {
                assert(term_size(callback) == 1 + items_size(cont_items) + terms_size(Seq::<ast::Term>::empty()));
            }
            let exec_term = append_scope_capture_arg(term, callback)?;
            proof {
                match t0 {
                    ast::Term::Ident(i) => lemma_terms_push(i.args@, callback),
                    ast::Term::Lambda(l) => lemma_terms_push(l.args@, callback),
                    _ => {},
                }
            }
            lower_exec(ctx, exec_term, hoisted, wrap)
        },
        ast::BlockItem::Ident(ident) => lower_exec(ctx, ast::Term::Ident(ident), hoisted, wrap),
        ast::BlockItem::Lambda(lambda) => lower_exec(ctx, ast::Term::Lambda(lambda), hoisted, wrap),
        ast::BlockItem::StrDef { name, literal, .. } => {
            match ctx.add_literal(name.as_str(), SigKind::CompileTimeStr, Span::unknown()) {
                Ok(()) => {},
                Err(e) => { return Err(e); },
            }
            let mut r: Vec<BlockItem> = Vec::new();
            r.push(BlockItem::LitDef { name, literal: Lit::Str(literal.value) });
            Ok(r)
        },
        ast::BlockItem::IntDef { name, literal, .. } => {
            match ctx.add_literal(name.as_str(), SigKind::CompileTimeInt, Span::unknown()) {
                Ok(()) => {},
                Err(e) => { return Err(e); },
            }
            let mut r: Vec<BlockItem> = Vec::new();
            r.push(BlockItem::LitDef { name, literal: Lit::Int(literal.value) });
            Ok(r)
        },
        ast::BlockItem::SigDef { name, sig, .. } => {
            ctx.add_type(name.as_str(), name.as_str(), SigKind::Ident(SigIdent { name: name.clone() }), Span::unknown(), false)?;
            let s = ast_signature_to_hir(sig);
            let hir_sig = resolve_signature_within(&s, ctx)?;
            let normalized_sig = normalize_signature(&hir_sig, ctx);
            match ctx.get_mut(name.as_str()) {
                Some(entry) => {
                    entry.kind = SigKind::Sig(clone_signature(&normalized_sig));
                },
                None => {},
            }
            Ok(vec![BlockItem::SigDef { name, sig: normalized_sig }])
        },
        ast::BlockItem::IdentDef { name, ident, .. } => {
            if ident.args.len() == 0 {
                let target = match ctx.get(ident.name.as_str()) {
                    Some(t) => clone_entry(t),
                    None => {
                        return Err(unresolved_target(ident.name.as_str()));
                    },
                };
                match ctx.add(name.as_str(), target) {
                    Ok(()) => {},
                    Err(e) => { return Err(e); },
                }
                Ok(Vec::new())
            } else {
                let mut lowered: Vec<BlockItem> = Vec::new();
                let closure = lower_closure(ctx, name.clone(), ident, hoisted, &mut lowered, wrap)?;
                let result_type = match resolve_target_signature(closure.of.as_str(), ctx) {
                    Some(signature) => {
                        let mut items: Vec<SigItem> = Vec::new();
                        let mut k: usize = closure.args.len();
                        while k < signature.items.len()
                            decreases signature.items@.len() - k,
                        {
                            items.push(clone_item(&signature.items[k]));
                            k = k + 1;
                        }
                        SigKind::Sig(Signature { items, generics: Vec::new() })
                    },
                    None => {
                        return Err(unresolved_target(closure.of.as_str()));
                    },
                };
                ctx.register_closure(closure);
                ctx.add_literal(name.as_str(), result_type, Span::unknown())?;
                Ok(lowered)
            }
        },
        _ => Ok(Vec::new()),
    }
}

/// The arguments as positional call arguments.
fn positional(args: Vec<ast::Term>) -> (r: Vec<CallArg>)
    ensures
        crate::compiler::call_args::arg_terms(r@) == args@,
        !crate::compiler::call_args::has_named_arg(r@),
{
    let ghost all = args@;
    let mut rest = args;
    let mut out: Vec<CallArg> = Vec::new();
    while rest.len() > 0
        invariant
            out@.len() + rest@.len() == all.len(),
            rest@ == all.subrange(out@.len() as int, all.len() as int),
            crate::compiler::call_args::arg_terms(out@) == all.take(out@.len() as int),
            forall|i: int| 0 <= i < out@.len() ==> (#[trigger] out@[i]).name is None,
        decreases rest@.len(),
    {
        let ghost k: int = out@.len() as int;
        let t = rest.remove(0);
        out.push(CallArg { name: None, term: t });
        proof {
            assert(t == all[k]);
            assert(crate::compiler::call_args::arg_terms(out@) =~= all.take(k + 1));
            assert(rest@ =~= all.subrange(k + 1, all.len() as int));
        }
    }
    proof {
        assert(all.take(all.len() as int) =~= all);
    }
    out
}

/// What `name` is executed or applied as, and the names of its arguments: its captures
/// first, then each argument term lowered against the parameter it fills. More arguments
/// than parameters are an error unless a parameter is variadic.
fn resolve_target(
    ctx: &mut Context,
    name: &str,
    ast_args: Vec<ast::Term>,
    hoisted: &mut Vec<BlockItem>,
    lowered_items: &mut Vec<BlockItem>,
    wrap: bool,
) -> (r: Result<(ContextEntry, Vec<String>), Error>)
    ensures
        r is Ok ==> extends(old(hoisted)@, final(hoisted)@),
        old(ctx).lookup(name@) is None ==> (r matches Err(e) && e.code == Code::HIR && e.message@
            == "could not resolve target '"@ + name@ + "'"@),
        match old(ctx).lookup(name@) {
            Some(e) => e.captures.len() == 0 && ast_args@.len() == 0 ==> (r matches Ok((t, a)) && t@ == e
                && a@.len() == 0 && *final(ctx) == *old(ctx) && final(hoisted)@ == old(hoisted)@
                && final(lowered_items)@ == old(lowered_items)@),
            None => true,
        },
    decreases (if wrap { 1nat } else { 0nat }), terms_size(ast_args@), 3nat,
{
    proof {
        lemma_extends_refl(hoisted@);
    }
    let target = match ctx.get(name) {
        Some(e) => clone_entry(e),
        None => {
            return Err(unresolved_target(name));
        },
    };
    let mut c: usize = 0;
    while c < target.captures.len()
        invariant
            old(ctx).lookup(name@) == Some(target@),
            target.captures@.len() == 0 ==> *ctx == *old(ctx),
            hoisted@ == old(hoisted)@,
        decreases target.captures@.len() - c,
    {
        if ctx.counter == usize::MAX {
            return Err(exhausted());
        }
        maybe_capture_name(ctx, target.captures[c].name.as_str())?;
        c = c + 1;
    }
    let mut args: Vec<String> = Vec::new();
    let mut c: usize = 0;
    while c < target.captures.len()
        invariant
            old(ctx).lookup(name@) == Some(target@),
            target.captures@.len() == 0 ==> *ctx == *old(ctx),
            hoisted@ == old(hoisted)@,
            args@.len() == c,
            c <= target.captures@.len(),
        decreases target.captures@.len() - c,
    {
        args.push(target.captures[c].name.clone());
        c = c + 1;
    }
    if ast_args.len() == 0 {
        return Ok((target, args));
    }
    let mut visited: Vec<String> = Vec::new();
    let signature = match signature_from_kind(&target.kind, ctx, &mut visited) {
        Some(s) => s,
        None => {
            let mut m = concat("could not resolve target signature '", name);
            push_str(&mut m, "'");
            return Err(Error::new(Code::HIR, m, target.span));
        },
    };
    let ghost all_terms = ast_args@;
    let n_args = ast_args.len();
    let call_args = positional(ast_args);
    let ca = target.captures.len();
    let sb = signature.items.len();
    if sb > usize::MAX - 1 || ca > usize::MAX - 1 - sb || n_args > usize::MAX - 1 - sb - ca {
        return Err(exhausted());
    }
    let resolved = resolve_call_arguments(ctx, &target, signature, call_args, hoisted)?;
    proof {
        lemma_extends_trans(old(hoisted)@, old(hoisted)@, hoisted@);
    }
    let crate::compiler::call_args::ResolvedCallArgs { target: rtarget, signature: rsig, terms } = resolved;
    let mut c: usize = 0;
    while c < rtarget.captures.len()
        invariant
            old(ctx).lookup(name@) is Some,
            all_terms.len() > 0,
            all_terms == ast_args@,
        decreases rtarget.captures@.len() - c,
    {
        if ctx.counter == usize::MAX {
            return Err(exhausted());
        }
        maybe_capture_name(ctx, rtarget.captures[c].name.as_str())?;
        args.push(rtarget.captures[c].name.clone());
        c = c + 1;
    }
    let expected = expected_params_for_args(rsig.items.as_slice(), terms.len());
    let mut active_generics = current_scope_generics(ctx);
    let mut g: usize = 0;
    while g < rsig.generics.len()
        decreases rsig.generics@.len() - g,
    {
        active_generics.push(rsig.generics[g].clone());
        g = g + 1;
    }
    let mut generic_bindings: Vec<(String, SigKind)> = Vec::new();
    let ghost tall = terms@;
    proof {
        assert(tall == all_terms);
        assert(tall.len() == terms.len());
    }
    let mut rest = terms;
    let mut k: usize = 0;
    while rest.len() > 0
        invariant
            extends(old(hoisted)@, hoisted@),
            k + rest@.len() == tall.len(),
            rest@ == tall.subrange(k as int, tall.len() as int),
            tall == all_terms,
            terms_size(all_terms) == terms_size(ast_args@),
            expected@.len() == tall.len(),
            tall.len() <= usize::MAX,
            old(ctx).lookup(name@) is Some,
            all_terms.len() > 0,
            all_terms == ast_args@,
        decreases rest@.len(),
    {
        let term = rest.remove(0);
        proof {
            assert(term == tall[k as int]);
            lemma_terms_elem(tall, k as int);
            assert(rest@ =~= tall.subrange(k + 1, tall.len() as int));
        }
        let ghost before = hoisted@;
        let lowered = lower_arg(ctx, term, expected[k], &active_generics, &mut generic_bindings, hoisted, lowered_items, wrap)?;
        proof {
            lemma_extends_trans(old(hoisted)@, before, hoisted@);
        }
        args.push(lowered);
        k = k + 1;
    }
    let a = rsig.items.len();
    let b = rtarget.captures.len();
    let total = if a > usize::MAX - b { usize::MAX } else { a + b };
    if !rsig.is_variadic() && args.len() > total {
        let mut m = concat("function '", rtarget.name.as_str());
        push_str(&mut m, "' expected ");
        push_str(&mut m, usize_to_string(total).as_str());
        push_str(&mut m, " arguments but got ");
        push_str(&mut m, usize_to_string(args.len()).as_str());
        return Err(Error::new(Code::HIR, m, Span::unknown()));
    }
    Ok((rtarget, args))
}

/// An argument term lowered to the name of its value: a name (or its partial
/// application, recorded as a closure), a literal bound to a fresh name, or a lambda
/// (see `lower_lambda_term`). A builtin passed where a function is expected is wrapped
/// first; the term's kind must fit the parameter.
fn lower_arg(
    ctx: &mut Context,
    term: ast::Term,
    expected_param: Option<&SigItem>,
    active_generics: &Vec<String>,
    generic_bindings: &mut Vec<(String, SigKind)>,
    hoisted: &mut Vec<BlockItem>,
    lowered_items: &mut Vec<BlockItem>,
    wrap: bool,
) -> (r: Result<String, Error>)
    ensures
        r is Ok ==> extends(old(hoisted)@, final(hoisted)@),
        (term is Int || term is String) && expected_param is None && old(ctx).counter < usize::MAX ==> r is Ok,
    decreases (if wrap { 1nat } else { 0nat }), term_size(term), 2nat,
{
    proof {
        lemma_extends_refl(hoisted@);
    }
    let ghost t0 = term;
    let (term, wrap_inner) = if wrap {
        let (t, wrapped) = maybe_wrap_builtin(ctx, term, expected_param)?;
        (t, !wrapped)
    } else {
        (term, false)
    };
    proof {
        if wrap_inner {
            assert(term == t0);
        }
    }
    if !term_budget_ok(ctx, &term) {
        return Err(exhausted());
    }
    validate_input_type(ctx, &term, expected_param, active_generics, generic_bindings)?;
    let arg = match term {
        ast::Term::Ident(ident) => {
            if ctx.counter == usize::MAX {
                return Err(exhausted());
            }
            maybe_capture_name(ctx, ident.name.as_str())?;
            let ident_name = ident.name;
            let (target, args) = resolve_target(ctx, ident_name.as_str(), ident.args, hoisted, lowered_items, wrap_inner)?;
            if args.len() == 0 {
                target.name
            } else {
                if ctx.counter == usize::MAX {
                    return Err(exhausted());
                }
                let new_name = ctx.new_name_for(ident_name.as_str());
                ctx.register_closure(Closure { name: new_name.clone(), of: target.name, args });
                new_name
            }
        },
        ast::Term::Int(literal) => {
            if ctx.counter == usize::MAX {
                return Err(exhausted());
            }
            let new_name = ctx.new_name_for_literal();
            lowered_items.push(BlockItem::LitDef { name: new_name.clone(), literal: Lit::Int(literal.value) });
            new_name
        },
        ast::Term::String(literal) => {
            if ctx.counter == usize::MAX {
                return Err(exhausted());
            }
            let new_name = ctx.new_name_for_literal();
            lowered_items.push(BlockItem::LitDef { name: new_name.clone(), literal: Lit::Str(literal.value) });
            new_name
        },
        ast::Term::Lambda(lambda) => lower_lambda_term(ctx, lambda, hoisted, lowered_items, wrap_inner)?,
    };
    let mut seen: Vec<String> = Vec::new();
    Ok(emit_closure_for_term(ctx, arg.as_str(), lowered_items, &mut seen))
}

/// A lambda term: lowered as a function under a fresh name, then applied to its
/// arguments as a closure under another fresh name, which is returned.
fn lower_lambda_term(
    ctx: &mut Context,
    lambda: ast::Lambda,
    hoisted: &mut Vec<BlockItem>,
    lowered_items: &mut Vec<BlockItem>,
    wrap: bool,
) -> (r: Result<String, Error>)
    ensures
        r is Ok ==> extends(old(hoisted)@, final(hoisted)@),
        old(ctx).counter == usize::MAX ==> (r matches Err(e) && e.code == Code::Internal && e.message@
            == exhausted_message() && *final(ctx) == *old(ctx)),
    decreases (if wrap { 1nat } else { 0nat }), lambda_size(lambda), 1nat,
{
    proof {
        lemma_extends_refl(hoisted@);
    }
    let ast::Lambda { params, body, args, span } = lambda;
    let function_lambda = ast::Lambda { params, body, args: Vec::new(), span };
    proof {
        assert(lambda_size(function_lambda) <= lambda_size(lambda));
    }
    if ctx.counter == usize::MAX {
        return Err(exhausted());
    }
    let contextual_name = ctx.new_name();
    lower_function(ctx, contextual_name.clone(), None, function_lambda, hoisted, false, wrap)?;
    let ghost mid = hoisted@;
    let (target, applied) = resolve_target(ctx, contextual_name.as_str(), args, hoisted, lowered_items, wrap)?;
    proof {
        lemma_extends_trans(old(hoisted)@, mid, hoisted@);
    }
    if ctx.counter == usize::MAX {
        return Err(exhausted());
    }
    let apply_name = ctx.new_name();
    ctx.register_closure(Closure { name: apply_name.clone(), of: target.name, args: applied });
    Ok(apply_name)
}

/// A name definition with arguments: the closure that applies them to the target.
fn lower_closure(
    ctx: &mut Context,
    name: String,
    ident: ast::Ident,
    hoisted: &mut Vec<BlockItem>,
    lowered_items: &mut Vec<BlockItem>,
    wrap: bool,
) -> (r: Result<Closure, Error>)
    ensures
        r is Ok ==> extends(old(hoisted)@, final(hoisted)@),
        r matches Ok(c) ==> c.name == name,
        undefined_outcome(*old(ctx), ident.name@, r),
        match old(ctx).inner_lookup(ident.name@) {
            Some(e) => old(ctx).counter < usize::MAX && e.captures.len() == 0 && ident.args@.len() == 0 ==> (r matches Ok(
            c) && c.of@ == e.name && c.args@.len() == 0),
            None => true,
        },
    decreases (if wrap { 1nat } else { 0nat }), 1 + terms_size(ident.args@), 4nat,
{
    proof {
        lemma_extends_refl(hoisted@);
    }
    if ctx.counter == usize::MAX {
        return Err(exhausted());
    }
    maybe_capture_name(ctx, ident.name.as_str())?;
    proof {
        crate::compiler::hir_context::lemma_lookup_append(binding_views(ctx.outer@), binding_views(ctx.inner@), ident.name@);
    }
    let target_name = ident.name;
    let (target, args) = resolve_target(ctx, target_name.as_str(), ident.args, hoisted, lowered_items, wrap)?;
    Ok(Closure { name, of: target.name, args })
}

/// Whether executing `name` with no arguments is a plain call in `ctx`: the name is bound
/// in the current scope to an entry without captures that takes no parameters and is no
/// closure definition, and a fresh name can still be taken.
pub open spec fn plain_call(ctx: Context, name: Seq<char>) -> bool {
    &&& ctx.counter < usize::MAX
    &&& ctx.inner_lookup(name) matches Some(e) && e.captures.len() == 0 && closure_lookup(ctx.closures(), e.name)
        is None && (crate::compiler::signature::sig_of_kind(ctx.bindings(), seq![], e.kind) matches Some(s)
        ==> s.items.len() == 0)
}

/// `items` is the single execution of the entry that `ctx` binds `name` to, with no
/// arguments.
pub open spec fn plain_call_items(ctx: Context, name: Seq<char>, items: Seq<BlockItem>) -> bool {
    &&& items.len() == 1
    &&& items[0] matches BlockItem::Exec(x) && x.args@.len() == 0 && (ctx.inner_lookup(name) matches Some(e)
        && x.of@ == e.name)
}

/// An execution: of a name with its arguments (which must be complete), or of a
/// lambda; the items it needs come first and the execution last.
fn lower_exec(ctx: &mut Context, term: ast::Term, hoisted: &mut Vec<BlockItem>, wrap: bool) -> (r: Result<
    Vec<BlockItem>,
    Error,
>)
    requires
        term is Ident || term is Lambda,
    ensures
        r is Ok ==> extends(old(hoisted)@, final(hoisted)@),
        r matches Ok(items) ==> items@.len() >= 1 && items@.last() is Exec,
        term matches ast::Term::Ident(i) ==> undefined_outcome(*old(ctx), i.name@, r),
        term matches ast::Term::Ident(i) ==> (i.args@.len() == 0 && plain_call(*old(ctx), i.name@) ==> (r matches Ok(
        items) && plain_call_items(*old(ctx), i.name@, items@) && final(hoisted)@ == old(hoisted)@)),
    decreases (if wrap { 1nat } else { 0nat }), term_size(term), 4nat,
{
    proof {
        lemma_extends_refl(hoisted@);
    }
    let mut emitted: Vec<String> = Vec::new();
    let mut lowered_items: Vec<BlockItem> = Vec::new();
    let exec = match term {
        ast::Term::Ident(ident) => {
            if ctx.counter == usize::MAX {
                return Err(exhausted());
            }
            maybe_capture_name(ctx, ident.name.as_str())?;
            proof {
                crate::compiler::hir_context::lemma_lookup_append(
                    binding_views(ctx.outer@),
                    binding_views(ctx.inner@),
                    ident.name@,
                );
            }
            let ident_name = ident.name;
            let (target, args) = resolve_target(ctx, ident_name.as_str(), ident.args, hoisted, &mut lowered_items, wrap)?;
            let mut visited: Vec<String> = Vec::new();
            proof {
                assert(names_view(visited@) =~= Seq::<Seq<char>>::empty());
            }
            match signature_from_kind(&target.kind, ctx, &mut visited) {
                Some(s) => {
                    proof {
                        hir::lemma_view_sig(s);
                        assert(s@.items.len() == s.items@.len());
                    }
                    if target.captures.len() > usize::MAX - s.items.len() {
                        return Err(exhausted());
                    }
                },
                None => {},
            }
            ensure_exec_args_complete(ctx, &target, args.len())?;
            let of = emit_closure_for_term(ctx, target.name.as_str(), &mut lowered_items, &mut emitted);
            let ghost items_after = lowered_items@;
            let mut lowered_args: Vec<String> = Vec::new();
            let mut k: usize = 0;
            while k < args.len()
                invariant
                    args@.len() == 0 ==> (lowered_items@ == items_after && lowered_args@.len() == 0),
                decreases args@.len() - k,
            {
                let a = emit_closure_for_term(ctx, args[k].as_str(), &mut lowered_items, &mut emitted);
                lowered_args.push(a);
                k = k + 1;
            }
            Exec { of, args: lowered_args }
        },
        ast::Term::Lambda(lambda) => {
            let target_name = lower_lambda_term(ctx, lambda, hoisted, &mut lowered_items, wrap)?;
            let of = emit_closure_for_term(ctx, target_name.as_str(), &mut lowered_items, &mut emitted);
            Exec { of, args: Vec::new() }
        },
        _ => {
            return Ok(Vec::new());
        },
    };
    lowered_items.push(BlockItem::Exec(exec));
    Ok(lowered_items)
}

// ---------------------------------------------------------------------------
// The lowerer
// ---------------------------------------------------------------------------

/// The outcome of a literal definition at the root: refused when the name is bound
/// already (nothing changes), else bound and queued.
pub open spec fn literal_def_queued(
    old_ctx: Context,
    new_ctx: Context,
    old_ready: Seq<BlockItem>,
    new_ready: Seq<BlockItem>,
    name: String,
    kind: KindView,
    literal: Lit,
    r: Result<(), Error>,
) -> bool {
    match old_ctx.inner_lookup(name@) {
        Some(_) => r matches Err(e) && e.code == Code::Resolve && e.message@ == duplicate_message(name@)
            && new_ctx == old_ctx && new_ready == old_ready,
        None => r is Ok && new_ready == old_ready.push(BlockItem::LitDef { name, literal })
            && new_ctx.literal_added(old_ctx, name@, kind, Span::spec_unknown()),
    }
}

/// Turns parsed top-level items into lowered ones, in order: an import is kept and
/// registered, a function is lowered (the functions it defines are hoisted before it),
/// and any other item is lowered in the root scope.
pub struct Lowerer {
    pub ready: Vec<BlockItem>,
}

impl Lowerer {
    pub fn new() -> (r: Self)
        ensures
            r.ready@.len() == 0,
    {
        Lowerer { ready: Vec::new() }
    }

    /// The next lowered item, first in first out.
    pub fn produce(&mut self) -> (r: Option<BlockItem>)
        ensures
            old(self).ready@.len() == 0 ==> r is None && final(self).ready@.len() == 0,
            old(self).ready@.len() > 0 ==> r == Some(old(self).ready@[0]) && final(self).ready@ == old(self).ready@.drop_first(),
    {
        if self.ready.len() == 0 {
            return None;
        }
        let item = self.ready.remove(0);
        proof {
            assert(self.ready@ =~= old(self).ready@.drop_first());
        }
        Some(item)
    }

    /// Lowers one parsed top-level item; what it gives is queued for `produce`.
    pub fn consume(&mut self, ctx: &mut Context, block: ast::BlockItem) -> (r: Result<(), Error>)
        ensures
            r is Ok ==> extends(old(self).ready@, final(self).ready@),
            block is Import ==> final(self).ready@.len() == old(self).ready@.len() + 1 && (final(self).ready@.last() is Import),
            block matches ast::BlockItem::StrDef { name, literal, .. } ==> literal_def_queued(*old(ctx), *final(ctx),
                old(self).ready@, final(self).ready@, name, KindView::CompileTimeStr, Lit::Str(literal.value), r),
            block matches ast::BlockItem::IntDef { name, literal, .. } ==> literal_def_queued(*old(ctx), *final(ctx),
                old(self).ready@, final(self).ready@, name, KindView::CompileTimeInt, Lit::Int(literal.value), r),
            block matches ast::BlockItem::Ident(i) ==> undefined_outcome(*old(ctx), i.name@, r),
            block matches ast::BlockItem::ScopeCapture { term: ast::Term::Ident(i), .. } ==> undefined_outcome(
                *old(ctx),
                i.name@,
                r,
            ),
            block matches ast::BlockItem::ScopeCapture { term, .. } ==> (term is Int || term is String ==> (r matches Err(e)
                && e.code == Code::Parse && e.message@ == "ctx capture target must be callable"@)),
            block matches ast::BlockItem::Ident(i) ==> (i.args@.len() == 0 && plain_call(*old(ctx), i.name@) ==> (r is Ok
                && final(self).ready@.len() == old(self).ready@.len() + 1 && final(self).ready@.take(
                old(self).ready@.len() as int,
            ) == old(self).ready@ && plain_call_items(
                *old(ctx),
                i.name@,
                final(self).ready@.skip(old(self).ready@.len() as int),
            ))),
            (block is Ident || block is Lambda || block is ScopeCapture) ==> (r is Ok ==> final(self).ready@.len() > 0
                && final(self).ready@.last() is Exec),
            block matches ast::BlockItem::FunctionDef { lambda, .. } ==> (r is Ok ==> (final(self).ready@.last() matches BlockItem::FunctionDef(
            f) && f.sig@.generics == canon_sig(lambda.params@).generics)),
            block matches ast::BlockItem::FunctionDef { lambda, .. } ==> (r is Ok && lambda.body.items@.len() > 0 && executes(
                lambda.body.items@.last(),
            ) ==> (final(self).ready@.last() matches BlockItem::FunctionDef(f) && f.body.items@.len() > 0
                && f.body.items@.last() is Exec)),
            block matches ast::BlockItem::FunctionDef { name, .. } ==> (r is Ok ==> final(self).ready@.len() > 0
                && (final(self).ready@.last() matches BlockItem::FunctionDef(f)
                && (old(ctx).scope_names().len() == 0 && name@.len() > 0 ==> f.name@ == name@))),
    {
        match block {
            ast::BlockItem::Import { label, path, .. } => {
                let registered = register_import(ctx, path.as_str(), Span::unknown());
                let ghost before = self.ready@;
                self.ready.push(BlockItem::Import { label, path });
                proof {
                    lemma_extends_append(before, seq![self.ready@.last()]);
                    assert(before + seq![self.ready@.last()] =~= self.ready@);
                }
                registered
            },
            ast::BlockItem::FunctionDef { name, lambda, .. } => {
                let display_name = name.clone();
                lower_function(ctx, name, Some(display_name), lambda, &mut self.ready, true, true)
            },
            other => {
                let mut lowered = lower_block_item(ctx, other, &mut self.ready, true)?;
                let ghost before = self.ready@;
                proof {
                    lemma_extends_append(before, lowered@);
                    lemma_extends_trans(old(self).ready@, before, before + lowered@);
                }
                let ghost added = lowered@;
                self.ready.append(&mut lowered);
                proof {
                    assert(self.ready@.take(before.len() as int) =~= before);
                    assert(self.ready@.skip(before.len() as int) =~= added);
                    if added.len() == 0 {
                        assert(self.ready@ =~= before);
                    }
                    if added.len() == 1 {
                        assert(self.ready@ =~= before.push(added[0]));
                    }
                    if added.len() >= 1 {
                        assert(self.ready@.last() == added.last());
                    }
                }
                Ok(())
            },
        }
    }
}

} // verus!
