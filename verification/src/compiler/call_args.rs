//! Argument matching for a call: positional arguments fill the first parameters that
//! are still free, named ones the parameter of that name. When the arguments end up
//! in another order than the parameters, the call goes through a generated wrapper
//! function that takes them in the given order and forwards them in the target's.

use vstd::prelude::*;

use crate::compiler::ast;
use crate::compiler::error::{Code, Error};
use crate::compiler::hir::first_unassigned_param;
use crate::compiler::hir_ast::{
    self as hir, clone_item, clone_kind, clone_names, clone_signature, items_view, names_view, Block, BlockItem, Exec,
    Function, ItemView, KindView, SigItem, SigView,
};
use crate::compiler::hir_context::{
    binding_views, clone_entry, clone_items, duplicate_message, lemma_lookup_append, lookup_in, nested_ns,
    lemma_fresh_names_distinct, numbered_name, tagged_name, ContextEntry, Context, EntryView,
};
use crate::compiler::span::Span;
use crate::text::{decimal_text, push_str, str_eq, usize_to_string};

verus! {

/// An argument of a call: its term, and the name of the parameter it is given for.
pub struct CallArg {
    pub name: Option<String>,
    pub term: ast::Term,
}

/// The outcome of argument matching: what to execute, its signature, and the argument
/// terms in the order of that signature.
pub struct ResolvedCallArgs {
    pub target: ContextEntry,
    pub signature: hir::Signature,
    pub terms: Vec<ast::Term>,
}

/// The parameter names given to the arguments.
pub open spec fn arg_names(args: Seq<CallArg>) -> Seq<Option<Seq<char>>> {
    Seq::new(
        args.len(),
        |i: int|
            match args[i].name {
                Some(n) => Some(n@),
                None => None,
            },
    )
}

pub open spec fn arg_terms(args: Seq<CallArg>) -> Seq<ast::Term> {
    Seq::new(args.len(), |i: int| args[i].term)
}

pub open spec fn has_named_arg(args: Seq<CallArg>) -> bool {
    exists|i: int| 0 <= i < args.len() && (#[trigger] args[i]).name is Some
}

// ---------------------------------------------------------------------------
// Matching arguments to parameters
// ---------------------------------------------------------------------------

/// The first parameter at or after `i` named `n`; an unnamed parameter never matches.
pub open spec fn named_position_from(params: Seq<ItemView>, n: Seq<char>, i: int) -> Option<int>
    decreases params.len() - i,
{
    if i < 0 || i >= params.len() {
        None
    } else if params[i].name.len() > 0 && params[i].name == n {
        Some(i)
    } else {
        named_position_from(params, n, i + 1)
    }
}

/// The first position at or after `j` below `count` that `assigned` leaves out.
pub open spec fn first_gap_from(count: int, assigned: Seq<int>, j: int) -> Option<int>
    decreases count - j,
{
    if j < 0 || j >= count {
        None
    } else if !assigned.contains(j) {
        Some(j)
    } else {
        first_gap_from(count, assigned, j + 1)
    }
}

pub open spec fn no_param_message(t: Seq<char>, n: Seq<char>) -> Seq<char> {
    "function '"@ + t + "' has no parameter named '"@ + n + "'"@
}

pub open spec fn count_message(t: Seq<char>, expected: nat, got: nat) -> Seq<char> {
    "function '"@ + t + "' expected "@ + decimal_text(expected) + " arguments but got "@ + decimal_text(got)
}

pub open spec fn repeated_message(t: Seq<char>, d: Seq<char>) -> Seq<char> {
    "function '"@ + t + "' argument '"@ + d + "' was provided more than once"@
}

/// The parameter position of each argument, in argument order, or the error for the
/// first argument that cannot be placed: a name that no parameter has, a parameter
/// given twice, or a positional argument with every parameter taken (`t` is the
/// target's name, `caps` its number of captures).
pub open spec fn matched_indices(
    params: Seq<ItemView>,
    names: Seq<Option<Seq<char>>>,
    t: Seq<char>,
    caps: nat,
) -> Result<Seq<int>, Seq<char>>
    decreases names.len(),
{
    if names.len() == 0 {
        Ok(seq![])
    } else {
        match matched_indices(params, names.drop_last(), t, caps) {
            Err(m) => Err(m),
            Ok(prev) => match names.last() {
                Some(n) => match named_position_from(params, n, 0) {
                    None => Err(no_param_message(t, n)),
                    Some(p) => if prev.contains(p) {
                        Err(repeated_message(t, params[p].name))
                    } else {
                        Ok(prev.push(p))
                    },
                },
                None => match first_gap_from(params.len() as int, prev, 0) {
                    None => Err(count_message(t, caps + params.len(), caps + prev.len() + 1)),
                    Some(p) => Ok(prev.push(p)),
                },
            },
        }
    }
}

/// The positions below `k` that `idx` leaves out, in increasing order.
pub open spec fn unassigned_upto(idx: Seq<int>, k: int) -> Seq<int>
    decreases k,
{
    if k <= 0 {
        seq![]
    } else {
        unassigned_upto(idx, k - 1) + if idx.contains(k - 1) {
            seq![]
        } else {
            seq![k - 1]
        }
    }
}

/// The order in which a wrapper takes the parameters: the matched positions, then
/// the others in their own order.
pub open spec fn call_order(idx: Seq<int>, n: int) -> Seq<int> {
    idx + unassigned_upto(idx, n)
}

pub open spec fn is_reordered(order: Seq<int>) -> bool {
    exists|i: int| 0 <= i < order.len() && order[i] != i
}

proof fn lemma_gap_is_first(count: int, assigned: Seq<int>, i: int, j: int)
    requires
        0 <= j <= i < count,
        !assigned.contains(i),
        forall|m: int| 0 <= m < i ==> assigned.contains(m),
    ensures
        first_gap_from(count, assigned, j) == Some(i),
    decreases i - j,
{
    if j < i {
        lemma_gap_is_first(count, assigned, i, j + 1);
    }
}

proof fn lemma_no_gap(count: int, assigned: Seq<int>, j: int)
    requires
        0 <= j,
        forall|m: int| 0 <= m < count ==> assigned.contains(m),
    ensures
        first_gap_from(count, assigned, j) is None,
    decreases count - j,
{
    if j < count {
        lemma_no_gap(count, assigned, j + 1);
    }
}

proof fn lemma_named_found(params: Seq<ItemView>, n: Seq<char>, p: int, j: int)
    requires
        0 <= j <= p < params.len(),
        params[p].name.len() > 0 && params[p].name == n,
        forall|m: int| j <= m < p ==> !(params[m].name.len() > 0 && params[m].name == n),
    ensures
        named_position_from(params, n, j) == Some(p),
    decreases p - j,
{
    if j < p {
        lemma_named_found(params, n, p, j + 1);
    }
}

proof fn lemma_named_absent(params: Seq<ItemView>, n: Seq<char>, j: int)
    requires
        0 <= j,
        forall|m: int| j <= m < params.len() ==> !(params[m].name.len() > 0 && params[m].name == n),
    ensures
        named_position_from(params, n, j) is None,
    decreases params.len() - j,
{
    if j < params.len() {
        lemma_named_absent(params, n, j + 1);
    }
}

/// Matched positions are distinct and name parameters.
proof fn lemma_matched_valid(params: Seq<ItemView>, names: Seq<Option<Seq<char>>>, t: Seq<char>, caps: nat)
    ensures
        matched_indices(params, names, t, caps) matches Ok(idx) ==> idx.no_duplicates() && idx.len() == names.len()
            && forall|k: int| 0 <= k < idx.len() ==> 0 <= #[trigger] idx[k] < params.len(),
    decreases names.len(),
{
    if names.len() > 0 {
        lemma_matched_valid(params, names.drop_last(), t, caps);
        match matched_indices(params, names.drop_last(), t, caps) {
            Ok(prev) => {
                match names.last() {
                    Some(n) => {
                        if let Some(p) = named_position_from(params, n, 0) {
                            lemma_named_in_range(params, n, 0);
                        }
                    },
                    None => {
                        lemma_gap_in_range(params.len() as int, prev, 0);
                    },
                }
            },
            Err(_) => {},
        }
    }
}

proof fn lemma_named_in_range(params: Seq<ItemView>, n: Seq<char>, j: int)
    ensures
        named_position_from(params, n, j) matches Some(p) ==> j <= p < params.len() && params[p].name == n
            && params[p].name.len() > 0,
    decreases params.len() - j,
{
    if 0 <= j < params.len() {
        lemma_named_in_range(params, n, j + 1);
    }
}

proof fn lemma_gap_in_range(count: int, assigned: Seq<int>, j: int)
    ensures
        first_gap_from(count, assigned, j) matches Some(p) ==> j <= p < count && !assigned.contains(p),
    decreases count - j,
{
    if 0 <= j < count {
        lemma_gap_in_range(count, assigned, j + 1);
    }
}

/// The left-out positions are in range, distinct, and not among `idx`.
proof fn lemma_unassigned_valid(idx: Seq<int>, k: int)
    ensures
        unassigned_upto(idx, k).no_duplicates(),
        forall|m: int| 0 <= m < unassigned_upto(idx, k).len() ==> 0 <= #[trigger] unassigned_upto(idx, k)[m] < k
            && !idx.contains(unassigned_upto(idx, k)[m]),
    decreases k,
{
    if k > 0 {
        lemma_unassigned_valid(idx, k - 1);
    }
}

proof fn lemma_order_valid(idx: Seq<int>, n: int)
    requires
        idx.no_duplicates(),
        forall|k: int| 0 <= k < idx.len() ==> 0 <= #[trigger] idx[k] < n,
    ensures
        call_order(idx, n).no_duplicates(),
        forall|k: int| 0 <= k < call_order(idx, n).len() ==> 0 <= #[trigger] call_order(idx, n)[k] < n,
{
    lemma_unassigned_valid(idx, n);
    let u = unassigned_upto(idx, n);
    let o = call_order(idx, n);
    assert forall|a: int, b: int| 0 <= a < o.len() && 0 <= b < o.len() && a != b implies o[a] != o[b] by {
        if a < idx.len() && b >= idx.len() {
            assert(o[b] == u[b - idx.len()]);
            assert(idx.contains(o[a]));
        } else if b < idx.len() && a >= idx.len() {
            assert(o[a] == u[a - idx.len()]);
            assert(idx.contains(o[b]));
        } else if a >= idx.len() {
            assert(o[a] == u[a - idx.len()]);
            assert(o[b] == u[b - idx.len()]);
        }
    }
    assert forall|k: int| 0 <= k < o.len() implies 0 <= #[trigger] o[k] < n by {
        if k >= idx.len() {
            assert(o[k] == u[k - idx.len()]);
        }
    }
}

/// The name of the parameter at `p`, or `?` when it has none.
fn param_name_or_mark(params: &Vec<SigItem>, p: usize) -> (r: String)
    requires
        p < params@.len(),
    ensures
        r@ == (if params@[p as int]@.name.len() > 0 {
            params@[p as int]@.name
        } else {
            "?"@
        }),
{
    if params[p].name.unicode_len() > 0 {
        params[p].name.clone()
    } else {
        "?".to_string()
    }
}

/// Once the arguments up to `k` cannot be placed, the whole list fails the same way.
proof fn lemma_matched_err_extends(
    params: Seq<ItemView>,
    names: Seq<Option<Seq<char>>>,
    t: Seq<char>,
    caps: nat,
    k: int,
)
    requires
        0 <= k <= names.len(),
        matched_indices(params, names.take(k), t, caps) is Err,
    ensures
        matched_indices(params, names, t, caps) == matched_indices(params, names.take(k), t, caps),
    decreases names.len() - k,
{
    if k < names.len() {
        assert(names.take(k + 1).drop_last() =~= names.take(k));
        assert(matched_indices(params, names.take(k + 1), t, caps) == matched_indices(params, names.take(k), t, caps));
        lemma_matched_err_extends(params, names, t, caps, k + 1);
    } else {
        assert(names.take(k) =~= names);
    }
}

/// The index of the first parameter named `n` (unnamed parameters never match).
fn named_position(params: &Vec<SigItem>, n: &str) -> (r: Option<usize>)
    ensures
        match r {
            Some(p) => named_position_from(items_view(params@), n@, 0) == Some(p as int),
            None => named_position_from(items_view(params@), n@, 0) is None,
        },
{
    let ghost ps = items_view(params@);
    let mut i: usize = 0;
    while i < params.len()
        invariant
            i <= params@.len(),
            ps == items_view(params@),
            forall|m: int| 0 <= m < i ==> !(ps[m].name.len() > 0 && ps[m].name == n@),
        decreases params@.len() - i,
    {
        if params[i].name.unicode_len() > 0 && str_eq(params[i].name.as_str(), n) {
            proof {
                lemma_named_found(ps, n@, i as int, 0);
            }
            return Some(i);
        }
        i = i + 1;
    }
    proof {
        lemma_named_absent(ps, n@, 0);
    }
    None
}

pub open spec fn index_view(v: Seq<usize>) -> Seq<int> {
    Seq::new(v.len(), |i: int| v[i] as int)
}

fn message_with_name(prefix: &str, name: &str, suffix: &str) -> (r: String)
    ensures
        r@ == prefix@ + name@ + suffix@,
{
    let mut s = prefix.to_string();
    push_str(&mut s, name);
    push_str(&mut s, suffix);
    s
}

/// The parameter position of each argument (see `matched_indices`).
fn match_indices(params: &Vec<SigItem>, args: &Vec<CallArg>, t: &str, caps: usize) -> (r: Result<Vec<usize>, Error>)
    requires
        caps + params@.len() + args@.len() + 1 <= usize::MAX,
    ensures
        match matched_indices(items_view(params@), arg_names(args@), t@, caps as nat) {
            Ok(idx) => r matches Ok(v) && index_view(v@) == idx,
            Err(m) => r matches Err(e) && e.code == Code::HIR && e.message@ == m && e.span == Span::spec_unknown(),
        },
{
    let ghost ps = items_view(params@);
    let ghost names = arg_names(args@);
    let mut assigned: Vec<usize> = Vec::new();
    let mut i: usize = 0;
    proof {
        assert(names.take(0) =~= Seq::<Option<Seq<char>>>::empty());
        assert(index_view(assigned@) =~= Seq::<int>::empty());
    }
    while i < args.len()
        invariant
            i <= args@.len(),
            ps == items_view(params@),
            names == arg_names(args@),
            caps + params@.len() + args@.len() + 1 <= usize::MAX,
            assigned@.len() == i,
            matched_indices(ps, names.take(i as int), t@, caps as nat) == Ok::<Seq<int>, Seq<char>>(
                index_view(assigned@),
            ),
            forall|k: int| 0 <= k < assigned@.len() ==> #[trigger] assigned@[k] < params@.len(),
        decreases args@.len() - i,
    {
        let ghost prev = index_view(assigned@);
        proof {
            assert(names.take(i + 1).drop_last() =~= names.take(i as int));
            assert(names.take(i + 1).last() == names[i as int]);
            assert forall|m: int| 0 <= m < params@.len() implies (prev.contains(m) <==> assigned@.contains(m as usize)) by {
                if prev.contains(m) {
                    let k = choose|k: int| 0 <= k < prev.len() && prev[k] == m;
                    assert(assigned@[k] == m as usize);
                }
                if assigned@.contains(m as usize) {
                    let k = choose|k: int| 0 <= k < assigned@.len() && assigned@[k] == m as usize;
                    assert(prev[k] == m);
                }
            }
        }
        let p = match &args[i].name {
            Some(n) => match named_position(params, n.as_str()) {
                Some(p) => p,
                None => {
                    let m = message_with_name("function '", t, "' has no parameter named '");
                    let mut m = m;
                    push_str(&mut m, n.as_str());
                    push_str(&mut m, "'");
                    proof {
                        assert(m@ =~= no_param_message(t@, n@));
                        lemma_matched_err_extends(ps, names, t@, caps as nat, i + 1);
                    }
                    return Err(Error::new(Code::HIR, m, Span::unknown()));
                },
            },
            None => match first_unassigned_param(params.len(), &assigned) {
                Some(p) => {
                    proof {
                        lemma_gap_is_first(params@.len() as int, prev, p as int, 0);
                    }
                    p
                },
                None => {
                    proof {
                        lemma_no_gap(params@.len() as int, prev, 0);
                    }
                    let mut m = message_with_name("function '", t, "' expected ");
                    push_str(&mut m, usize_to_string(caps + params.len()).as_str());
                    push_str(&mut m, " arguments but got ");
                    push_str(&mut m, usize_to_string(caps + assigned.len() + 1).as_str());
                    proof {
                        assert(m@ =~= count_message(t@, caps as nat + params@.len(), caps as nat + prev.len() + 1));
                        lemma_matched_err_extends(ps, names, t@, caps as nat, i + 1);
                    }
                    return Err(Error::new(Code::HIR, m, Span::unknown()));
                },
            },
        };
        proof {
            if names[i as int] is Some {
                lemma_named_in_range(ps, names[i as int]->0, 0);
            }
        }
        let mut taken = false;
        let mut k: usize = 0;
        while k < assigned.len()
            invariant
                k <= assigned@.len(),
                taken == exists|m: int| 0 <= m < k && assigned@[m] == p,
            decreases assigned@.len() - k,
        {
            if assigned[k] == p {
                taken = true;
            }
            k = k + 1;
        }
        if taken {
            proof {
                let m = choose|m: int| 0 <= m < assigned@.len() && assigned@[m] == p;
                assert(prev[m] == p as int);
            }
            let d = param_name_or_mark(params, p);
            let mut m = message_with_name("function '", t, "' argument '");
            push_str(&mut m, d.as_str());
            push_str(&mut m, "' was provided more than once");
            proof {
                assert(m@ =~= repeated_message(t@, ps[p as int].name));
                lemma_matched_err_extends(ps, names, t@, caps as nat, i + 1);
            }
            return Err(Error::new(Code::HIR, m, Span::unknown()));
        }
        proof {
            assert(!prev.contains(p as int));
        }
        assigned.push(p);
        proof {
            assert(index_view(assigned@) =~= prev.push(p as int));
        }
        i = i + 1;
    }
    proof {
        assert(names.take(args@.len() as int) =~= names);
    }
    Ok(assigned)
}

// ---------------------------------------------------------------------------
// Wrappers for reordered calls
// ---------------------------------------------------------------------------

/// The name a wrapper parameter would like: the parameter's own, else one made from
/// its position.
pub open spec fn preferred_name(item: ItemView, k: nat) -> Seq<char> {
    if item.name.len() > 0 {
        item.name
    } else {
        "_named_arg_"@ + decimal_text(k)
    }
}

/// The parameters a wrapper captures: the target itself (unless it is a root function
/// reachable by name), then the target's captures whose names are not there yet.
pub open spec fn wrapper_captures(t: EntryView) -> Seq<ItemView> {
    let head = if t.is_root && t.scope.len() > 0 && t.scope.last() == t.name {
        seq![]
    } else {
        seq![ItemView { name: t.name, kind: t.kind, has_bang: false }]
    };
    merged_captures(head, t.captures)
}

pub open spec fn merged_captures(head: Seq<ItemView>, caps: Seq<ItemView>) -> Seq<ItemView>
    decreases caps.len(),
{
    if caps.len() == 0 {
        head
    } else {
        let prev = merged_captures(head, caps.drop_last());
        if exists|i: int| 0 <= i < prev.len() && (#[trigger] prev[i]).name == caps.last().name {
            prev
        } else {
            prev.push(caps.last())
        }
    }
}

/// The argument a wrapper forwards for the target's parameter `j`: the wrapper
/// parameter placed from it, or the empty name when none is.
pub open spec fn forwarded_name(order: Seq<int>, names: Seq<Seq<char>>, j: int) -> Seq<char> {
    if exists|k: int| 0 <= k < order.len() && order[k] == j {
        names[choose|k: int| 0 <= k < order.len() && order[k] == j]
    } else {
        seq![]
    }
}

/// The wrapper parameter names are distinct, and each is its preferred name unless an
/// earlier one took it.
pub open spec fn wrapper_names_ok(names: Seq<Seq<char>>, params: Seq<ItemView>, order: Seq<int>) -> bool {
    &&& names.len() == order.len()
    &&& names.no_duplicates()
    &&& forall|k: int| 0 <= k < names.len() ==> (!names.take(k).contains(preferred_name(params[order[k]], k as nat))
        ==> #[trigger] names[k] == preferred_name(params[order[k]], k as nat))
}

/// What making a wrapper leaves behind: `s` takes the target's parameters in `order`
/// under the names `names`; `w` is the wrapper's entry, bound in `ctx1`; the wrapper
/// function, which forwards to the target, is appended to the hoisted items.
pub open spec fn wrapper_made(
    ctx0: Context,
    ctx1: Context,
    hoisted0: Seq<BlockItem>,
    hoisted1: Seq<BlockItem>,
    target: EntryView,
    sig: SigView,
    order: Seq<int>,
    w: EntryView,
    s: SigView,
) -> bool {
    let names = Seq::new(s.items.len(), |k: int| s.items[k].name);
    let wname = numbered_name(ctx0.counter as nat, nested_ns(ctx0.ns@, None));
    &&& s.generics == sig.generics
    &&& s.items.len() == order.len()
    &&& forall|k: int| 0 <= k < order.len() ==> (#[trigger] s.items[k]).kind == sig.items[order[k]].kind
        && s.items[k].has_bang == sig.items[order[k]].has_bang
    &&& wrapper_names_ok(names, sig.items, order)
    &&& w == EntryView {
        name: wname,
        kind: KindView::Sig(s),
        is_builtin: false,
        is_root: true,
        is_param: false,
        is_capture: false,
        span: Span::spec_unknown(),
        scope: ctx0.scope_names().push(wname),
        captures: wrapper_captures(target),
    }
    &&& ctx1.lookup(wname) == Some(w)
    &&& forall|k: Seq<char>| k != wname ==> #[trigger] ctx1.lookup(k) == ctx0.lookup(k)
    &&& ctx1.counter >= ctx0.counter + 1
    &&& hoisted1.len() == hoisted0.len() + 1
    &&& hoisted1.drop_last() == hoisted0
    &&& forwarding_function(hoisted1.last(), wname, target, sig, order, s)
}

/// The forwarded arguments of a wrapper: the target's captures, then for each of the
/// target's parameters the wrapper parameter placed from it.
pub open spec fn forwarded_args(target: EntryView, sig: SigView, order: Seq<int>, s: SigView) -> Seq<Seq<char>> {
    let names = Seq::new(s.items.len(), |k: int| s.items[k].name);
    Seq::new(target.captures.len(), |i: int| target.captures[i].name) + Seq::new(
        sig.items.len(),
        |j: int| forwarded_name(order, names, j),
    )
}

/// A wrapper function named `wname`: it captures `wrapper_captures(target)`, takes the
/// parameters of `s`, and executes the target with the forwarded arguments.
pub open spec fn forwarding_function(
    item: BlockItem,
    wname: Seq<char>,
    target: EntryView,
    sig: SigView,
    order: Seq<int>,
    s: SigView,
) -> bool {
    match item {
        BlockItem::FunctionDef(f) => {
            &&& f.name@ == wname
            &&& f.sig@ == (SigView { items: wrapper_captures(target) + s.items, generics: sig.generics })
            &&& f.body.items@.len() == 1
            &&& match f.body.items@[0] {
                BlockItem::Exec(e) => e.of@ == target.name && names_view(e.args@) == forwarded_args(target, sig, order, s),
                _ => false,
            }
        },
        _ => false,
    }
}

pub open spec fn exhausted_message() -> Seq<char> {
    "fresh-name counter exhausted"@
}

pub(crate) fn exhausted() -> (e: Error)
    ensures
        e.code == Code::Internal,
        e.message@ == exhausted_message(),
{
    Error::new(Code::Internal, "fresh-name counter exhausted".to_string(), Span::unknown())
}

/// Fresh names of a set of numbers that all occur in `names` are no more than `names`
/// has entries, since fresh names with different numbers differ.
proof fn lemma_fresh_names_bound(names: Seq<Seq<char>>, cs: Set<int>, ns: Seq<char>)
    requires
        cs.finite(),
        forall|c: int| #[trigger] cs.contains(c) ==> c >= 0 && names.contains(tagged_name(c as nat, ns)),
    ensures
        cs.len() <= names.len(),
    decreases names.len(),
{
    if names.len() == 0 {
        if cs.len() > 0 {
            let c = cs.choose();
            assert(cs.contains(c));
            assert(names.contains(tagged_name(c as nat, ns)));
        }
    } else {
        let last = names.last();
        let rest = names.drop_last();
        let smaller = if exists|c: int| #[trigger] cs.contains(c) && tagged_name(c as nat, ns) == last {
            let x = choose|c: int| #[trigger] cs.contains(c) && tagged_name(c as nat, ns) == last;
            cs.remove(x)
        } else {
            cs
        };
        assert forall|c: int| #[trigger] smaller.contains(c) implies c >= 0 && rest.contains(tagged_name(c as nat, ns)) by {
            let t = tagged_name(c as nat, ns);
            assert(cs.contains(c));
            let i = choose|i: int| 0 <= i < names.len() && names[i] == t;
            if i == names.len() - 1 {
                let x = choose|c: int| #[trigger] cs.contains(c) && tagged_name(c as nat, ns) == last;
                if c != x {
                    lemma_fresh_names_distinct(c as nat, ns, x as nat, ns);
                }
            } else {
                assert(rest[i] == t);
            }
        }
        lemma_fresh_names_bound(rest, smaller, ns);
    }
}

/// A parameter name that is not in `used`, added to it: `preferred` when it is neither
/// empty nor used, else the first fresh name (`Context::new_name`) that is not used.
/// `None` when the fresh-name counter runs out first.
fn unique_param_name(ctx: &mut Context, preferred: &str, used: &mut Vec<String>) -> (r: Option<String>)
    ensures
        *final(ctx) == (Context { counter: final(ctx).counter, ..*old(ctx) }),
        final(ctx).counter >= old(ctx).counter,
        match r {
            Some(n) => {
                &&& !names_view(old(used)@).contains(n@)
                &&& names_view(final(used)@) == names_view(old(used)@).push(n@)
                &&& (preferred@.len() > 0 && !names_view(old(used)@).contains(preferred@)) ==> n@ == preferred@
            },
            None => final(ctx).counter == usize::MAX,
        },
        r is None ==> old(ctx).counter + old(used)@.len() >= usize::MAX,
        r is Some ==> final(ctx).counter <= old(ctx).counter + old(used)@.len() + 1,
{
    if preferred.unicode_len() > 0 && !crate::compiler::hir_context::contains_name(used, preferred) {
        used.push(preferred.to_string());
        proof {
            assert(names_view(used@) =~= names_view(old(used)@).push(preferred@));
        }
        return Some(preferred.to_string());
    }
    while ctx.counter < usize::MAX
        invariant
            *ctx == (Context { counter: ctx.counter, ..*old(ctx) }),
            ctx.counter >= old(ctx).counter,
            *used == *old(used),
            !(preferred@.len() > 0 && !names_view(old(used)@).contains(preferred@)),
            forall|c: int|
                old(ctx).counter <= c < ctx.counter ==> names_view(used@).contains(
                    #[trigger] tagged_name(c as nat, old(ctx).ns@),
                ),
            ctx.counter <= old(ctx).counter + used@.len(),
        decreases usize::MAX - ctx.counter,
    {
        let ghost c = ctx.counter;
        let generated = ctx.new_name();
        proof {
            vstd::set_lib::lemma_int_range(old(ctx).counter as int, c + 1);
        }
        if !crate::compiler::hir_context::contains_name(used, generated.as_str()) {
            used.push(generated.clone());
            proof {
                assert(names_view(used@) =~= names_view(old(used)@).push(generated@));
            }
            return Some(generated);
        }
        proof {
            let cs = vstd::set_lib::set_int_range(old(ctx).counter as int, c + 1);
            assert forall|x: int| #[trigger] cs.contains(x) implies x >= 0 && names_view(used@).contains(
                tagged_name(x as nat, old(ctx).ns@),
            ) by {}
            lemma_fresh_names_bound(names_view(used@), cs, old(ctx).ns@);
        }
    }
    None
}

/// The captures a wrapper takes (see `wrapper_captures`).
fn make_wrapper_captures(target: &ContextEntry) -> (r: Vec<SigItem>)
    ensures
        items_view(r@) == wrapper_captures(target@),
{
    let mut captures: Vec<SigItem> = Vec::new();
    let n = target.scope.len();
    let reachable = target.is_root && n > 0 && str_eq(target.scope[n - 1].as_str(), target.name.as_str());
    let ghost t = target@;
    proof {
        if n > 0 {
            assert(t.scope.last() == target.scope@[n - 1]@);
        }
    }
    if !reachable {
        captures.push(SigItem { name: target.name.clone(), kind: clone_kind(&target.kind), has_bang: false });
    }
    let ghost head = items_view(captures@);
    proof {
        let expected_head = if t.is_root && t.scope.len() > 0 && t.scope.last() == t.name {
            Seq::<ItemView>::empty()
        } else {
            seq![ItemView { name: t.name, kind: t.kind, has_bang: false }]
        };
        assert(head =~= expected_head);
        assert(t.captures.take(0) =~= Seq::<ItemView>::empty());
    }
    let mut c: usize = 0;
    while c < target.captures.len()
        invariant
            c <= target.captures@.len(),
            t == target@,
            items_view(captures@) == merged_captures(head, t.captures.take(c as int)),
        decreases target.captures@.len() - c,
    {
        let ghost prev = items_view(captures@);
        let mut present = false;
        let mut m: usize = 0;
        while m < captures.len()
            invariant
                m <= captures@.len(),
                c < target.captures@.len(),
                prev == items_view(captures@),
                present == exists|i: int| 0 <= i < m && (#[trigger] prev[i]).name == target.captures@[c as int].name@,
            decreases captures@.len() - m,
        {
            if str_eq(captures[m].name.as_str(), target.captures[c].name.as_str()) {
                present = true;
            }
            proof {
                assert(prev[m as int].name == captures@[m as int].name@);
            }
            m = m + 1;
        }
        proof {
            assert(t.captures.take(c + 1).drop_last() =~= t.captures.take(c as int));
            assert(t.captures.take(c + 1).last() == t.captures[c as int]);
            assert(t.captures[c as int] == target.captures@[c as int]@);
        }
        if !present {
            captures.push(clone_item(&target.captures[c]));
            proof {
                assert(items_view(captures@) =~= prev.push(t.captures[c as int]));
            }
        }
        c = c + 1;
    }
    proof {
        assert(t.captures.take(target.captures@.len() as int) =~= t.captures);
    }
    captures
}

/// The names of the items, in order.
fn item_names(items: &Vec<SigItem>) -> (r: Vec<String>)
    ensures
        names_view(r@) == Seq::new(items@.len(), |i: int| items@[i]@.name),
{
    let mut out: Vec<String> = Vec::new();
    let mut i: usize = 0;
    while i < items.len()
        invariant
            i <= items@.len(),
            names_view(out@) == Seq::new(i as nat, |k: int| items@[k]@.name),
        decreases items@.len() - i,
    {
        let ghost before = names_view(out@);
        out.push(items[i].name.clone());
        proof {
            assert(names_view(out@) =~= before.push(items@[i as int]@.name));
            assert(names_view(out@) =~= Seq::new((i + 1) as nat, |k: int| items@[k]@.name));
        }
        i = i + 1;
    }
    out
}

/// The name a wrapper made in `ctx` takes: the next fresh function name.
pub open spec fn wrapper_name_in(ctx: Context) -> Seq<char> {
    numbered_name(ctx.counter as nat, nested_ns(ctx.ns@, None))
}

/// Whether the fresh names that a wrapper of `n` parameters may take fit the counter:
/// one for the wrapper, and for each parameter at most as many as there are parameters.
pub open spec fn wrapper_fits(ctx: Context, n: int) -> bool {
    ctx.counter + 1 + n * n < usize::MAX
}

/// Registers and hoists a wrapper that takes the target's parameters in `new_order`
/// and forwards them to it in its own order (see `wrapper_made`). The wrapper's
/// parameters keep their names where they can; the others get fresh ones.
pub fn create_named_arg_wrapper(
    ctx: &mut Context,
    target: &ContextEntry,
    signature: &hir::Signature,
    new_order: &Vec<usize>,
    hoisted: &mut Vec<BlockItem>,
) -> (r: Result<(ContextEntry, hir::Signature), Error>)
    requires
        index_view(new_order@).no_duplicates(),
        forall|k: int| 0 <= k < new_order@.len() ==> #[trigger] new_order@[k] < signature.items@.len(),
    ensures
        match r {
            Ok((w, s)) => wrapper_made(
                *old(ctx),
                *final(ctx),
                old(hoisted)@,
                final(hoisted)@,
                target@,
                signature@,
                index_view(new_order@),
                w@,
                s@,
            ),
            Err(e) => final(hoisted)@ == old(hoisted)@ && ((e.code == Code::Internal && e.message@ == exhausted_message())
                || (e.code == Code::Resolve && e.message@ == duplicate_message(
                numbered_name(old(ctx).counter as nat, nested_ns(old(ctx).ns@, None)),
            ))),
        },
        old(ctx).counter == usize::MAX ==> (r matches Err(e) && e.code == Code::Internal && e.message@
            == exhausted_message()),
        wrapper_fits(*old(ctx), new_order@.len() as int) ==> (r is Err <==> old(ctx).inner_lookup(
            wrapper_name_in(*old(ctx)),
        ) is Some),
        wrapper_fits(*old(ctx), new_order@.len() as int) && old(ctx).inner_lookup(wrapper_name_in(*old(ctx)))
            is Some ==> (r matches Err(e) && e.code == Code::Resolve && e.message@ == duplicate_message(
            wrapper_name_in(*old(ctx)),
        )),
{
    if ctx.counter == usize::MAX {
        return Err(exhausted());
    }
    let ghost ctx0 = *ctx;
    let ghost order = index_view(new_order@);
    let ghost params = signature@.items;
    proof {
        hir::lemma_view_sig(*signature);
    }
    let wrapper_name = ctx.new_name_for_fn(None);
    let ghost ctx_named = *ctx;
    let n = signature.items.len();
    let mut used: Vec<String> = Vec::new();
    let mut reordered: Vec<SigItem> = Vec::new();
    let mut by_original: Vec<String> = Vec::new();
    let mut j: usize = 0;
    while j < n
        invariant
            j <= n,
            by_original@.len() == j,
            forall|i: int| 0 <= i < j ==> (#[trigger] by_original@[i])@ == Seq::<char>::empty(),
        decreases n - j,
    {
        by_original.push(String::new());
        j = j + 1;
    }
    let mut k: usize = 0;
    while k < new_order.len()
        invariant
            k <= new_order@.len(),
            n == signature.items@.len(),
            order == index_view(new_order@),
            params == signature@.items,
            params.len() == n,
            order.no_duplicates(),
            forall|i: int| 0 <= i < new_order@.len() ==> #[trigger] new_order@[i] < n,
            forall|i: int| 0 <= i < n ==> #[trigger] params[i] == signature.items@[i]@,
            *ctx == (Context { counter: ctx.counter, ..ctx_named }),
            ctx.counter >= ctx_named.counter,
            ctx.counter <= ctx_named.counter + k * new_order@.len(),
            ctx_named.counter == ctx0.counter + 1,
            ctx0 == *old(ctx),
            reordered@.len() == k,
            names_view(used@) == Seq::new(k as nat, |m: int| reordered@[m]@.name),
            forall|m: int| 0 <= m < k ==> (#[trigger] reordered@[m])@.kind == params[order[m]].kind
                && reordered@[m]@.has_bang == params[order[m]].has_bang,
            wrapper_names_ok(Seq::new(k as nat, |m: int| reordered@[m]@.name), params, order.take(k as int)),
            by_original@.len() == n,
            forall|i: int| 0 <= i < n ==> (#[trigger] by_original@[i])@ == forwarded_name(
                order.take(k as int),
                Seq::new(k as nat, |m: int| reordered@[m]@.name),
                i,
            ),
        decreases new_order@.len() - k,
    {
        let p = new_order[k];
        let item = &signature.items[p];
        let preferred = if item.name.unicode_len() > 0 {
            item.name.clone()
        } else {
            let digits = usize_to_string(k);
            let mut s = "_named_arg_".to_string();
            push_str(&mut s, digits.as_str());
            s
        };
        proof {
            reveal_strlit("_named_arg_");
            assert(preferred@ == preferred_name(params[order[k as int]], k as nat));
            assert(preferred@.len() > 0);
        }
        let ghost names_before = Seq::new(k as nat, |m: int| reordered@[m]@.name);
        let ghost before = by_original@;
        let ghost counter_before = ctx.counter;
        let ghost m = new_order@.len() as int;
        proof {
            assert(k * m + k < m * m) by (nonlinear_arith)
                requires
                    k < m,
            ;
        }
        proof {
            assert(used@.len() == names_view(used@).len());
        }
        let name = match unique_param_name(ctx, preferred.as_str(), &mut used) {
            Some(name) => name,
            None => {
                proof {
                    assert(counter_before + k >= usize::MAX);
                    assert(counter_before <= ctx0.counter + 1 + k * m);
                    assert(!wrapper_fits(ctx0, m));
                }
                return Err(exhausted());
            },
        };
        proof {
            assert((k + 1) * m == k * m + m) by (nonlinear_arith);
        }
        by_original.set(p, name.clone());
        reordered.push(SigItem { name, kind: clone_kind(&item.kind), has_bang: item.has_bang });
        proof {
            let names_after = Seq::new((k + 1) as nat, |m: int| reordered@[m]@.name);
            assert(names_after =~= names_before.push(name@));
            assert(names_view(used@) =~= names_after);
            assert(order.take(k + 1) =~= order.take(k as int).push(p as int));
            assert(names_after.take(k as int) =~= names_before);
            assert forall|m: int| 0 <= m < k + 1 implies (#[trigger] reordered@[m])@.kind == params[order[m]].kind
                && reordered@[m]@.has_bang == params[order[m]].has_bang by {
                if m == k {
                    assert(order[m] == p as int);
                }
            }
            assert forall|m: int| 0 <= m < names_after.len() implies (!names_after.take(m).contains(
                preferred_name(params[order.take(k + 1)[m]], m as nat),
            ) ==> #[trigger] names_after[m] == preferred_name(params[order.take(k + 1)[m]], m as nat)) by {
                if m < k {
                    assert(names_after.take(m) =~= names_before.take(m));
                    assert(order.take(k + 1)[m] == order.take(k as int)[m]);
                }
            }
            assert forall|i: int| 0 <= i < n implies (#[trigger] by_original@[i])@ == forwarded_name(
                order.take(k + 1),
                names_after,
                i,
            ) by {
                let ok = order.take(k + 1);
                if i == p as int {
                    assert(ok[k as int] == i);
                    let a = choose|a: int| 0 <= a < ok.len() && ok[a] == i;
                    if a != k as int {
                        assert(order[a] == order[k as int]);
                    }
                } else {
                    assert(before[i] == by_original@[i]);
                    if exists|a: int| 0 <= a < ok.len() && ok[a] == i {
                        let a = choose|a: int| 0 <= a < ok.len() && ok[a] == i;
                        assert(a < k);
                        assert(order.take(k as int)[a] == i);
                        let b = choose|b: int| 0 <= b < order.take(k as int).len() && order.take(k as int)[b] == i;
                        assert(order[a] == order[b]);
                        assert(names_after[a] == names_before[a]);
                    } else {
                        assert forall|b: int| 0 <= b < order.take(k as int).len() implies order.take(k as int)[b]
                            != i by {
                            assert(ok[b] == order.take(k as int)[b]);
                        }
                    }
                }
            }
        }
        k = k + 1;
    }
    let ghost names = Seq::new(k as nat, |m: int| reordered@[m]@.name);
    proof {
        assert(order.take(k as int) =~= order);
    }
    let wrapper_items = clone_items(&reordered);
    let wrapper_sig = hir::Signature { items: reordered, generics: clone_names(&signature.generics) };
    let ghost s = wrapper_sig@;
    proof {
        hir::lemma_view_sig(wrapper_sig);
        assert(Seq::new(s.items.len(), |m: int| s.items[m].name) =~= names);
    }
    let captures = make_wrapper_captures(target);
    let added = ctx.add_sig(wrapper_name.as_str(), wrapper_name.as_str(), clone_signature(&wrapper_sig), Span::unknown(), false);
    if let Err(e) = added {
        return Err(e);
    }
    let ghost ctx_added = *ctx;
    proof {
        lemma_lookup_append(binding_views(ctx_added.outer@), binding_views(ctx_added.inner@), wrapper_name@);
    }
    match ctx.get_mut(wrapper_name.as_str()) {
        Some(e) => {
            e.captures = clone_items(&captures);
        },
        None => {},
    }
    proof {
        assert forall|key: Seq<char>| key != wrapper_name@ implies #[trigger] ctx.lookup(key) == ctx0.lookup(key) by {
            lemma_lookup_append(binding_views(ctx_added.outer@), binding_views(ctx_added.inner@), key);
            lemma_lookup_append(binding_views(ctx_named.outer@), binding_views(ctx_named.inner@), key);
            assert(binding_views(ctx_added.inner@).drop_last() =~= binding_views(ctx_named.inner@));
        }
    }
    let mut runtime_items = clone_items(&captures);
    let ghost head_items = runtime_items@;
    let mut rest = wrapper_items;
    let ghost rest_items = rest@;
    runtime_items.append(&mut rest);
    proof {
        assert(runtime_items@ == head_items + rest_items);
        assert(items_view(runtime_items@) =~= items_view(head_items) + items_view(rest_items));
        assert forall|m: int| 0 <= m < s.items.len() implies #[trigger] s.items[m] == items_view(rest_items)[m] by {
            assert(s.items[m] == wrapper_sig.items@[m]@);
        }
        assert(s.items =~= items_view(rest_items));
    }
    let mut exec_args = item_names(&target.captures);
    let ghost cap_names = names_view(exec_args@);
    let ghost forwarded = by_original@;
    exec_args.append(&mut by_original);
    proof {
        assert(names_view(exec_args@) =~= cap_names + names_view(forwarded));
        assert(cap_names =~= Seq::new(target@.captures.len(), |i: int| target@.captures[i].name));
        assert(names_view(forwarded) =~= Seq::new(
            signature@.items.len(),
            |j: int| forwarded_name(order, Seq::new(s.items.len(), |k: int| s.items[k].name), j),
        ));
    }
    let generics = clone_names(&signature.generics);
    let exec = BlockItem::Exec(Exec { of: target.name.clone(), args: exec_args });
    let function = Function {
        name: wrapper_name.clone(),
        sig: hir::Signature { items: runtime_items, generics },
        body: Block { items: vec![exec] },
    };
    proof {
        hir::lemma_view_sig(function.sig);
        assert forall|m: int| 0 <= m < runtime_items@.len() implies #[trigger] function.sig@.items[m] == items_view(runtime_items@)[m] by {
            assert(function.sig@.items[m] == function.sig.items@[m]@);
        }
        assert(function.sig@.items =~= items_view(runtime_items@));
        assert(function.sig@.items =~= wrapper_captures(target@) + s.items);
        assert(names_view(exec_args@) =~= forwarded_args(target@, signature@, order, s));
    }
    hoisted.push(BlockItem::FunctionDef(function));
    proof {
        assert(hoisted@.drop_last() =~= old(hoisted)@);
    }
    match ctx.get(wrapper_name.as_str()) {
        Some(entry) => Ok((clone_entry(entry), wrapper_sig)),
        None => {
            let m = message_with_name("could not resolve target '", wrapper_name.as_str(), "'");
            Err(Error::new(Code::HIR, m, Span::unknown()))
        },
    }
}

// ---------------------------------------------------------------------------
// Resolving a call's arguments
// ---------------------------------------------------------------------------

/// The argument terms, in order.
fn into_terms(args: Vec<CallArg>) -> (r: Vec<ast::Term>)
    ensures
        r@ == arg_terms(args@),
{
    let ghost all = args@;
    let mut rest = args;
    let mut out: Vec<ast::Term> = Vec::new();
    while rest.len() > 0
        invariant
            out@.len() + rest@.len() == all.len(),
            rest@ == all.subrange(out@.len() as int, all.len() as int),
            out@ == arg_terms(all).take(out@.len() as int),
        decreases rest@.len(),
    {
        let a = rest.remove(0);
        let ghost k: int = out@.len() as int;
        out.push(a.term);
        proof {
            assert(a == all[k as int]);
            assert(out@ =~= arg_terms(all).take(k + 1));
            assert(rest@ =~= all.subrange(k + 1, all.len() as int));
        }
    }
    proof {
        assert(out@ =~= arg_terms(all));
    }
    out
}

/// Whether `v` holds `x`.
fn contains_index(v: &Vec<usize>, x: usize) -> (r: bool)
    ensures
        r == index_view(v@).contains(x as int),
{
    let mut i: usize = 0;
    while i < v.len()
        invariant
            i <= v@.len(),
            forall|k: int| 0 <= k < i ==> v@[k] != x,
        decreases v@.len() - i,
    {
        if v[i] == x {
            proof {
                assert(index_view(v@)[i as int] == x as int);
            }
            return true;
        }
        i = i + 1;
    }
    proof {
        if index_view(v@).contains(x as int) {
            let k = choose|k: int| 0 <= k < index_view(v@).len() && index_view(v@)[k] == x as int;
            assert(v@[k] == x);
        }
    }
    false
}

/// The order of the parameters for a wrapper (see `call_order`).
fn build_order(idx: &Vec<usize>, n: usize) -> (r: Vec<usize>)
    ensures
        index_view(r@) == call_order(index_view(idx@), n as int),
{
    let ghost iv = index_view(idx@);
    let mut out: Vec<usize> = Vec::new();
    let mut i: usize = 0;
    while i < idx.len()
        invariant
            i <= idx@.len(),
            iv == index_view(idx@),
            index_view(out@) == iv.take(i as int),
        decreases idx@.len() - i,
    {
        let ghost before = index_view(out@);
        out.push(idx[i]);
        proof {
            assert(index_view(out@) =~= before.push(idx@[i as int] as int));
            assert(iv.take(i + 1) =~= iv.take(i as int).push(iv[i as int]));
            assert(index_view(out@) =~= iv.take(i + 1));
        }
        i = i + 1;
    }
    proof {
        assert(iv.take(idx@.len() as int) =~= iv);
        assert(unassigned_upto(iv, 0) =~= Seq::<int>::empty());
        assert(index_view(out@) =~= iv + unassigned_upto(iv, 0));
    }
    let mut j: usize = 0;
    while j < n
        invariant
            j <= n,
            iv == index_view(idx@),
            index_view(out@) == iv + unassigned_upto(iv, j as int),
        decreases n - j,
    {
        let ghost before = index_view(out@);
        if !contains_index(idx, j) {
            out.push(j);
            proof {
                assert(index_view(out@) =~= before.push(j as int));
            }
        }
        proof {
            assert(index_view(out@) =~= iv + unassigned_upto(iv, j + 1));
        }
        j = j + 1;
    }
    out
}

/// Matches a call's arguments to the target's parameters, as the argument-matching
/// rules say: with only positional arguments nothing changes; with named ones each
/// argument is placed (see `matched_indices`), and when that leaves the arguments in
/// another order than the parameters the call goes to a wrapper that takes them in
/// that order (see `wrapper_made`). The terms keep their order. Making the wrapper
/// fails only when its fresh name is bound in the current scope already, or when the
/// fresh-name counter runs out (which cannot happen within `wrapper_fits`).
pub fn resolve_call_arguments(
    ctx: &mut Context,
    target: &ContextEntry,
    signature: hir::Signature,
    ast_args: Vec<CallArg>,
    hoisted: &mut Vec<BlockItem>,
) -> (r: Result<ResolvedCallArgs, Error>)
    requires
        target.captures@.len() + signature.items@.len() + ast_args@.len() + 1 <= usize::MAX,
    ensures
        !has_named_arg(ast_args@) ==> (r matches Ok(res) && res.target@ == target@ && res.signature@ == signature@
            && res.terms@ == arg_terms(ast_args@) && *final(ctx) == *old(ctx) && final(hoisted)@ == old(hoisted)@),
        has_named_arg(ast_args@) ==> match matched_indices(
            signature@.items,
            arg_names(ast_args@),
            target.name@,
            target.captures@.len() as nat,
        ) {
            Err(m) => r matches Err(e) && e.code == Code::HIR && e.message@ == m && *final(ctx) == *old(ctx)
                && final(hoisted)@ == old(hoisted)@,
            Ok(idx) => {
                let order = call_order(idx, signature@.items.len() as int);
                if !is_reordered(order) {
                    r matches Ok(res) && res.target@ == target@ && res.signature@ == signature@ && res.terms@
                        == arg_terms(ast_args@) && *final(ctx) == *old(ctx) && final(hoisted)@ == old(hoisted)@
                } else {
                    &&& wrapper_fits(*old(ctx), order.len() as int) ==> (r is Err <==> old(ctx).inner_lookup(
                        wrapper_name_in(*old(ctx)),
                    ) is Some)
                    &&& match r {
                        Ok(res) => res.terms@ == arg_terms(ast_args@) && wrapper_made(
                            *old(ctx),
                            *final(ctx),
                            old(hoisted)@,
                            final(hoisted)@,
                            target@,
                            signature@,
                            order,
                            res.target@,
                            res.signature@,
                        ),
                        Err(e) => final(hoisted)@ == old(hoisted)@ && ((e.code == Code::Internal && e.message@
                            == exhausted_message()) || (e.code == Code::Resolve && e.message@ == duplicate_message(
                            numbered_name(old(ctx).counter as nat, nested_ns(old(ctx).ns@, None)),
                        ))),
                    }
                }
            },
        },
        r is Ok ==> crate::compiler::hir_ast::extends(old(hoisted)@, final(hoisted)@),
{
    let mut named = false;
    let mut i: usize = 0;
    while i < ast_args.len()
        invariant
            i <= ast_args@.len(),
            named == exists|k: int| 0 <= k < i && (#[trigger] ast_args@[k]).name is Some,
        decreases ast_args@.len() - i,
    {
        if ast_args[i].name.is_some() {
            named = true;
        }
        i = i + 1;
    }
    if !named {
        let terms = into_terms(ast_args);
        proof {
            crate::compiler::hir_ast::lemma_extends_refl(hoisted@);
        }
        return Ok(ResolvedCallArgs { target: clone_entry(target), signature, terms });
    }
    proof {
        hir::lemma_view_sig(signature);
        assert(items_view(signature.items@) =~= signature@.items);
    }
    let idx = match match_indices(&signature.items, &ast_args, target.name.as_str(), target.captures.len()) {
        Ok(v) => v,
        Err(e) => {
            return Err(e);
        },
    };
    let n = signature.items.len();
    let order = build_order(&idx, n);
    let ghost ov = index_view(order@);
    let mut reordered = false;
    let mut p: usize = 0;
    while p < order.len()
        invariant
            p <= order@.len(),
            ov == index_view(order@),
            reordered == exists|k: int| 0 <= k < p && ov[k] != k,
        decreases order@.len() - p,
    {
        if order[p] != p {
            reordered = true;
        }
        proof {
            assert(ov[p as int] == order@[p as int] as int);
        }
        p = p + 1;
    }
    let terms = into_terms(ast_args);
    if !reordered {
        proof {
            crate::compiler::hir_ast::lemma_extends_refl(hoisted@);
        }
        return Ok(ResolvedCallArgs { target: clone_entry(target), signature, terms });
    }
    proof {
        lemma_matched_valid(signature@.items, arg_names(ast_args@), target.name@, target.captures@.len() as nat);
        lemma_order_valid(index_view(idx@), n as int);
        assert forall|k: int| 0 <= k < order@.len() implies #[trigger] order@[k] < signature.items@.len() by {
            assert(ov[k] == order@[k] as int);
        }
    }
    match create_named_arg_wrapper(ctx, target, &signature, &order, hoisted) {
        Ok((w, s)) => Ok(ResolvedCallArgs { target: w, signature: s, terms }),
        Err(e) => Err(e),
    }
}

} // verus!
