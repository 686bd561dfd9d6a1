//! The scopes that lowering resolves names in.
//!
//! A context holds the bindings of the current scope (`inner`) and those inherited
//! from the enclosing ones (`outer`). A lookup sees the inner bindings first; within a
//! list, a later binding of a key hides an earlier one.

use vstd::prelude::*;

use crate::compiler::builtins;
use crate::compiler::error::{code_name, Code, Error};
use crate::compiler::hir_ast::{
    clone_item, clone_kind, clone_names, items_view, names_view, Closure, ItemView, KindView,
    SigItem, SigKind, Signature,
};
use crate::compiler::span::Span;
use crate::text::{decimal_text, lemma_decimal_digits, lemma_decimal_injective, push_char, push_str, str_eq, usize_to_string};
use crate::{last_slug, last_slug_of};

verus! {

/// The name of the function that the program's entry code is lowered into.
pub const ENTRY_FUNCTION_NAME: &'static str = "_start";

// ---------------------------------------------------------------------------
// Entries
// ---------------------------------------------------------------------------

#[derive(Debug)]
pub struct ContextEntry {
    pub name: String,
    /// e.g. `int`, `str`, `foo<T>`, `(int, str)`.
    pub kind: SigKind,
    pub is_builtin: bool,
    pub is_root: bool,
    pub is_param: bool,
    pub is_capture: bool,
    pub span: Span,
    pub scope: Vec<String>,
    pub captures: Vec<SigItem>,
}

#[verifier::ext_equal]
pub struct EntryView {
    pub name: Seq<char>,
    pub kind: KindView,
    pub is_builtin: bool,
    pub is_root: bool,
    pub is_param: bool,
    pub is_capture: bool,
    pub span: Span,
    pub scope: Seq<Seq<char>>,
    pub captures: Seq<ItemView>,
}

impl View for ContextEntry {
    type V = EntryView;

    open spec fn view(&self) -> EntryView {
        EntryView {
            name: self.name@,
            kind: self.kind@,
            is_builtin: self.is_builtin,
            is_root: self.is_root,
            is_param: self.is_param,
            is_capture: self.is_capture,
            span: self.span,
            scope: names_view(self.scope@),
            captures: items_view(self.captures@),
        }
    }
}

/// A copy of the items, with the same views.
pub fn clone_items(v: &Vec<SigItem>) -> (r: Vec<SigItem>)
    ensures
        items_view(r@) == items_view(v@),
{
    let mut out: Vec<SigItem> = Vec::new();
    let mut i: usize = 0;
    while i < v.len()
        invariant
            i <= v@.len(),
            out@.len() == i,
            forall|j: int| 0 <= j < i ==> (#[trigger] out@[j])@ == v@[j]@,
        decreases v@.len() - i,
    {
        out.push(clone_item(&v[i]));
        i = i + 1;
    }
    assert(items_view(out@) =~= items_view(v@));
    out
}

/// A copy of the entry, with the same view.
pub fn clone_entry(e: &ContextEntry) -> (r: ContextEntry)
    ensures
        r@ == e@,
{
    ContextEntry {
        name: e.name.clone(),
        kind: clone_kind(&e.kind),
        is_builtin: e.is_builtin,
        is_root: e.is_root,
        is_param: e.is_param,
        is_capture: e.is_capture,
        span: e.span,
        scope: clone_names(&e.scope),
        captures: clone_items(&e.captures),
    }
}

impl Clone for ContextEntry {
    fn clone(&self) -> (r: Self)
        ensures
            r@ == self@,
    {
        clone_entry(self)
    }
}

// ---------------------------------------------------------------------------
// Binding lists
// ---------------------------------------------------------------------------

/// The views of a list of bindings.
pub open spec fn binding_views(s: Seq<(String, ContextEntry)>) -> Seq<(Seq<char>, EntryView)> {
    Seq::new(s.len(), |i: int| (s[i].0@, s[i].1@))
}

/// The entry bound to `key`: the last binding of it.
pub open spec fn lookup_in(s: Seq<(Seq<char>, EntryView)>, key: Seq<char>) -> Option<EntryView>
    decreases s.len(),
{
    if s.len() == 0 {
        None
    } else if s.last().0 == key {
        Some(s.last().1)
    } else {
        lookup_in(s.drop_last(), key)
    }
}

/// A lookup in two lists, one after the other, sees the second first.
pub proof fn lemma_lookup_append(a: Seq<(Seq<char>, EntryView)>, b: Seq<(Seq<char>, EntryView)>, key: Seq<char>)
    ensures
        lookup_in(a + b, key) == (match lookup_in(b, key) {
            Some(e) => Some(e),
            None => lookup_in(a, key),
        }),
    decreases b.len(),
{
    if b.len() == 0 {
        assert(a + b =~= a);
    } else {
        assert((a + b).drop_last() =~= a + b.drop_last());
        lemma_lookup_append(a, b.drop_last(), key);
    }
}

/// The lookup finds the last binding of the key.
proof fn lemma_lookup_at(s: Seq<(Seq<char>, EntryView)>, key: Seq<char>, i: int)
    requires
        0 <= i < s.len(),
        s[i].0 == key,
        forall|j: int| i < j < s.len() ==> (#[trigger] s[j]).0 != key,
    ensures
        lookup_in(s, key) == Some(s[i].1),
    decreases s.len(),
{
    if i < s.len() - 1 {
        lemma_lookup_at(s.drop_last(), key, i);
    }
}

/// Replacing the entry of the last binding of `name` changes what `name` names, and
/// nothing else.
proof fn lemma_lookup_update(s: Seq<(Seq<char>, EntryView)>, i: int, name: Seq<char>, v: EntryView, key: Seq<char>)
    requires
        0 <= i < s.len(),
        s[i].0 == name,
        forall|j: int| i < j < s.len() ==> (#[trigger] s[j]).0 != name,
    ensures
        lookup_in(s.update(i, (name, v)), key) == (if key == name {
            Some(v)
        } else {
            lookup_in(s, key)
        }),
    decreases s.len(),
{
    let u = s.update(i, (name, v));
    if i < s.len() - 1 {
        assert(u.drop_last() =~= s.drop_last().update(i, (name, v)));
        lemma_lookup_update(s.drop_last(), i, name, v, key);
    } else {
        assert(u.drop_last() =~= s.drop_last());
    }
}

/// Without a binding of the key, the lookup finds nothing.
proof fn lemma_lookup_none(s: Seq<(Seq<char>, EntryView)>, key: Seq<char>)
    requires
        forall|j: int| 0 <= j < s.len() ==> (#[trigger] s[j]).0 != key,
    ensures
        lookup_in(s, key) is None,
    decreases s.len(),
{
    if s.len() > 0 {
        lemma_lookup_none(s.drop_last(), key);
    }
}

/// The position of the last binding of `key`.
pub fn find_binding(s: &Vec<(String, ContextEntry)>, key: &str) -> (r: Option<usize>)
    ensures
        match r {
            Some(i) => i < s@.len() && s@[i as int].0@ == key@ && lookup_in(binding_views(s@), key@)
                == Some(s@[i as int].1@) && forall|j: int| i < j < s@.len() ==> (#[trigger] s@[j]).0@ != key@,
            None => lookup_in(binding_views(s@), key@) is None,
        },
{
    let mut i: usize = s.len();
    while i > 0
        invariant
            i <= s@.len(),
            forall|j: int| i <= j < s@.len() ==> (#[trigger] s@[j]).0@ != key@,
        decreases i,
    {
        i = i - 1;
        if str_eq(s[i].0.as_str(), key) {
            proof {
                let v = binding_views(s@);
                assert forall|j: int| i < j < v.len() implies (#[trigger] v[j]).0 != key@ by {
                    assert(v[j].0 == s@[j].0@);
                }
                lemma_lookup_at(v, key@, i as int);
            }
            return Some(i);
        }
    }
    proof {
        let v = binding_views(s@);
        assert forall|j: int| 0 <= j < v.len() implies (#[trigger] v[j]).0 != key@ by {
            assert(v[j].0 == s@[j].0@);
        }
        lemma_lookup_none(v, key@);
    }
    None
}

/// The keys that a list binds.
pub open spec fn binding_keys(s: Seq<(Seq<char>, EntryView)>) -> Set<Seq<char>> {
    s.map_values(|p: (Seq<char>, EntryView)| p.0).to_set()
}

/// How many bound keys are not among `visited`: a measure that shrinks each time a
/// lookup follows a binding that it has not followed before.
pub open spec fn unvisited(s: Seq<(Seq<char>, EntryView)>, visited: Seq<Seq<char>>) -> nat {
    binding_keys(s).difference(visited.to_set()).len()
}

/// A key that the lookup finds is bound.
pub proof fn lemma_lookup_some_key(s: Seq<(Seq<char>, EntryView)>, key: Seq<char>)
    requires
        lookup_in(s, key) is Some,
    ensures
        binding_keys(s).contains(key),
    decreases s.len(),
{
    let m = s.map_values(|p: (Seq<char>, EntryView)| p.0);
    if s.last().0 == key {
        assert(m[s.len() - 1] == key);
    } else {
        lemma_lookup_some_key(s.drop_last(), key);
        let t = s.drop_last().map_values(|p: (Seq<char>, EntryView)| p.0);
        let k = choose|k: int| 0 <= k < t.len() && t[k] == key;
        assert(m[k] == key);
    }
}

/// Following a binding of a key that was not visited before shrinks the measure.
pub proof fn lemma_unvisited_decreases(s: Seq<(Seq<char>, EntryView)>, visited: Seq<Seq<char>>, key: Seq<char>)
    requires
        lookup_in(s, key) is Some,
        !visited.contains(key),
    ensures
        unvisited(s, visited.push(key)) < unvisited(s, visited),
{
    lemma_lookup_some_key(s, key);
    let keys = binding_keys(s);
    let before = keys.difference(visited.to_set());
    let after = keys.difference(visited.push(key).to_set());
    s.map_values(|p: (Seq<char>, EntryView)| p.0).lemma_cardinality_of_set();
    assert(after =~= before.remove(key)) by {
        assert forall|x: Seq<char>| #[trigger] visited.push(key).to_set().contains(x) <==> (visited.to_set().contains(x) || x == key) by {
            if visited.push(key).contains(x) {
                let i = choose|i: int| 0 <= i < visited.push(key).len() && visited.push(key)[i] == x;
                if i < visited.len() {
                    assert(visited[i] == x);
                }
            }
            if visited.contains(x) {
                let i = choose|i: int| 0 <= i < visited.len() && visited[i] == x;
                assert(visited.push(key)[i] == x);
            }
            if x == key {
                assert(visited.push(key)[visited.len() as int] == x);
            }
        }
    }
    assert(before.contains(key));
}

/// A copy of a list of bindings, with the same views.
fn clone_bindings(s: &Vec<(String, ContextEntry)>) -> (r: Vec<(String, ContextEntry)>)
    ensures
        binding_views(r@) == binding_views(s@),
{
    let mut out: Vec<(String, ContextEntry)> = Vec::new();
    let mut i: usize = 0;
    while i < s.len()
        invariant
            i <= s@.len(),
            out@.len() == i,
            forall|j: int| 0 <= j < i ==> (#[trigger] out@[j]).0@ == s@[j].0@ && out@[j].1@ == s@[j].1@,
        decreases s@.len() - i,
    {
        out.push((s[i].0.clone(), clone_entry(&s[i].1)));
        i = i + 1;
    }
    assert(binding_views(out@) =~= binding_views(s@));
    out
}

// ---------------------------------------------------------------------------
// Closures
// ---------------------------------------------------------------------------

#[verifier::ext_equal]
pub struct ClosureView {
    pub name: Seq<char>,
    pub of: Seq<char>,
    pub args: Seq<Seq<char>>,
}

pub open spec fn closure_view(c: Closure) -> ClosureView {
    ClosureView { name: c.name@, of: c.of@, args: names_view(c.args@) }
}

pub open spec fn closure_views(s: Seq<Closure>) -> Seq<ClosureView> {
    Seq::new(s.len(), |i: int| closure_view(s[i]))
}

/// The last definition of the closure named `name`.
pub open spec fn closure_lookup(s: Seq<ClosureView>, name: Seq<char>) -> Option<ClosureView>
    decreases s.len(),
{
    if s.len() == 0 {
        None
    } else if s.last().name == name {
        Some(s.last())
    } else {
        closure_lookup(s.drop_last(), name)
    }
}

/// Where a closure's target leads: through every closure that the target names,
/// prepending that closure's arguments, until the target is not a closure or repeats.
/// `bound` is an upper bound on the number of distinct closures.
pub open spec fn closure_chain(
    defs: Seq<ClosureView>,
    visited: Seq<Seq<char>>,
    target: Seq<char>,
    args: Seq<Seq<char>>,
) -> (Seq<char>, Seq<Seq<char>>)
    decreases defs.len() - visited.len(),
{
    if visited.len() >= defs.len() {
        (target, args)
    } else {
        match closure_lookup(defs, target) {
            None => (target, args),
            Some(prev) => if visited.contains(target) {
                (target, args)
            } else {
                closure_chain(defs, visited.push(target), prev.of, prev.args + args)
            },
        }
    }
}

proof fn lemma_closure_lookup_at(s: Seq<ClosureView>, name: Seq<char>, i: int)
    requires
        0 <= i < s.len(),
        s[i].name == name,
        forall|j: int| i < j < s.len() ==> (#[trigger] s[j]).name != name,
    ensures
        closure_lookup(s, name) == Some(s[i]),
    decreases s.len(),
{
    if i < s.len() - 1 {
        lemma_closure_lookup_at(s.drop_last(), name, i);
    }
}

proof fn lemma_closure_lookup_none(s: Seq<ClosureView>, name: Seq<char>)
    requires
        forall|j: int| 0 <= j < s.len() ==> (#[trigger] s[j]).name != name,
    ensures
        closure_lookup(s, name) is None,
    decreases s.len(),
{
    if s.len() > 0 {
        lemma_closure_lookup_none(s.drop_last(), name);
    }
}

/// A name that the lookup finds is the name of some definition.
proof fn lemma_closure_lookup_found(s: Seq<ClosureView>, name: Seq<char>)
    requires
        closure_lookup(s, name) is Some,
    ensures
        s.map_values(|c: ClosureView| c.name).contains(name),
    decreases s.len(),
{
    if s.last().name == name {
        assert(s.map_values(|c: ClosureView| c.name)[s.len() - 1] == name);
    } else {
        lemma_closure_lookup_found(s.drop_last(), name);
        let t = s.drop_last().map_values(|c: ClosureView| c.name);
        let k = choose|k: int| 0 <= k < t.len() && t[k] == name;
        assert(s.map_values(|c: ClosureView| c.name)[k] == name);
    }
}

/// Distinct names that all belong to `keys` are at most as many as `keys`; when they are
/// as many, every member of `keys` is among them.
pub proof fn lemma_distinct_within(keys: Seq<Seq<char>>, visited: Seq<Seq<char>>)
    requires
        visited.no_duplicates(),
        forall|i: int| 0 <= i < visited.len() ==> keys.contains(#[trigger] visited[i]),
    ensures
        visited.len() <= keys.len(),
        visited.len() >= keys.len() ==> forall|t: Seq<char>| #[trigger] keys.contains(t) ==> visited.contains(t),
{
    visited.unique_seq_to_set();
    keys.lemma_cardinality_of_set();
    assert(visited.to_set().subset_of(keys.to_set())) by {
        assert forall|t: Seq<char>| visited.to_set().contains(t) implies keys.to_set().contains(t) by {
            let i = choose|i: int| 0 <= i < visited.len() && visited[i] == t;
            assert(keys.contains(visited[i]));
        }
    }
    vstd::set_lib::lemma_len_subset(visited.to_set(), keys.to_set());
    if visited.len() >= keys.len() {
        assert forall|t: Seq<char>| #[trigger] keys.contains(t) implies visited.contains(t) by {
            if !visited.contains(t) {
                let bigger = visited.to_set().insert(t);
                assert(bigger.subset_of(keys.to_set()));
                vstd::set_lib::lemma_len_subset(bigger, keys.to_set());
                assert(!visited.to_set().contains(t));
            }
        }
    }
}

/// The position of the last definition of the closure named `name`.
fn find_closure(s: &Vec<Closure>, name: &str) -> (r: Option<usize>)
    ensures
        match r {
            Some(i) => i < s@.len() && closure_lookup(closure_views(s@), name@) == Some(closure_view(s@[i as int])),
            None => closure_lookup(closure_views(s@), name@) is None,
        },
{
    let mut i: usize = s.len();
    while i > 0
        invariant
            i <= s@.len(),
            forall|j: int| i <= j < s@.len() ==> (#[trigger] s@[j]).name@ != name@,
        decreases i,
    {
        i = i - 1;
        if str_eq(s[i].name.as_str(), name) {
            proof {
                let v = closure_views(s@);
                assert forall|j: int| i < j < v.len() implies (#[trigger] v[j]).name != name@ by {
                    assert(v[j].name == s@[j].name@);
                }
                lemma_closure_lookup_at(v, name@, i as int);
            }
            return Some(i);
        }
    }
    proof {
        let v = closure_views(s@);
        assert forall|j: int| 0 <= j < v.len() implies (#[trigger] v[j]).name != name@ by {
            assert(v[j].name == s@[j].name@);
        }
        lemma_closure_lookup_none(v, name@);
    }
    None
}

/// Whether `names` holds `name`.
pub fn contains_name(names: &Vec<String>, name: &str) -> (r: bool)
    ensures
        r == names_view(names@).contains(name@),
{
    let mut i: usize = 0;
    while i < names.len()
        invariant
            i <= names@.len(),
            forall|j: int| 0 <= j < i ==> (#[trigger] names@[j])@ != name@,
        decreases names@.len() - i,
    {
        if str_eq(names[i].as_str(), name) {
            assert(names_view(names@)[i as int] == name@);
            return true;
        }
        i = i + 1;
    }
    proof {
        if names_view(names@).contains(name@) {
            let k = choose|k: int| 0 <= k < names_view(names@).len() && names_view(names@)[k] == name@;
            assert(names@[k]@ == name@);
        }
    }
    false
}

// ---------------------------------------------------------------------------
// The context
// ---------------------------------------------------------------------------

pub struct Context {
    pub name: String,
    pub is_root_fn: bool,
    /// The next number that a fresh name takes. A context entered from this one
    /// starts from this value, and `leave` carries its count back.
    pub counter: usize,
    /// The namespace that fresh names end in (e.g. `foo_bar`).
    pub ns: String,
    /// The names of the scopes from the root to this one.
    pub scope_stack: Vec<String>,
    /// Inherited bindings.
    pub outer: Vec<(String, ContextEntry)>,
    /// Bindings of the current scope.
    pub inner: Vec<(String, ContextEntry)>,
    /// The parameters of the current scope, in the order in which they were added.
    pub params: Vec<String>,
    pub closure_defs: Vec<Closure>,
    pub emitted_closures: Vec<String>,
}

/// The namespace of a scope entered from one with namespace `ns`.
pub open spec fn nested_ns(ns: Seq<char>, display_ns: Option<Seq<char>>) -> Seq<char> {
    match display_ns {
        Some(d) if d.len() > 0 => if ns.len() == 0 {
            d
        } else if ns == d {
            ns
        } else {
            ns + seq!['_'] + d
        },
        _ => if ns.len() == 0 {
            "lambda"@
        } else {
            ns
        },
    }
}

/// Whether an entry bound in scope `entry_scope` belongs to a scope that encloses the
/// scope `ctx_scope`: its path is a proper, non-empty prefix. At the root (or one level
/// below it) every entry does.
pub open spec fn scope_encloses(entry_scope: Seq<Seq<char>>, ctx_scope: Seq<Seq<char>>) -> bool {
    ctx_scope.len() <= 1 || ({
        &&& entry_scope.len() > 0
        &&& entry_scope.len() < ctx_scope.len()
        &&& entry_scope == ctx_scope.take(entry_scope.len() as int)
    })
}

/// `_{n}` followed by `_{suffix}` when the suffix is not empty.
pub open spec fn numbered_name(n: nat, suffix: Seq<char>) -> Seq<char> {
    if suffix.len() == 0 {
        seq!['_'] + decimal_text(n)
    } else {
        seq!['_'] + decimal_text(n) + seq!['_'] + suffix
    }
}

/// A run of digits followed by nothing or by `_` is read back whole: two such texts
/// are equal only when their digit runs are.
proof fn lemma_digit_run_prefix(d1: Seq<char>, t1: Seq<char>, d2: Seq<char>, t2: Seq<char>)
    requires
        forall|i: int| 0 <= i < d1.len() ==> '0' <= #[trigger] d1[i] <= '9',
        forall|i: int| 0 <= i < d2.len() ==> '0' <= #[trigger] d2[i] <= '9',
        t1.len() == 0 || t1[0] == '_',
        t2.len() == 0 || t2[0] == '_',
        d1 + t1 == d2 + t2,
    ensures
        d1 == d2,
{
    let x = d1 + t1;
    if d1.len() < d2.len() {
        assert(x[d1.len() as int] == d2[d1.len() as int]);
        assert(x[d1.len() as int] == t1[0]);
    } else if d2.len() < d1.len() {
        assert(x[d2.len() as int] == d1[d2.len() as int]);
        assert((d2 + t2)[d2.len() as int] == t2[0]);
    }
    assert(d1 =~= x.take(d1.len() as int));
    assert(d2 =~= (d2 + t2).take(d2.len() as int));
}

/// The tail that follows the number in a fresh name: nothing, or `_` and the suffix.
spec fn name_tail(tagged: bool, suffix: Seq<char>) -> Seq<char> {
    if !tagged && suffix.len() == 0 {
        Seq::empty()
    } else {
        seq!['_'] + suffix
    }
}

/// A fresh name is `_`, its number and its tail.
proof fn lemma_fresh_name_shape(n: nat, suffix: Seq<char>)
    ensures
        numbered_name(n, suffix) == seq!['_'] + (decimal_text(n) + name_tail(false, suffix)),
        tagged_name(n, suffix) == seq!['_'] + (decimal_text(n) + name_tail(true, suffix)),
{
    assert(numbered_name(n, suffix) =~= seq!['_'] + (decimal_text(n) + name_tail(false, suffix)));
    assert(tagged_name(n, suffix) =~= seq!['_'] + (decimal_text(n) + name_tail(true, suffix)));
}

/// Fresh names that were taken with different numbers are different, whatever their
/// suffixes and whichever of the forms `_{n}` and `_{n}_{suffix}` they have.
pub proof fn lemma_fresh_names_distinct(n1: nat, s1: Seq<char>, n2: nat, s2: Seq<char>)
    requires
        n1 != n2,
    ensures
        numbered_name(n1, s1) != numbered_name(n2, s2),
        tagged_name(n1, s1) != tagged_name(n2, s2),
        numbered_name(n1, s1) != tagged_name(n2, s2),
        tagged_name(n1, s1) != numbered_name(n2, s2),
{
    lemma_fresh_name_shape(n1, s1);
    lemma_fresh_name_shape(n2, s2);
    lemma_decimal_digits(n1);
    lemma_decimal_digits(n2);
    assert forall|a: bool, b: bool|
        seq!['_'] + (decimal_text(n1) + name_tail(a, s1)) != seq!['_'] + (decimal_text(n2) + name_tail(b, s2)) by {
        let x = seq!['_'] + (decimal_text(n1) + name_tail(a, s1));
        let y = seq!['_'] + (decimal_text(n2) + name_tail(b, s2));
        if x == y {
            assert(x.drop_first() =~= decimal_text(n1) + name_tail(a, s1));
            assert(y.drop_first() =~= decimal_text(n2) + name_tail(b, s2));
            lemma_digit_run_prefix(decimal_text(n1), name_tail(a, s1), decimal_text(n2), name_tail(b, s2));
            lemma_decimal_injective(n1, n2);
        }
    }
}

/// `parent` after it has left `inner`: it takes the larger of the two counters.
pub open spec fn left_context(parent: Context, inner: Context) -> Context {
    Context {
        counter: if inner.counter > parent.counter {
            inner.counter
        } else {
            parent.counter
        },
        ..parent
    }
}

/// Fresh names never repeat across a context and one entered from it: a context
/// entered from `parent` starts at `parent`'s counter (see `enter`) and takes the numbers
/// below its own counter `inner.counter`; once `parent` has left it, every number that
/// `parent` takes is at least that counter. So a name the inner context took (number
/// `n1`) differs from any name the parent takes afterwards (number `n2`), whatever the
/// suffixes and forms.
pub proof fn lemma_left_names_stay_fresh(
    parent: Context,
    inner: Context,
    n1: nat,
    s1: Seq<char>,
    n2: nat,
    s2: Seq<char>,
)
    requires
        n1 < inner.counter,
        left_context(parent, inner).counter <= n2,
    ensures
        numbered_name(n1, s1) != numbered_name(n2, s2),
        tagged_name(n1, s1) != tagged_name(n2, s2),
        numbered_name(n1, s1) != tagged_name(n2, s2),
        tagged_name(n1, s1) != numbered_name(n2, s2),
        left_context(parent, inner).counter >= parent.counter,
{
    lemma_fresh_names_distinct(n1, s1, n2, s2);
}

/// `_{n}_{suffix}`.
pub open spec fn tagged_name(n: nat, suffix: Seq<char>) -> Seq<char> {
    seq!['_'] + decimal_text(n) + seq!['_'] + suffix
}

/// The items for the parameters of the current scope whose capture flag is `capture`,
/// in the order in which they were added.
pub open spec fn param_items(names: Seq<Seq<char>>, inner: Seq<(Seq<char>, EntryView)>, capture: bool) -> Seq<ItemView>
    decreases names.len(),
{
    if names.len() == 0 {
        seq![]
    } else {
        let rest = param_items(names.drop_last(), inner, capture);
        let k = names.last();
        match lookup_in(inner, k) {
            Some(e) => if e.is_capture == capture {
                rest.push(ItemView { name: k, kind: e.kind, has_bang: false })
            } else {
                rest
            },
            None => rest,
        }
    }
}

/// Whether the parameter item `it` names a captured parameter of the scope `inner`.
pub open spec fn captured_in(inner: Seq<(Seq<char>, EntryView)>, it: ItemView) -> bool {
    lookup_in(inner, it.name) matches Some(e) && e.is_capture
}

/// The test `captured_in` for the scope `inner`.
pub open spec fn capture_test(inner: Seq<(Seq<char>, EntryView)>) -> spec_fn(ItemView) -> bool {
    |it: ItemView| captured_in(inner, it)
}

proof fn lemma_param_items_filter(names: Seq<Seq<char>>, inner: Seq<(Seq<char>, EntryView)>, capture: bool)
    ensures
        param_items(names, inner, capture).filter(capture_test(inner)) == if capture {
            param_items(names, inner, true)
        } else {
            Seq::<ItemView>::empty()
        },
    decreases names.len(),
{
    reveal(Seq::filter);
    let s = param_items(names, inner, capture);
    if names.len() > 0 {
        lemma_param_items_filter(names.drop_last(), inner, capture);
        let rest = param_items(names.drop_last(), inner, capture);
        let k = names.last();
        match lookup_in(inner, k) {
            Some(e) => {
                if e.is_capture == capture {
                    let it = ItemView { name: k, kind: e.kind, has_bang: false };
                    assert(s == rest.push(it));
                    assert(s.drop_last() =~= rest);
                    assert(captured_in(inner, it) == capture);
                }
            },
            None => {},
        }
    } else {
        assert(s.filter(capture_test(inner)) =~= Seq::<ItemView>::empty());
    }
}

/// The captured parameters of a scope (`get_captures`) are its parameters (`get_params`)
/// filtered to the captured ones, in the same order, and they come first.
pub proof fn lemma_captures_are_filtered_params(ctx: Context)
    ensures
        ({
            let names = ctx.param_names();
            let inner = binding_views(ctx.inner@);
            let captures = param_items(names, inner, true);
            let all = captures + param_items(names, inner, false);
            &&& captures == all.filter(capture_test(inner))
            &&& captures == all.take(captures.len() as int)
        }),
{
    let names = ctx.param_names();
    let inner = binding_views(ctx.inner@);
    let captures = param_items(names, inner, true);
    let others = param_items(names, inner, false);
    Seq::filter_distributes_over_add(captures, others, capture_test(inner));
    lemma_param_items_filter(names, inner, true);
    lemma_param_items_filter(names, inner, false);
    assert(captures.filter(capture_test(inner)) + Seq::<ItemView>::empty() =~= captures);
    assert((captures + others).take(captures.len() as int) =~= captures);
}

/// The error for a key that the current scope binds already.
pub open spec fn duplicate_message(key: Seq<char>) -> Seq<char> {
    "duplicate symbol `"@ + key + "` in this scope"@
}

pub open spec fn duplicate_param_message(key: Seq<char>) -> Seq<char> {
    "insert param, duplicate symbol `"@ + key + "` in this scope"@
}

pub open spec fn unknown_import_message(path: Seq<char>) -> Seq<char> {
    "unknown import '@"@ + path + "'"@
}

fn build_message(prefix: &str, middle: &str, suffix: &str) -> (r: String)
    ensures
        r@ == prefix@ + middle@ + suffix@,
{
    let mut s = prefix.to_string();
    push_str(&mut s, middle);
    push_str(&mut s, suffix);
    s
}

impl Context {
    /// The names of the scopes from the root to this one.
    pub open spec fn scope_names(&self) -> Seq<Seq<char>> {
        names_view(self.scope_stack@)
    }

    /// The parameters of the current scope, in the order in which they were added.
    pub open spec fn param_names(&self) -> Seq<Seq<char>> {
        names_view(self.params@)
    }

    /// Every binding that a lookup sees, inherited ones first.
    pub open spec fn bindings(&self) -> Seq<(Seq<char>, EntryView)> {
        binding_views(self.outer@) + binding_views(self.inner@)
    }

    /// The entry that `key` names.
    pub open spec fn lookup(&self, key: Seq<char>) -> Option<EntryView> {
        lookup_in(self.bindings(), key)
    }

    /// The entry that `key` names in the current scope.
    pub open spec fn inner_lookup(&self, key: Seq<char>) -> Option<EntryView> {
        lookup_in(binding_views(self.inner@), key)
    }

    pub open spec fn closures(&self) -> Seq<ClosureView> {
        closure_views(self.closure_defs@)
    }

    /// The context of the whole program: the entry function's root scope.
    pub fn new() -> (r: Self)
        ensures
            r.name@ == ENTRY_FUNCTION_NAME@,
            r.is_root_fn,
            r.counter == 0,
            r.ns@.len() == 0,
            r.scope_names().len() == 0,
            r.outer@.len() == 0,
            r.inner@.len() == 0,
            r.param_names().len() == 0,
            r.closure_defs@.len() == 0,
            r.emitted_closures@.len() == 0,
    {
        Context {
            name: ENTRY_FUNCTION_NAME.to_string(),
            is_root_fn: true,
            counter: 0,
            ns: String::new(),
            scope_stack: Vec::new(),
            outer: Vec::new(),
            inner: Vec::new(),
            params: Vec::new(),
            closure_defs: Vec::new(),
            emitted_closures: Vec::new(),
        }
    }

    /// The context of a scope named `name` nested in this one: it inherits every
    /// binding that this one sees, and starts with no bindings, parameters or closures
    /// of its own.
    pub fn enter(&self, name: &str, display_ns: Option<&str>, is_root_fn: bool) -> (r: Context)
        ensures
            r.name@ == name@,
            r.is_root_fn == is_root_fn,
            r.counter == self.counter,
            r.ns@ == nested_ns(self.ns@, match display_ns { Some(d) => Some(d@), None => None }),
            r.scope_names() == self.scope_names().push(name@),
            binding_views(r.outer@) == self.bindings(),
            r.inner@.len() == 0,
            r.param_names().len() == 0,
            r.closure_defs@.len() == 0,
            r.emitted_closures@.len() == 0,
            forall|k: Seq<char>| #[trigger] r.lookup(k) == self.lookup(k),
    {
        let new_ns = self.build_ns(display_ns);
        let mut new_outer = clone_bindings(&self.outer);
        let mut more = clone_bindings(&self.inner);
        new_outer.append(&mut more);
        let mut new_scope_stack = clone_names(&self.scope_stack);
        new_scope_stack.push(name.to_string());
        let r = Context {
            name: name.to_string(),
            is_root_fn,
            counter: self.counter,
            ns: new_ns,
            scope_stack: new_scope_stack,
            outer: new_outer,
            inner: Vec::new(),
            params: Vec::new(),
            closure_defs: Vec::new(),
            emitted_closures: Vec::new(),
        };
        proof {
            assert(binding_views(r.outer@) =~= self.bindings());
            assert(names_view(r.scope_stack@) =~= names_view(self.scope_stack@).push(name@));
            assert(binding_views(r.inner@) =~= Seq::<(Seq<char>, EntryView)>::empty());
            assert(names_view(r.params@) =~= Seq::<Seq<char>>::empty());
            assert forall|k: Seq<char>| #[trigger] r.lookup(k) == self.lookup(k) by {
                assert(r.bindings() =~= self.bindings());
            }
        }
        r
    }

    /// Carries the count of fresh names taken in `inner`, a context entered from this
    /// one, back to this one: the names this context takes next are new to both.
    pub fn leave(&mut self, inner: &Context)
        ensures
            *final(self) == left_context(*old(self), *inner),
    {
        if inner.counter > self.counter {
            self.counter = inner.counter;
        }
    }

    fn build_ns(&self, display_ns: Option<&str>) -> (r: String)
        ensures
            r@ == nested_ns(self.ns@, match display_ns { Some(d) => Some(d@), None => None }),
    {
        proof {
            reveal_strlit("lambda");
        }
        match display_ns {
            Some(ns) if ns.unicode_len() > 0 => {
                if self.ns.unicode_len() == 0 {
                    ns.to_string()
                } else if str_eq(self.ns.as_str(), ns) {
                    self.ns.clone()
                } else {
                    let mut s = self.ns.clone();
                    push_char(&mut s, '_');
                    push_str(&mut s, ns);
                    s
                }
            },
            _ => {
                if self.ns.unicode_len() == 0 {
                    "lambda".to_string()
                } else {
                    self.ns.clone()
                }
            },
        }
    }

    /// Whether the entry was bound in a scope that encloses this one: its scope path is
    /// a proper prefix of this one's. At the root (or one level below it) every entry is.
    #[verifier::loop_isolation(false)]
    pub fn is_scope_ancestor(&self, entry: &ContextEntry) -> (r: bool)
        ensures
            r == scope_encloses(names_view(entry.scope@), self.scope_names()),
    {
        let ctx_scope = &self.scope_stack;
        if ctx_scope.len() <= 1 {
            return true;
        }
        let entry_scope = &entry.scope;
        if entry_scope.len() == 0 || entry_scope.len() >= ctx_scope.len() {
            return false;
        }
        let mut i: usize = 0;
        while i < entry_scope.len()
            invariant
                i <= entry_scope@.len(),
                entry_scope@.len() < ctx_scope@.len(),
                forall|j: int| 0 <= j < i ==> (#[trigger] entry_scope@[j])@ == ctx_scope@[j]@,
            decreases entry_scope@.len() - i,
        {
            if !str_eq(entry_scope[i].as_str(), ctx_scope[i].as_str()) {
                proof {
                    let e = names_view(entry_scope@);
                    let t = names_view(ctx_scope@).take(entry_scope@.len() as int);
                    assert(e[i as int] != t[i as int]);
                    assert(e != t);
                    assert(e == names_view(entry.scope@));
                    assert(t == self.scope_names().take(e.len() as int));
                }
                return false;
            }
            i = i + 1;
        }
        proof {
            assert(names_view(entry_scope@) =~= names_view(ctx_scope@).take(entry_scope@.len() as int));
        }
        true
    }

    /// A fresh name for a function. At the root a display name is used as it is;
    /// otherwise the name is numbered, in the namespace that a scope with that display
    /// name would have.
    pub fn new_name_for_fn(&mut self, display_name: Option<&str>) -> (r: String)
        requires
            old(self).counter < usize::MAX,
        ensures
            ({
                let d = match display_name { Some(d) => Some(d@), None => None };
                if old(self).scope_names().len() == 0 && d is Some && d->0.len() > 0 {
                    &&& r@ == d->0
                    &&& *final(self) == *old(self)
                } else {
                    &&& r@ == numbered_name(old(self).counter as nat, nested_ns(old(self).ns@, d))
                    &&& *final(self) == (Context { counter: (old(self).counter + 1) as usize, ..*old(self) })
                }
            }),
    {
        if self.scope_stack.len() == 0 {
            if let Some(name) = display_name {
                if name.unicode_len() > 0 {
                    return name.to_string();
                }
            }
        }
        let n = self.counter;
        self.counter = n + 1;
        let ns = self.build_ns(display_name);
        let mut s = String::new();
        push_char(&mut s, '_');
        let digits = usize_to_string(n);
        push_str(&mut s, digits.as_str());
        if ns.unicode_len() > 0 {
            push_char(&mut s, '_');
            push_str(&mut s, ns.as_str());
        }
        s
    }

    /// A fresh name `_{n}_{name}`.
    pub fn new_name_for(&mut self, name: &str) -> (r: String)
        requires
            old(self).counter < usize::MAX,
        ensures
            r@ == tagged_name(old(self).counter as nat, name@),
            *final(self) == (Context { counter: (old(self).counter + 1) as usize, ..*old(self) }),
    {
        let n = self.counter;
        self.counter = n + 1;
        let mut s = String::new();
        push_char(&mut s, '_');
        let digits = usize_to_string(n);
        push_str(&mut s, digits.as_str());
        push_char(&mut s, '_');
        push_str(&mut s, name);
        s
    }

    /// A fresh name `_{n}` for a literal.
    pub fn new_name_for_literal(&mut self) -> (r: String)
        requires
            old(self).counter < usize::MAX,
        ensures
            r@ == numbered_name(old(self).counter as nat, seq![]),
            *final(self) == (Context { counter: (old(self).counter + 1) as usize, ..*old(self) }),
    {
        let n = self.counter;
        self.counter = n + 1;
        let mut s = String::new();
        push_char(&mut s, '_');
        let digits = usize_to_string(n);
        push_str(&mut s, digits.as_str());
        s
    }

    /// A fresh name `_{n}_{ns}` in this context's namespace.
    pub fn new_name(&mut self) -> (r: String)
        requires
            old(self).counter < usize::MAX,
        ensures
            r@ == tagged_name(old(self).counter as nat, old(self).ns@),
            *final(self) == (Context { counter: (old(self).counter + 1) as usize, ..*old(self) }),
    {
        let n = self.counter;
        self.counter = n + 1;
        let mut s = String::new();
        push_char(&mut s, '_');
        let digits = usize_to_string(n);
        push_str(&mut s, digits.as_str());
        push_char(&mut s, '_');
        push_str(&mut s, self.ns.as_str());
        s
    }

    /// Binds `key` to `entry` in the current scope; a key that the current scope binds
    /// already is refused.
    pub fn add(&mut self, key: &str, entry: ContextEntry) -> (r: Result<(), Error>)
        ensures
            match old(self).inner_lookup(key@) {
                Some(_) => r matches Err(e) && e.code == Code::Resolve && e.message@ == duplicate_message(key@)
                    && e.span == entry.span && *final(self) == *old(self),
                None => r is Ok && *final(self) == (Context {
                    inner: final(self).inner,
                    ..*old(self)
                }) && binding_views(final(self).inner@) == binding_views(old(self).inner@).push((key@, entry@)),
            },
    {
        if find_binding(&self.inner, key).is_some() {
            proof {
                reveal_strlit("duplicate symbol `");
                reveal_strlit("` in this scope");
            }
            let message = build_message("duplicate symbol `", key, "` in this scope");
            return Err(Error::new(Code::Resolve, message, entry.span));
        }
        self.inner.push((key.to_string(), entry));
        proof {
            assert(binding_views(self.inner@) =~= binding_views(old(self).inner@).push((key@, entry@)));
        }
        Ok(())
    }

    /// Binds the parameter `name` in the current scope and records it as a parameter.
    pub fn add_param(&mut self, name: &str, kind: SigKind, span: Span, is_capture: bool) -> (r: Result<(), Error>)
        ensures
            match old(self).inner_lookup(name@) {
                Some(_) => r matches Err(e) && e.code == Code::Resolve && e.message@ == duplicate_param_message(name@)
                    && e.span == span && *final(self) == *old(self),
                None => {
                    &&& r is Ok
                    &&& binding_views(final(self).inner@) == binding_views(old(self).inner@).push((
                        name@,
                        EntryView {
                            name: name@,
                            kind: kind@,
                            is_builtin: false,
                            is_root: false,
                            is_param: true,
                            is_capture,
                            span,
                            scope: old(self).scope_names(),
                            captures: seq![],
                        },
                    ))
                    &&& final(self).param_names() == old(self).param_names().push(name@)
                    &&& final(self).scope_names() == old(self).scope_names()
                    &&& final(self).outer == old(self).outer
                    &&& final(self).counter == old(self).counter
                    &&& final(self).ns == old(self).ns
                    &&& final(self).name == old(self).name
                    &&& final(self).closure_defs == old(self).closure_defs
                    &&& final(self).emitted_closures == old(self).emitted_closures
                },
            },
    {
        if find_binding(&self.inner, name).is_some() {
            proof {
                reveal_strlit("insert param, duplicate symbol `");
                reveal_strlit("` in this scope");
            }
            let message = build_message("insert param, duplicate symbol `", name, "` in this scope");
            return Err(Error::new(Code::Resolve, message, span));
        }
        self.params.push(name.to_string());
        let entry = ContextEntry {
            name: name.to_string(),
            kind,
            span,
            is_builtin: false,
            is_root: false,
            is_param: true,
            is_capture,
            scope: clone_names(&self.scope_stack),
            captures: Vec::new(),
        };
        self.inner.push((name.to_string(), entry));
        proof {
            assert(items_view(Seq::<SigItem>::empty()) =~= Seq::<ItemView>::empty());
            assert(binding_views(self.inner@) =~= binding_views(old(self).inner@).push((name@, entry@)));
            assert(names_view(self.params@) =~= names_view(old(self).params@).push(name@));
        }
        Ok(())
    }

    /// The parameters of the current scope whose capture flag is `capture`, in order.
    fn params_with(&self, capture: bool) -> (r: Vec<SigItem>)
        ensures
            items_view(r@) == param_items(self.param_names(), binding_views(self.inner@), capture),
    {
        let mut out: Vec<SigItem> = Vec::new();
        let mut i: usize = 0;
        let ghost names = names_view(self.params@);
        proof {
            assert(names.take(0) =~= Seq::<Seq<char>>::empty());
            assert(items_view(out@) =~= Seq::<ItemView>::empty());
        }
        while i < self.params.len()
            invariant
                i <= self.params@.len(),
                names == names_view(self.params@),
                items_view(out@) == param_items(names.take(i as int), binding_views(self.inner@), capture),
            decreases self.params@.len() - i,
        {
            let name = &self.params[i];
            proof {
                assert(names.take(i + 1).drop_last() =~= names.take(i as int));
                assert(names.take(i + 1).last() == name@);
            }
            match find_binding(&self.inner, name.as_str()) {
                Some(k) => {
                    let entry = &self.inner[k].1;
                    if entry.is_capture == capture {
                        let item = SigItem { name: name.clone(), kind: clone_kind(&entry.kind), has_bang: false };
                        out.push(item);
                        proof {
                            assert(items_view(out@) =~= param_items(names.take(i as int), binding_views(self.inner@), capture).push(item@));
                        }
                    }
                },
                None => {},
            }
            i = i + 1;
        }
        proof {
            assert(names.take(self.params@.len() as int) =~= names);
        }
        out
    }

    /// The parameters of the current scope: the captured ones first, then the others,
    /// each group in the order in which they were added.
    pub fn get_params(&self) -> (r: Vec<SigItem>)
        ensures
            items_view(r@) == param_items(self.param_names(), binding_views(self.inner@), true)
                + param_items(self.param_names(), binding_views(self.inner@), false),
    {
        let mut captures = self.params_with(true);
        let mut regular = self.params_with(false);
        let ghost c = captures@;
        let ghost g = regular@;
        captures.append(&mut regular);
        proof {
            assert(items_view(captures@) =~= items_view(c) + items_view(g));
        }
        captures
    }

    /// The captured parameters of the current scope, in the order in which they were added.
    pub fn get_captures(&self) -> (r: Vec<SigItem>)
        ensures
            items_view(r@) == param_items(self.param_names(), binding_views(self.inner@), true),
    {
        self.params_with(true)
    }

    /// Whether `self` is `old` with the literal `name` of `kind` bound in the current
    /// scope.
    pub open spec fn literal_added(self, old: Context, name: Seq<char>, kind: KindView, span: Span) -> bool {
        &&& self == (Context { inner: self.inner, ..old })
        &&& binding_views(self.inner@) == binding_views(old.inner@).push((
            name,
            EntryView {
                name,
                kind,
                is_builtin: false,
                is_root: false,
                is_param: false,
                is_capture: false,
                span,
                scope: old.scope_names(),
                captures: seq![],
            },
        ))
    }

    /// Binds the literal `name` in the current scope.
    pub fn add_literal(&mut self, name: &str, kind: SigKind, span: Span) -> (r: Result<(), Error>)
        ensures
            match old(self).inner_lookup(name@) {
                Some(_) => r matches Err(e) && e.code == Code::Resolve && e.message@ == duplicate_message(name@)
                    && *final(self) == *old(self),
                None => r is Ok && final(self).literal_added(*old(self), name@, kind@, span),
            },
    {
        let entry = ContextEntry {
            name: name.to_string(),
            kind,
            span,
            is_builtin: false,
            is_root: false,
            is_param: false,
            is_capture: false,
            scope: clone_names(&self.scope_stack),
            captures: Vec::new(),
        };
        proof {
            assert(items_view(Seq::<SigItem>::empty()) =~= Seq::<ItemView>::empty());
            assert(entry@.scope == self.scope_names());
        }
        self.add(name, entry)
    }

    /// Binds `key` to a type named `name` at the root of its scope.
    pub fn add_type(&mut self, key: &str, name: &str, kind: SigKind, span: Span, is_builtin: bool) -> (r: Result<(), Error>)
        ensures
            match old(self).inner_lookup(key@) {
                Some(_) => r matches Err(e) && e.code == Code::Resolve && e.message@ == duplicate_message(key@)
                    && *final(self) == *old(self),
                None => r is Ok && *final(self) == (Context {
                    inner: final(self).inner,
                    ..*old(self)
                }) && binding_views(final(self).inner@) == binding_views(old(self).inner@).push((
                    key@,
                    EntryView {
                        name: name@,
                        kind: kind@,
                        is_builtin,
                        is_root: true,
                        is_param: false,
                        is_capture: false,
                        span,
                        scope: old(self).scope_names(),
                        captures: seq![],
                    },
                )),
            },
    {
        let entry = ContextEntry {
            name: name.to_string(),
            kind,
            span,
            is_builtin,
            is_root: true,
            is_param: false,
            is_capture: false,
            scope: clone_names(&self.scope_stack),
            captures: Vec::new(),
        };
        proof {
            assert(items_view(Seq::<SigItem>::empty()) =~= Seq::<ItemView>::empty());
            assert(entry@.scope == self.scope_names());
        }
        self.add(key, entry)
    }

    /// Binds `key` to the signature `sig` of a function named `name`, whose own scope
    /// is nested in this one.
    pub fn add_sig(&mut self, key: &str, name: &str, sig: Signature, span: Span, is_builtin: bool) -> (r: Result<(), Error>)
        ensures
            match old(self).inner_lookup(key@) {
                Some(_) => r matches Err(e) && e.code == Code::Resolve && e.message@ == duplicate_message(key@)
                    && *final(self) == *old(self),
                None => r is Ok && *final(self) == (Context {
                    inner: final(self).inner,
                    ..*old(self)
                }) && binding_views(final(self).inner@) == binding_views(old(self).inner@).push((
                    key@,
                    EntryView {
                        name: name@,
                        kind: KindView::Sig(sig@),
                        is_builtin,
                        is_root: true,
                        is_param: false,
                        is_capture: false,
                        span,
                        scope: old(self).scope_names().push(name@),
                        captures: seq![],
                    },
                )),
            },
    {
        let mut entry_scope = clone_names(&self.scope_stack);
        entry_scope.push(name.to_string());
        let entry = ContextEntry {
            name: name.to_string(),
            kind: SigKind::Sig(sig),
            span,
            is_builtin,
            is_root: true,
            is_param: false,
            is_capture: false,
            scope: entry_scope,
            captures: Vec::new(),
        };
        proof {
            assert(items_view(Seq::<SigItem>::empty()) =~= Seq::<ItemView>::empty());
            assert(names_view(entry.scope@) =~= self.scope_names().push(name@));
        }
        self.add(key, entry)
    }

    /// The entry that `name` names: the current scope's binding, else the inherited one.
    pub fn get(&self, name: &str) -> (r: Option<&ContextEntry>)
        ensures
            match r {
                Some(e) => self.lookup(name@) == Some(e@),
                None => self.lookup(name@) is None,
            },
    {
        proof {
            lemma_lookup_append(binding_views(self.outer@), binding_views(self.inner@), name@);
        }
        match find_binding(&self.inner, name) {
            Some(i) => Some(&self.inner[i].1),
            None => match find_binding(&self.outer, name) {
                Some(i) => Some(&self.outer[i].1),
                None => None,
            },
        }
    }

    /// The entry that `name` names, to be changed in place: the current scope's binding,
    /// else the inherited one.
    pub fn get_mut(&mut self, name: &str) -> (r: Option<&mut ContextEntry>)
        ensures
            match old(self).lookup(name@) {
                None => r is None && *final(self) == *old(self),
                Some(e) => {
                    &&& r is Some
                    &&& (*r.unwrap())@ == e
                    &&& forall|k: Seq<char>| #[trigger] final(self).lookup(k) == (if k == name@ {
                        Some((*final(r.unwrap()))@)
                    } else {
                        old(self).lookup(k)
                    })
                    &&& final(self).inner@.len() == old(self).inner@.len()
                    &&& final(self).outer@.len() == old(self).outer@.len()
                    &&& *final(self) == (Context { inner: final(self).inner, outer: final(self).outer, ..*old(self) })
                },
            },
    {
        proof {
            lemma_lookup_append(binding_views(self.outer@), binding_views(self.inner@), name@);
        }
        let ghost before = *self;
        match find_binding(&self.inner, name) {
            Some(i) => {
                proof {
                    let s = binding_views(before.inner@);
                    let o = binding_views(before.outer@);
                    assert forall|x: ContextEntry| #[trigger] binding_views(before.inner@.update(i as int, (before.inner@[i as int].0, x)))
                        == s.update(i as int, (name@, x@)) by {
                        assert(binding_views(before.inner@.update(i as int, (before.inner@[i as int].0, x))) =~= s.update(i as int, (name@, x@)));
                    }
                    assert forall|v: EntryView, k: Seq<char>| #[trigger] lookup_in(o + s.update(i as int, (name@, v)), k) == (if k == name@ {
                        Some(v)
                    } else {
                        before.lookup(k)
                    }) by {
                        assert forall|j: int| i < j < s.len() implies (#[trigger] s[j]).0 != name@ by {
                            assert(s[j].0 == before.inner@[j].0@);
                        }
                        lemma_lookup_update(s, i as int, name@, v, k);
                        lemma_lookup_append(o, s.update(i as int, (name@, v)), k);
                        lemma_lookup_append(o, s, k);
                    }
                }
                Some(&mut self.inner[i].1)
            },
            None => match find_binding(&self.outer, name) {
                Some(i) => {
                    proof {
                        let s = binding_views(before.inner@);
                        let o = binding_views(before.outer@);
                        assert forall|x: ContextEntry| #[trigger] binding_views(before.outer@.update(i as int, (before.outer@[i as int].0, x)))
                            == o.update(i as int, (name@, x@)) by {
                            assert(binding_views(before.outer@.update(i as int, (before.outer@[i as int].0, x))) =~= o.update(i as int, (name@, x@)));
                        }
                        assert forall|v: EntryView, k: Seq<char>| #[trigger] lookup_in(o.update(i as int, (name@, v)) + s, k) == (if k == name@ {
                            Some(v)
                        } else {
                            before.lookup(k)
                        }) by {
                            assert forall|j: int| i < j < o.len() implies (#[trigger] o[j]).0 != name@ by {
                                assert(o[j].0 == before.outer@[j].0@);
                            }
                            lemma_lookup_update(o, i as int, name@, v, k);
                            lemma_lookup_append(o.update(i as int, (name@, v)), s, k);
                            lemma_lookup_append(o, s, k);
                        }
                    }
                    Some(&mut self.outer[i].1)
                },
                None => None,
            },
        }
    }

    /// Records a closure, with its target resolved through the closures recorded
    /// before it. A closure that ends up with no arguments is marked as emitted.
    pub fn register_closure(&mut self, closure: Closure)
        ensures
            ({
                let flat = closure_chain(old(self).closures(), seq![], closure.of@, names_view(closure.args@));
                &&& final(self).closures() == old(self).closures().push(
                    ClosureView { name: closure.name@, of: flat.0, args: flat.1 },
                )
                &&& names_view(final(self).emitted_closures@) == (if flat.1.len() == 0 {
                    names_view(old(self).emitted_closures@).push(closure.name@)
                } else {
                    names_view(old(self).emitted_closures@)
                })
                &&& *final(self) == (Context {
                    closure_defs: final(self).closure_defs,
                    emitted_closures: final(self).emitted_closures,
                    ..*old(self)
                })
            }),
    {
        let flattened = self.flatten_closure(&closure);
        if flattened.args.len() == 0 {
            self.emitted_closures.push(closure.name.clone());
        }
        let ghost before = self.closures();
        self.closure_defs.push(flattened);
        proof {
            assert(self.closures() =~= before.push(closure_view(flattened)));
            assert(names_view(self.emitted_closures@) =~= (if flattened.args@.len() == 0 {
                names_view(old(self).emitted_closures@).push(closure.name@)
            } else {
                names_view(old(self).emitted_closures@)
            }));
        }
    }

    fn flatten_closure(&self, closure: &Closure) -> (r: Closure)
        ensures
            ({
                let flat = closure_chain(self.closures(), seq![], closure.of@, names_view(closure.args@));
                &&& r.name@ == closure.name@
                &&& r.of@ == flat.0
                &&& names_view(r.args@) == flat.1
            }),
    {
        let ghost defs = self.closures();
        let ghost keys = defs.map_values(|c: ClosureView| c.name);
        let mut target = closure.of.clone();
        let mut args = clone_names(&closure.args);
        let mut seen: Vec<String> = Vec::new();
        proof {
            assert(names_view(seen@) =~= Seq::<Seq<char>>::empty());
        }
        loop
            invariant_except_break
                defs == self.closures(),
                keys == defs.map_values(|c: ClosureView| c.name),
                names_view(seen@).no_duplicates(),
                forall|i: int| 0 <= i < names_view(seen@).len() ==> keys.contains(#[trigger] names_view(seen@)[i]),
                closure_chain(defs, names_view(seen@), target@, names_view(args@))
                    == closure_chain(defs, seq![], closure.of@, names_view(closure.args@)),
            ensures
                closure_chain(defs, seq![], closure.of@, names_view(closure.args@)) == (target@, names_view(args@)),
            decreases defs.len() - seen@.len(),
        {
            proof {
                lemma_distinct_within(keys, names_view(seen@));
            }
            match find_closure(&self.closure_defs, target.as_str()) {
                None => {
                    break;
                },
                Some(i) => {
                    proof {
                        lemma_closure_lookup_found(defs, target@);
                    }
                    if contains_name(&seen, target.as_str()) {
                        break;
                    }
                    let ghost old_seen = names_view(seen@);
                    seen.push(target.clone());
                    let prev = &self.closure_defs[i];
                    let mut merged = clone_names(&prev.args);
                    let ghost a = names_view(merged@);
                    let ghost b = names_view(args@);
                    merged.append(&mut args);
                    args = merged;
                    target = prev.of.clone();
                    proof {
                        assert(names_view(seen@) =~= old_seen.push(names_view(seen@).last()));
                        assert(names_view(args@) =~= a + b);
                        assert forall|x: int, y: int| 0 <= x < y < names_view(seen@).len() implies names_view(seen@)[x] != names_view(seen@)[y] by {
                            if y == names_view(seen@).len() - 1 {
                                assert(old_seen[x] == names_view(seen@)[x]);
                            } else {
                                assert(old_seen[x] == names_view(seen@)[x]);
                                assert(old_seen[y] == names_view(seen@)[y]);
                            }
                        }
                        assert forall|x: int| 0 <= x < names_view(seen@).len() implies keys.contains(#[trigger] names_view(seen@)[x]) by {
                            if x < old_seen.len() {
                                assert(old_seen[x] == names_view(seen@)[x]);
                            }
                        }
                    }
                },
            }
        }
        Closure { name: closure.name.clone(), of: target, args }
    }
}

/// Binds the builtin that `@path` imports, under the last segment of the path.
pub fn register_import(ctx: &mut Context, import_path: &str, span: Span) -> (r: Result<(), Error>)
    ensures
        ({
            let name = last_slug_of(import_path@);
            match builtins::builtin_named(name) {
                Some(b) => match old(ctx).inner_lookup(name) {
                    Some(_) => r matches Err(e) && e.code == Code::Resolve && e.message@ == duplicate_message(name),
                    None => r is Ok && final(ctx).inner_lookup(name) == Some(EntryView {
                        name,
                        kind: KindView::Sig(builtins::builtin_signature(b)),
                        is_builtin: true,
                        is_root: true,
                        is_param: false,
                        is_capture: false,
                        span,
                        scope: old(ctx).scope_names().push(name),
                        captures: seq![],
                    }),
                },
                None => match builtins::builtin_type_named(name) {
                    Some(k) => match old(ctx).inner_lookup(name) {
                        Some(_) => r matches Err(e) && e.code == Code::Resolve && e.message@ == duplicate_message(name),
                        None => r is Ok && final(ctx).inner_lookup(name) == Some(EntryView {
                            name,
                            kind: k,
                            is_builtin: true,
                            is_root: true,
                            is_param: false,
                            is_capture: false,
                            span,
                            scope: old(ctx).scope_names(),
                            captures: seq![],
                        }),
                    },
                    None => r matches Err(e) && e.code == Code::Internal && e.message@ == unknown_import_message(import_path@)
                        && *final(ctx) == *old(ctx),
                },
            }
        }),
        r is Err ==> *final(ctx) == *old(ctx),
        r is Ok ==> *final(ctx) == (Context { inner: final(ctx).inner, ..*old(ctx) }) && binding_views(final(ctx).inner@)
            .len() == binding_views(old(ctx).inner@).len() + 1 && binding_views(final(ctx).inner@).drop_last()
            == binding_views(old(ctx).inner@),
{
    let name = last_slug(import_path);
    match builtins::get_spec(name) {
        None => {
            proof {
                reveal_strlit("unknown import '@");
                reveal_strlit("'");
            }
            let message = build_message("unknown import '@", import_path, "'");
            Err(Error::new(Code::Internal, message, span))
        },
        Some(builtins::BuiltinSpec::Function(sig)) => {
            let r = ctx.add_sig(name, name, sig, span, true);
            proof {
                if r is Ok {
                    lemma_lookup_at(binding_views(ctx.inner@), name@, binding_views(ctx.inner@).len() - 1);
                }
            }
            r
        },
        Some(builtins::BuiltinSpec::Type(ty)) => {
            let r = ctx.add_type(name, name, ty, span, true);
            proof {
                if r is Ok {
                    lemma_lookup_at(binding_views(ctx.inner@), name@, binding_views(ctx.inner@).len() - 1);
                }
            }
            r
        },
    }
}

} // verus!
