//! The program-wide symbol table that code generation consults: declared functions,
//! installed types, and the aliases under which builtins were imported.

use vstd::prelude::*;

use crate::compiler::air_ast::{FunctionSig, FunctionSigView};
use crate::compiler::builtins;
use crate::compiler::error::{Code, Error};
use crate::compiler::hir_ast::{items_view, KindView, SigKind};
use crate::compiler::span::Span;
use crate::text::{push_str, str_eq};
use crate::{last_slug, last_slug_of};

verus! {

/// The value bound last to `key` in an association list.
pub open spec fn assoc_lookup<V>(s: Seq<(Seq<char>, V)>, key: Seq<char>) -> Option<V>
    decreases s.len(),
{
    if s.len() == 0 {
        None
    } else if s.last().0 == key {
        Some(s.last().1)
    } else {
        assoc_lookup(s.drop_last(), key)
    }
}

proof fn lemma_assoc_at<V>(s: Seq<(Seq<char>, V)>, key: Seq<char>, i: int)
    requires
        0 <= i < s.len(),
        s[i].0 == key,
        forall|j: int| i < j < s.len() ==> (#[trigger] s[j]).0 != key,
    ensures
        assoc_lookup(s, key) == Some(s[i].1),
    decreases s.len(),
{
    if i < s.len() - 1 {
        lemma_assoc_at(s.drop_last(), key, i);
    }
}

/// Replacing the value of the last binding of `name` changes what `name` gives, and
/// nothing else.
pub proof fn lemma_assoc_update<V>(s: Seq<(Seq<char>, V)>, i: int, name: Seq<char>, v: V, key: Seq<char>)
    requires
        0 <= i < s.len(),
        s[i].0 == name,
        forall|j: int| i < j < s.len() ==> (#[trigger] s[j]).0 != name,
    ensures
        assoc_lookup(s.update(i, (name, v)), key) == (if key == name {
            Some(v)
        } else {
            assoc_lookup(s, key)
        }),
    decreases s.len(),
{
    let u = s.update(i, (name, v));
    if i < s.len() - 1 {
        assert(u.drop_last() =~= s.drop_last().update(i, (name, v)));
        lemma_assoc_update(s.drop_last(), i, name, v, key);
    } else {
        assert(u.drop_last() =~= s.drop_last());
    }
}

proof fn lemma_assoc_none<V>(s: Seq<(Seq<char>, V)>, key: Seq<char>)
    requires
        forall|j: int| 0 <= j < s.len() ==> (#[trigger] s[j]).0 != key,
    ensures
        assoc_lookup(s, key) is None,
    decreases s.len(),
{
    if s.len() > 0 {
        lemma_assoc_none(s.drop_last(), key);
    }
}

/// The last signature declared under `name`.
pub open spec fn function_lookup(s: Seq<FunctionSigView>, name: Seq<char>) -> Option<FunctionSigView>
    decreases s.len(),
{
    if s.len() == 0 {
        None
    } else if s.last().name == name {
        Some(s.last())
    } else {
        function_lookup(s.drop_last(), name)
    }
}

/// The function that a lookup finds carries the name it was looked up by.
pub proof fn lemma_function_lookup_name(s: Seq<FunctionSigView>, name: Seq<char>)
    ensures
        function_lookup(s, name) matches Some(f) ==> f.name == name,
    decreases s.len(),
{
    if s.len() > 0 && s.last().name != name {
        lemma_function_lookup_name(s.drop_last(), name);
    }
}

pub open spec fn kind_bindings(s: Seq<(String, SigKind)>) -> Seq<(Seq<char>, KindView)> {
    Seq::new(s.len(), |i: int| (s[i].0@, s[i].1@))
}

pub open spec fn name_bindings(s: Seq<(String, String)>) -> Seq<(Seq<char>, Seq<char>)> {
    Seq::new(s.len(), |i: int| (s[i].0@, s[i].1@))
}

pub open spec fn function_views(s: Seq<FunctionSig>) -> Seq<FunctionSigView> {
    Seq::new(s.len(), |i: int| s[i]@)
}

/// The position of the last binding of `key` in a list of named kinds.
fn find_kind(s: &Vec<(String, SigKind)>, key: &str) -> (r: Option<usize>)
    ensures
        match r {
            Some(i) => i < s@.len() && assoc_lookup(kind_bindings(s@), key@) == Some(s@[i as int].1@),
            None => assoc_lookup(kind_bindings(s@), key@) is None,
        },
{
    let mut i: usize = s.len();
    while i > 0
        invariant
            i <= s@.len(),
            forall|j: int| i <= j < s@.len() ==> (#[trigger] s@[j]).0@ != key@,
        decreases i,
    {
        i = i - 1;
        if str_eq(s[i].0.as_str(), key) {
            proof {
                let v = kind_bindings(s@);
                assert forall|j: int| i < j < v.len() implies (#[trigger] v[j]).0 != key@ by {
                    assert(v[j].0 == s@[j].0@);
                }
                lemma_assoc_at(v, key@, i as int);
            }
            return Some(i);
        }
    }
    proof {
        let v = kind_bindings(s@);
        assert forall|j: int| 0 <= j < v.len() implies (#[trigger] v[j]).0 != key@ by {
            assert(v[j].0 == s@[j].0@);
        }
        lemma_assoc_none(v, key@);
    }
    None
}

#[derive(Debug)]
pub struct SymbolRegistry {
    /// Declared functions; a later declaration of a name hides an earlier one.
    pub functions: Vec<FunctionSig>,
    /// Installed types, by name.
    pub types: Vec<(String, SigKind)>,
    /// Values, by name.
    pub values: Vec<(String, SigKind)>,
    /// The builtin that each import alias names.
    pub builtin_imports: Vec<(String, String)>,
}

impl SymbolRegistry {
    pub open spec fn function_table(&self) -> Seq<FunctionSigView> {
        function_views(self.functions@)
    }

    pub open spec fn type_table(&self) -> Seq<(Seq<char>, KindView)> {
        kind_bindings(self.types@)
    }

    pub open spec fn value_table(&self) -> Seq<(Seq<char>, KindView)> {
        kind_bindings(self.values@)
    }

    pub open spec fn import_table(&self) -> Seq<(Seq<char>, Seq<char>)> {
        name_bindings(self.builtin_imports@)
    }

    /// An empty registry.
    pub fn new() -> (r: Self)
        ensures
            r.functions@.len() == 0,
            r.types@.len() == 0,
            r.values@.len() == 0,
            r.builtin_imports@.len() == 0,
    {
        SymbolRegistry { functions: Vec::new(), types: Vec::new(), values: Vec::new(), builtin_imports: Vec::new() }
    }

    /// Records that `alias` names the builtin `builtin_name`.
    pub fn record_builtin_import(&mut self, alias: &str, builtin_name: &str)
        ensures
            final(self).import_table() == old(self).import_table().push((alias@, builtin_name@)),
            final(self).functions == old(self).functions,
            final(self).types == old(self).types,
            final(self).values == old(self).values,
    {
        self.builtin_imports.push((alias.to_string(), builtin_name.to_string()));
        proof {
            assert(self.import_table() =~= old(self).import_table().push((alias@, builtin_name@)));
        }
    }

    /// The builtin that `alias` names.
    pub fn builtin_name_for_alias(&self, alias: &str) -> (r: Option<&String>)
        ensures
            match assoc_lookup(self.import_table(), alias@) {
                Some(n) => r matches Some(s) && s@ == n,
                None => r is None,
            },
    {
        let s = &self.builtin_imports;
        let mut i: usize = s.len();
        while i > 0
            invariant
                s == &self.builtin_imports,
                i <= s@.len(),
                forall|j: int| i <= j < s@.len() ==> (#[trigger] s@[j]).0@ != alias@,
            decreases i,
        {
            i = i - 1;
            if str_eq(s[i].0.as_str(), alias) {
                proof {
                    let v = name_bindings(s@);
                    assert forall|j: int| i < j < v.len() implies (#[trigger] v[j]).0 != alias@ by {
                        assert(v[j].0 == s@[j].0@);
                    }
                    lemma_assoc_at(v, alias@, i as int);
                }
                return Some(&s[i].1);
            }
        }
        proof {
            let v = name_bindings(s@);
            assert forall|j: int| 0 <= j < v.len() implies (#[trigger] v[j]).0 != alias@ by {
                assert(v[j].0 == s@[j].0@);
            }
            lemma_assoc_none(v, alias@);
        }
        None
    }

    /// Declares a function under its name.
    pub fn declare_function(&mut self, sig: FunctionSig) -> (r: Result<(), Error>)
        ensures
            r is Ok,
            final(self).function_table() == old(self).function_table().push(sig@),
            final(self).types == old(self).types,
            final(self).values == old(self).values,
            final(self).builtin_imports == old(self).builtin_imports,
    {
        let ghost v = sig@;
        self.functions.push(sig);
        proof {
            assert(self.function_table() =~= old(self).function_table().push(v));
        }
        Ok(())
    }

    /// Installs the type `kind` under `name`.
    pub fn install_type(&mut self, name: String, kind: SigKind) -> (r: Result<(), Error>)
        ensures
            r is Ok,
            final(self).type_table() == old(self).type_table().push((name@, kind@)),
            final(self).functions == old(self).functions,
            final(self).values == old(self).values,
            final(self).builtin_imports == old(self).builtin_imports,
    {
        let ghost v = (name@, kind@);
        self.types.push((name, kind));
        proof {
            assert(self.type_table() =~= old(self).type_table().push(v));
        }
        Ok(())
    }

    /// The type installed under `name`.
    pub fn get_type_info(&self, name: &str) -> (r: Option<&SigKind>)
        ensures
            match assoc_lookup(self.type_table(), name@) {
                Some(k) => r matches Some(x) && x@ == k,
                None => r is None,
            },
    {
        match find_kind(&self.types, name) {
            Some(i) => Some(&self.types[i].1),
            None => None,
        }
    }

    /// The value bound to `name`.
    pub fn get_value(&self, name: &str) -> (r: Option<&SigKind>)
        ensures
            match assoc_lookup(self.value_table(), name@) {
                Some(k) => r matches Some(x) && x@ == k,
                None => r is None,
            },
    {
        match find_kind(&self.values, name) {
            Some(i) => Some(&self.values[i].1),
            None => None,
        }
    }

    /// The function declared last under `name`.
    pub fn get_function(&self, name: &str) -> (r: Option<&FunctionSig>)
        ensures
            match function_lookup(self.function_table(), name@) {
                Some(f) => r matches Some(x) && x@ == f,
                None => r is None,
            },
    {
        let s = &self.functions;
        let mut i: usize = s.len();
        proof {
            assert(function_views(s@).take(s@.len() as int) =~= function_views(s@));
        }
        while i > 0
            invariant
                s == &self.functions,
                i <= s@.len(),
                function_lookup(self.function_table(), name@) == function_lookup(function_views(s@).take(i as int), name@),
            decreases i,
        {
            proof {
                assert(function_views(s@).take(i as int).drop_last() =~= function_views(s@).take(i - 1));
            }
            if str_eq(s[i - 1].name.as_str(), name) {
                return Some(&s[i - 1]);
            }
            i = i - 1;
        }
        None
    }
}

impl Default for SymbolRegistry {
    fn default() -> (r: Self)
        ensures
            r.functions@.len() == 0,
            r.types@.len() == 0,
            r.values@.len() == 0,
            r.builtin_imports@.len() == 0,
    {
        SymbolRegistry::new()
    }
}

fn message3(prefix: &str, middle: &str, suffix: &str) -> (r: String)
    ensures
        r@ == prefix@ + middle@ + suffix@,
{
    let mut s = prefix.to_string();
    push_str(&mut s, middle);
    push_str(&mut s, suffix);
    s
}

/// Records the import of `@path` under `alias` and, when it names a builtin type,
/// installs that type under the alias. An unknown builtin is an error (after the alias
/// was recorded).
pub fn register_builtin_import(alias: &str, import_path: &str, span: Span, symbols: &mut SymbolRegistry) -> (r: Result<(), Error>)
    ensures
        ({
            let name = last_slug_of(import_path@);
            &&& final(symbols).import_table() == old(symbols).import_table().push((alias@, name))
            &&& final(symbols).functions == old(symbols).functions
            &&& final(symbols).values == old(symbols).values
            &&& match builtins::builtin_named(name) {
                Some(_) => r is Ok && final(symbols).types == old(symbols).types,
                None => match builtins::builtin_type_named(name) {
                    Some(k) => r is Ok && final(symbols).type_table() == old(symbols).type_table().push((alias@, k)),
                    None => r matches Err(e) && e.code == Code::Internal
                        && e.message@ == "unknown import '@"@ + import_path@ + "'"@ && e.span == span
                        && final(symbols).types == old(symbols).types,
                },
            }
        }),
{
    let name = last_slug(import_path);
    symbols.record_builtin_import(alias, name);
    match builtins::get_spec(name) {
        None => {
            let message = message3("unknown import '@", import_path, "'");
            Err(Error::new(Code::Internal, message, span))
        },
        Some(builtins::BuiltinSpec::Type(kind)) => symbols.install_type(alias.to_string(), kind),
        Some(builtins::BuiltinSpec::Function(_)) => Ok(()),
    }
}

/// The signature under which the builtin `builtin_name` is called: its parameters, no
/// generics, and the builtin itself.
pub fn builtin_function_sig(builtin_name: &str, span: Span) -> (r: Result<FunctionSig, Error>)
    ensures
        match builtins::builtin_named(builtin_name@) {
            Some(b) => r matches Ok(sig) && sig@ == (FunctionSigView {
                name: builtin_name@,
                params: builtins::builtin_signature(b).items,
                generics: seq![],
                builtin: Some(b),
            }),
            None => r matches Err(e) && e.code == Code::Internal && e.span == span && e.message@ == (
                if builtins::builtin_type_named(builtin_name@) is Some {
                    "'"@ + builtin_name@ + "' is not a callable builtin"@
                } else {
                    "unknown import '@"@ + builtin_name@ + "'"@
                }),
        },
{
    let spec = match builtins::get_spec(builtin_name) {
        Some(s) => s,
        None => {
            let message = message3("unknown import '@", builtin_name, "'");
            return Err(Error::new(Code::Internal, message, span));
        },
    };
    if let builtins::BuiltinSpec::Function(sig) = spec {
        let builtin = match builtins::Builtin::from_name(builtin_name) {
            Some(b) => b,
            None => {
                let message = message3("unknown builtin '", builtin_name, "'");
                return Err(Error::new(Code::Internal, message, span));
            },
        };
        let r = FunctionSig { name: builtin_name.to_string(), params: sig.items, generics: Vec::new(), builtin: Some(builtin) };
        proof {
            crate::compiler::hir_ast::lemma_view_sig(sig);
            assert(r@.params =~= sig@.items);
            assert(r@.generics =~= Seq::<Seq<char>>::empty());
        }
        return Ok(r);
    }
    let message = message3("'", builtin_name, "' is not a callable builtin");
    Err(Error::new(Code::Internal, message, span))
}

} // verus!
