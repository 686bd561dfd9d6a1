//! The syntax tree that the parser builds.

use vstd::prelude::*;

use crate::compiler::hir_ast::{names_view, KindView, SigView, ItemView, anonymous_item};
use crate::compiler::span::Span;

verus! {

// An Item is a block-level construct: function definitions, type definitions, imports
// (at the root) and executions.
#[derive(Debug)]
pub enum BlockItem {
    Import { label: String, path: String, span: Span },
    SigDef { name: String, sig: Signature, span: Span },
    FunctionDef { name: String, lambda: Lambda, span: Span },
    StrDef { name: String, literal: StrLiteral, span: Span },
    IntDef { name: String, literal: IntLiteral, span: Span },
    IdentDef { name: String, ident: Ident, span: Span },
    Lambda(Lambda),
    Ident(Ident),
    ScopeCapture { params: Signature, continuation: Block, term: Term, span: Span },
}

impl BlockItem {
    /// Where the item starts.
    pub fn span(&self) -> (s: Span)
        ensures
            s == self.spec_span(),
    {
        match self {
            BlockItem::Import { span, .. } => *span,
            BlockItem::SigDef { span, .. } => *span,
            BlockItem::FunctionDef { span, .. } => *span,
            BlockItem::StrDef { span, .. } => *span,
            BlockItem::IntDef { span, .. } => *span,
            BlockItem::IdentDef { span, .. } => *span,
            BlockItem::ScopeCapture { span, .. } => *span,
            BlockItem::Ident(ident) => ident.span,
            BlockItem::Lambda(lambda) => lambda.span,
        }
    }

    pub open spec fn spec_span(&self) -> Span {
        match self {
            BlockItem::Import { span, .. } => *span,
            BlockItem::SigDef { span, .. } => *span,
            BlockItem::FunctionDef { span, .. } => *span,
            BlockItem::StrDef { span, .. } => *span,
            BlockItem::IntDef { span, .. } => *span,
            BlockItem::IdentDef { span, .. } => *span,
            BlockItem::ScopeCapture { span, .. } => *span,
            BlockItem::Ident(ident) => ident.span,
            BlockItem::Lambda(lambda) => lambda.span,
        }
    }
}

#[derive(Debug)]
pub enum SigKind {
    Byte,
    Int,
    Str,
    F64,
    Variadic,
    CompileTimeInt,
    CompileTimeStr,
    /// A named type: `foo`, `str`, `list`.
    Ident(SigIdent),
    /// A nested tuple signature: `(int, b: int, tail: list)`.
    Sig(Signature),
    /// A generic instantiation: `arr<int, list>`.
    GenericInst { name: String, args: Vec<SigKind> },
    /// An unbound generic type parameter: `T`.
    Generic(String),
}

#[derive(Debug)]
pub struct Signature {
    /// The items between the parentheses.
    pub items: Vec<SigItem>,
    /// Where the `( ... )` starts.
    pub span: Span,
    /// Generic parameters declared just before the signature (e.g. `<T>`), in order.
    pub generics: Vec<String>,
}

#[derive(Debug)]
pub struct SigItem {
    pub name: String,
    pub ty: SigKind,
    pub has_bang: bool,
    pub span: Span,
}

#[derive(Debug)]
pub struct SigIdent {
    pub name: String,
    pub span: Span,
}

#[derive(Debug)]
pub struct Block {
    pub items: Vec<BlockItem>,
    pub span: Span,
}

#[derive(Debug)]
pub enum Term {
    Int(IntLiteral),
    String(StrLiteral),
    Lambda(Lambda),
    Ident(Ident),
}

impl Term {
    /// Where the term starts.
    pub fn span(&self) -> (s: Span)
        ensures
            s == self.spec_span(),
    {
        match self {
            Term::Int(literal) => literal.span,
            Term::Ident(ident) => ident.span,
            Term::String(literal) => literal.span,
            Term::Lambda(lambda) => lambda.span,
        }
    }

    pub open spec fn spec_span(&self) -> Span {
        match self {
            Term::Int(literal) => literal.span,
            Term::Ident(ident) => ident.span,
            Term::String(literal) => literal.span,
            Term::Lambda(lambda) => lambda.span,
        }
    }
}

#[derive(Debug, Clone)]
pub struct StrLiteral {
    pub value: String,
    pub span: Span,
}

#[derive(Debug, Clone)]
pub struct IntLiteral {
    pub value: i64,
    pub span: Span,
}

#[derive(Debug)]
pub struct Lambda {
    pub params: Signature,
    pub body: Block,
    pub args: Vec<Term>,
    pub span: Span,
}

#[derive(Debug)]
pub struct Ident {
    pub name: String,
    pub args: Vec<Term>,
    pub span: Span,
}

#[derive(Debug, Clone)]
pub struct Arg {
    pub name: String,
    pub span: Span,
}

// ---------------------------------------------------------------------------
// Views (spans are not part of them)
// ---------------------------------------------------------------------------

pub open spec fn kind_view(k: SigKind) -> KindView
    decreases k,
{
    match k {
        SigKind::Byte => KindView::Byte,
        SigKind::Int => KindView::Int,
        SigKind::Str => KindView::Str,
        SigKind::F64 => KindView::F64,
        SigKind::Variadic => KindView::Variadic,
        SigKind::CompileTimeInt => KindView::CompileTimeInt,
        SigKind::CompileTimeStr => KindView::CompileTimeStr,
        SigKind::Ident(ident) => KindView::Ident(ident.name@),
        SigKind::Sig(sig) => KindView::Sig(sig_view(sig)),
        SigKind::GenericInst { name, args } => KindView::GenericInst(
            name@,
            Seq::new(
                args@.len(),
                |j: int|
                    if 0 <= j < args@.len() {
                        kind_view(args@[j])
                    } else {
                        KindView::Int
                    },
            ),
        ),
        SigKind::Generic(name) => KindView::Generic(name@),
    }
}

pub open spec fn sig_view(s: Signature) -> SigView
    decreases s,
{
    SigView {
        items: Seq::new(
            s.items@.len(),
            |j: int|
                if 0 <= j < s.items@.len() {
                    item_view(s.items@[j])
                } else {
                    ItemView { name: seq![], kind: KindView::Int, has_bang: false }
                },
        ),
        generics: names_view(s.generics@),
    }
}

pub open spec fn item_view(i: SigItem) -> ItemView
    decreases i,
{
    ItemView { name: i.name@, kind: kind_view(i.ty), has_bang: i.has_bang }
}

impl View for SigKind {
    type V = KindView;

    open spec fn view(&self) -> KindView {
        kind_view(*self)
    }
}

impl View for Signature {
    type V = SigView;

    open spec fn view(&self) -> SigView {
        sig_view(*self)
    }
}

impl View for SigItem {
    type V = ItemView;

    open spec fn view(&self) -> ItemView {
        item_view(*self)
    }
}

pub open spec fn kinds_view(v: Seq<SigKind>) -> Seq<KindView> {
    Seq::new(v.len(), |i: int| v[i]@)
}

pub proof fn lemma_view_inst(name: String, args: Vec<SigKind>)
    ensures
        ({
            let v = kind_view(SigKind::GenericInst { name, args });
            &&& v is GenericInst
            &&& v->GenericInst_0 == name@
            &&& v->GenericInst_1.len() == args@.len()
            &&& forall|j: int| 0 <= j < args@.len() ==> #[trigger] v->GenericInst_1[j] == kind_view(args@[j])
        }),
{
}

pub proof fn lemma_view_sig(s: Signature)
    ensures
        sig_view(s).items.len() == s.items@.len(),
        forall|j: int| 0 <= j < s.items@.len() ==> #[trigger] sig_view(s).items[j] == item_view(s.items@[j]),
        sig_view(s).generics == names_view(s.generics@),
{
}

// ---------------------------------------------------------------------------
// Constructors and queries
// ---------------------------------------------------------------------------

impl SigKind {
    /// The tuple signature whose parameters are the given kinds, unnamed.
    pub fn tuple(items: Vec<SigKind>) -> (k: SigKind)
        ensures
            k@ == KindView::Sig(
                SigView {
                    items: kinds_view(items@).map_values(|kv: KindView| anonymous_item(kv)),
                    generics: seq![],
                },
            ),
    {
        SigKind::Sig(Signature::from_tuple(items, Span::unknown()))
    }
}

impl Signature {
    /// A signature of unnamed parameters with the given kinds and no generics.
    pub fn from_kinds(kinds: Vec<SigKind>, span: Span) -> (s: Signature)
        ensures
            s@ == (SigView {
                items: kinds_view(kinds@).map_values(|kv: KindView| anonymous_item(kv)),
                generics: seq![],
            }),
            s.span == span,
    {
        let ghost orig = kinds@;
        let mut kinds = kinds;
        let mut items: Vec<SigItem> = Vec::new();
        let mut rev: Vec<SigItem> = Vec::new();
        while kinds.len() > 0
            invariant
                kinds@.len() + rev@.len() == orig.len(),
                kinds@ == orig.subrange(0, kinds@.len() as int),
                forall|j: int|
                    0 <= j < rev@.len() ==> #[trigger] rev@[j]@ == anonymous_item(
                        orig[orig.len() - 1 - j]@,
                    ),
            decreases kinds@.len(),
        {
            let k = kinds.pop().unwrap();
            rev.push(SigItem { name: String::new(), ty: k, has_bang: false, span: Span::unknown() });
        }
        while rev.len() > 0
            invariant
                items@.len() + rev@.len() == orig.len(),
                forall|j: int|
                    0 <= j < rev@.len() ==> #[trigger] rev@[j]@ == anonymous_item(
                        orig[orig.len() - 1 - j]@,
                    ),
                forall|j: int|
                    0 <= j < items@.len() ==> #[trigger] items@[j]@ == anonymous_item(orig[j]@),
            decreases rev@.len(),
        {
            let item = rev.pop().unwrap();
            items.push(item);
        }
        let s = Signature { items, span, generics: Vec::new() };
        proof {
            lemma_view_sig(s);
        }
        assert forall|j: int| 0 <= j < orig.len() implies #[trigger] sig_view(s).items[j] == kinds_view(orig).map_values(|kv: KindView| anonymous_item(kv))[j] by {
            assert(items@[j]@ == anonymous_item(orig[j]@));
        }
        assert(sig_view(s).items =~= kinds_view(orig).map_values(|kv: KindView| anonymous_item(kv)));
        assert(names_view(s.generics@) =~= seq![]);
        s
    }

    /// The kinds of the parameters, in order.
    pub fn kinds(&self) -> (r: Vec<SigKind>)
        ensures
            kinds_view(r@) == self@.items.map_values(|i: ItemView| i.kind),
    {
        let mut out: Vec<SigKind> = Vec::new();
        let mut i: usize = 0;
        while i < self.items.len()
            invariant
                i <= self.items@.len(),
                out@.len() == i,
                forall|j: int| 0 <= j < i ==> #[trigger] out@[j]@ == self.items@[j].ty@,
            decreases self.items@.len() - i,
        {
            out.push(clone_kind(&self.items[i].ty));
            i = i + 1;
        }
        proof {
            lemma_view_sig(*self);
        }
        assert(kinds_view(out@) =~= self@.items.map_values(|i: ItemView| i.kind));
        out
    }

    /// The same as `from_kinds`: a signature of unnamed parameters.
    pub fn from_tuple(items: Vec<SigKind>, span: Span) -> (s: Signature)
        ensures
            s@ == (SigView {
                items: kinds_view(items@).map_values(|kv: KindView| anonymous_item(kv)),
                generics: seq![],
            }),
            s.span == span,
    {
        Signature::from_kinds(items, span)
    }

    /// Whether a parameter is variadic (`...`).
    pub fn is_variadic(&self) -> (r: bool)
        ensures
            r == exists|i: int| 0 <= i < self@.items.len() && self@.items[i].kind == KindView::Variadic,
    {
        proof {
            lemma_view_sig(*self);
        }
        let mut i: usize = 0;
        while i < self.items.len()
            invariant
                i <= self.items@.len(),
                self@.items.len() == self.items@.len(),
                forall|j: int| 0 <= j < self.items@.len() ==> #[trigger] self@.items[j] == item_view(self.items@[j]),
                forall|j: int| 0 <= j < i ==> self@.items[j].kind != KindView::Variadic,
            decreases self.items@.len() - i,
        {
            if let SigKind::Variadic = self.items[i].ty {
                assert(self@.items[i as int].kind == KindView::Variadic);
                return true;
            }
            i = i + 1;
        }
        false
    }

    /// The parameter names, in order.
    pub fn names(&self) -> (r: Vec<String>)
        ensures
            names_view(r@) == self@.items.map_values(|i: ItemView| i.name),
    {
        let mut out: Vec<String> = Vec::new();
        let mut i: usize = 0;
        while i < self.items.len()
            invariant
                i <= self.items@.len(),
                out@.len() == i,
                forall|j: int| 0 <= j < i ==> #[trigger] out@[j]@ == self.items@[j].name@,
            decreases self.items@.len() - i,
        {
            out.push(self.items[i].name.clone());
            i = i + 1;
        }
        proof {
            lemma_view_sig(*self);
        }
        assert(names_view(out@) =~= self@.items.map_values(|i: ItemView| i.name));
        out
    }
}

// ---------------------------------------------------------------------------
// Copies that keep the view
// ---------------------------------------------------------------------------

#[verifier::loop_isolation(false)]
pub fn clone_kind(k: &SigKind) -> (r: SigKind)
    ensures
        r@ == k@,
    decreases k,
{
    match k {
        SigKind::Byte => SigKind::Byte,
        SigKind::Int => SigKind::Int,
        SigKind::Str => SigKind::Str,
        SigKind::F64 => SigKind::F64,
        SigKind::Variadic => SigKind::Variadic,
        SigKind::CompileTimeInt => SigKind::CompileTimeInt,
        SigKind::CompileTimeStr => SigKind::CompileTimeStr,
        SigKind::Ident(ident) => SigKind::Ident(SigIdent { name: ident.name.clone(), span: ident.span }),
        SigKind::Sig(sig) => SigKind::Sig(clone_signature(sig)),
        SigKind::GenericInst { name, args } => {
            let mut out: Vec<SigKind> = Vec::new();
            let mut i: usize = 0;
            while i < args.len()
                invariant
                    i <= args@.len(),
                    out@.len() == i,
                    forall|j: int| 0 <= j < i ==> kind_view(#[trigger] out@[j]) == kind_view(args@[j]),
                decreases args@.len() - i,
            {
                proof {
                    assert(decreases_to!(args@ => args@[i as int]));
                    assert(decreases_to!(*args => args@));
                    assert(decreases_to!(*k => *args));
                }
                out.push(clone_kind(&args[i]));
                i = i + 1;
            }
            let r = SigKind::GenericInst { name: name.clone(), args: out };
            proof {
                lemma_view_inst(*name, *args);
                lemma_view_inst(r->name, out);
                assert(kind_view(r)->GenericInst_1 =~= kind_view(*k)->GenericInst_1);
            }
            r
        },
        SigKind::Generic(name) => SigKind::Generic(name.clone()),
    }
}

#[verifier::loop_isolation(false)]
pub fn clone_signature(s: &Signature) -> (r: Signature)
    ensures
        r@ == s@,
        r.span == s.span,
    decreases s,
{
    let mut items: Vec<SigItem> = Vec::new();
    let mut i: usize = 0;
    while i < s.items.len()
        invariant
            i <= s.items@.len(),
            items@.len() == i,
            forall|j: int| 0 <= j < i ==> item_view(#[trigger] items@[j]) == item_view(s.items@[j]),
        decreases s.items@.len() - i,
    {
        proof {
            assert(decreases_to!(s.items@ => s.items@[i as int]));
            assert(decreases_to!(s.items => s.items@));
            assert(decreases_to!(*s => s.items));
        }
        items.push(clone_item(&s.items[i]));
        i = i + 1;
    }
    let generics = clone_names(&s.generics);
    let r = Signature { items, span: s.span, generics };
    proof {
        lemma_view_sig(r);
        lemma_view_sig(*s);
        assert(sig_view(r).items =~= sig_view(*s).items);
    }
    r
}

pub fn clone_item(item: &SigItem) -> (r: SigItem)
    ensures
        r@ == item@,
        r.span == item.span,
    decreases item,
{
    SigItem { name: item.name.clone(), ty: clone_kind(&item.ty), has_bang: item.has_bang, span: item.span }
}

pub fn clone_names(v: &Vec<String>) -> (r: Vec<String>)
    ensures
        names_view(r@) == names_view(v@),
{
    crate::compiler::hir_ast::clone_names(v)
}

} // verus!
