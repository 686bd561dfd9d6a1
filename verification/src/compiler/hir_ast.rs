//! The high-level intermediate representation: types, signatures and the lowered
//! block items that the later stages consume.

use vstd::prelude::*;

use crate::name_set::sorted_set_of;

verus! {

// ---------------------------------------------------------------------------
// Views: types and signatures as mathematical values (names as character sequences)
// ---------------------------------------------------------------------------

#[verifier::ext_equal]
pub enum KindView {
    Byte,
    Int,
    Str,
    F64,
    Variadic,
    CompileTimeInt,
    CompileTimeStr,
    Ident(Seq<char>),
    Sig(SigView),
    GenericInst(Seq<char>, Seq<KindView>),
    Generic(Seq<char>),
}

#[verifier::ext_equal]
pub struct SigView {
    pub items: Seq<ItemView>,
    pub generics: Seq<Seq<char>>,
}

#[verifier::ext_equal]
pub struct ItemView {
    pub name: Seq<char>,
    pub kind: KindView,
    pub has_bang: bool,
}

/// The names of a sequence of strings.
pub open spec fn names_view(v: Seq<String>) -> Seq<Seq<char>> {
    Seq::new(v.len(), |i: int| v[i]@)
}

// ---------------------------------------------------------------------------
// Types
// ---------------------------------------------------------------------------

#[derive(Debug)]
pub enum SigKind {
    Byte,
    Int,
    Str,
    F64,
    Variadic,
    CompileTimeInt,
    CompileTimeStr,
    Ident(SigIdent),
    Sig(Signature),
    GenericInst { name: String, args: Vec<SigKind> },
    Generic(String),
}

/// A parameter list. `generics` holds the generic parameter names, sorted and
/// without repetition.
#[derive(Debug)]
pub struct Signature {
    pub items: Vec<SigItem>,
    pub generics: Vec<String>,
}

#[derive(Debug)]
pub struct SigItem {
    pub name: String,
    pub kind: SigKind,
    pub has_bang: bool,
}

#[derive(Debug)]
pub struct SigIdent {
    pub name: String,
}

pub open spec fn kind_view(k: SigKind) -> KindView
    decreases k,
{
    match k {
        SigKind::Byte => KindView::Byte,
        SigKind::Int => KindView::Int,
        SigKind::Str => KindView::Str,
        SigKind::F64 => KindView::F64,
        SigKind::Variadic => KindView::Variadic,
        SigKind::CompileTimeInt => KindView::CompileTimeInt,
        SigKind::CompileTimeStr => KindView::CompileTimeStr,
        SigKind::Ident(ident) => KindView::Ident(ident.name@),
        SigKind::Sig(sig) => KindView::Sig(sig_view(sig)),
        SigKind::GenericInst { name, args } => KindView::GenericInst(
            name@,
            Seq::new(
                args@.len(),
                |j: int|
                    if 0 <= j < args@.len() {
                        kind_view(args@[j])
                    } else {
                        KindView::Int
                    },
            ),
        ),
        SigKind::Generic(name) => KindView::Generic(name@),
    }
}

pub open spec fn sig_view(s: Signature) -> SigView
    decreases s,
{
    SigView {
        items: Seq::new(
            s.items@.len(),
            |j: int|
                if 0 <= j < s.items@.len() {
                    item_view(s.items@[j])
                } else {
                    ItemView { name: seq![], kind: KindView::Int, has_bang: false }
                },
        ),
        generics: names_view(s.generics@),
    }
}

pub open spec fn item_view(i: SigItem) -> ItemView
    decreases i,
{
    ItemView { name: i.name@, kind: kind_view(i.kind), has_bang: i.has_bang }
}

impl View for SigKind {
    type V = KindView;

    open spec fn view(&self) -> KindView {
        kind_view(*self)
    }
}

impl View for Signature {
    type V = SigView;

    open spec fn view(&self) -> SigView {
        sig_view(*self)
    }
}

impl View for SigItem {
    type V = ItemView;

    open spec fn view(&self) -> ItemView {
        item_view(*self)
    }
}

/// The views of a sequence of kinds.
pub open spec fn kinds_view(v: Seq<SigKind>) -> Seq<KindView> {
    Seq::new(v.len(), |i: int| v[i]@)
}

/// The views of a sequence of signature items.
pub open spec fn items_view(v: Seq<SigItem>) -> Seq<ItemView> {
    Seq::new(v.len(), |i: int| v[i]@)
}

/// The kind with every generic parameter list replaced by its ordered set.
pub open spec fn canon_kind(k: KindView) -> KindView
    decreases k,
{
    match k {
        KindView::Sig(s) => KindView::Sig(canon_sig(s)),
        KindView::GenericInst(n, args) => KindView::GenericInst(
            n,
            Seq::new(
                args.len(),
                |j: int|
                    if 0 <= j < args.len() {
                        canon_kind(args[j])
                    } else {
                        KindView::Int
                    },
            ),
        ),
        other => other,
    }
}

pub open spec fn canon_sig(s: SigView) -> SigView
    decreases s,
{
    SigView {
        items: Seq::new(
            s.items.len(),
            |j: int|
                if 0 <= j < s.items.len() {
                    ItemView {
                        name: s.items[j].name,
                        kind: canon_kind(s.items[j].kind),
                        has_bang: s.items[j].has_bang,
                    }
                } else {
                    ItemView { name: seq![], kind: KindView::Int, has_bang: false }
                },
        ),
        generics: sorted_set_of(s.generics),
    }
}

/// Every generic parameter list inside the kind is an ordered set: each name once,
/// in the order of `seq_less`.
pub open spec fn kind_wf(k: KindView) -> bool {
    canon_kind(k) == k
}

pub open spec fn sig_wf(s: SigView) -> bool {
    canon_sig(s) == s
}

// ---------------------------------------------------------------------------
// Equality: structural, except that parameter names are not compared
// ---------------------------------------------------------------------------

/// The kind with every parameter name erased (at every depth).
pub open spec fn shape(k: KindView) -> KindView
    decreases k,
{
    match k {
        KindView::Sig(s) => KindView::Sig(sig_shape(s)),
        KindView::GenericInst(n, args) => KindView::GenericInst(
            n,
            Seq::new(
                args.len(),
                |j: int|
                    if 0 <= j < args.len() {
                        shape(args[j])
                    } else {
                        KindView::Int
                    },
            ),
        ),
        other => other,
    }
}

pub open spec fn sig_shape(s: SigView) -> SigView
    decreases s,
{
    SigView {
        items: Seq::new(
            s.items.len(),
            |j: int|
                if 0 <= j < s.items.len() {
                    ItemView { name: seq![], kind: shape(s.items[j].kind), has_bang: s.items[j].has_bang }
                } else {
                    ItemView { name: seq![], kind: KindView::Int, has_bang: false }
                },
        ),
        generics: s.generics,
    }
}

pub proof fn lemma_view_inst(name: String, args: Vec<SigKind>)
    ensures
        ({
            let v = kind_view(SigKind::GenericInst { name, args });
            &&& v is GenericInst
            &&& v->GenericInst_0 == name@
            &&& v->GenericInst_1.len() == args@.len()
            &&& forall|j: int| 0 <= j < args@.len() ==> #[trigger] v->GenericInst_1[j] == kind_view(args@[j])
        }),
{
}

pub proof fn lemma_view_sig(s: Signature)
    ensures
        sig_view(s).items.len() == s.items@.len(),
        forall|j: int| 0 <= j < s.items@.len() ==> #[trigger] sig_view(s).items[j] == item_view(s.items@[j]),
        sig_view(s).generics == names_view(s.generics@),
{
}

pub proof fn lemma_shape_inst(v: KindView)
    requires
        v is GenericInst,
    ensures
        shape(v) is GenericInst,
        shape(v)->GenericInst_0 == v->GenericInst_0,
        shape(v)->GenericInst_1.len() == v->GenericInst_1.len(),
        forall|j: int| 0 <= j < v->GenericInst_1.len() ==> #[trigger] shape(v)->GenericInst_1[j] == shape(v->GenericInst_1[j]),
{
}

pub proof fn lemma_shape_sig(s: SigView)
    ensures
        sig_shape(s).items.len() == s.items.len(),
        forall|j: int| 0 <= j < s.items.len() ==> #[trigger] sig_shape(s).items[j] == (ItemView { name: seq![], kind: shape(s.items[j].kind), has_bang: s.items[j].has_bang }),
        sig_shape(s).generics == s.generics,
{
}

/// Whether two kinds are equal when parameter names are ignored.
#[verifier::loop_isolation(false)]
pub fn kind_eq(a: &SigKind, b: &SigKind) -> (r: bool)
    ensures
        r == (shape(a@) == shape(b@)),
    decreases a,
{
    match (a, b) {
        (SigKind::Byte, SigKind::Byte) => true,
        (SigKind::Int, SigKind::Int) => true,
        (SigKind::Str, SigKind::Str) => true,
        (SigKind::F64, SigKind::F64) => true,
        (SigKind::Variadic, SigKind::Variadic) => true,
        (SigKind::CompileTimeInt, SigKind::CompileTimeInt) => true,
        (SigKind::CompileTimeStr, SigKind::CompileTimeStr) => true,
        (SigKind::Ident(x), SigKind::Ident(y)) => {
            let r = x.name == y.name;
            assert(r == (shape(a@) == shape(b@)));
            r
        },
        (SigKind::Sig(x), SigKind::Sig(y)) => {
            let r = sig_eq(x, y);
            assert(r == (shape(a@) == shape(b@)));
            r
        },
        (SigKind::GenericInst { name: n1, args: a1 }, SigKind::GenericInst { name: n2, args: a2 }) => {
            proof {
                lemma_view_inst(*n1, *a1);
                lemma_view_inst(*n2, *a2);
                lemma_shape_inst(a@);
                lemma_shape_inst(b@);
            }
            assert(*a == SigKind::GenericInst { name: *n1, args: *a1 });
            assert(*b == SigKind::GenericInst { name: *n2, args: *a2 });
            if !(*n1 == *n2) {
                assert(shape(a@)->GenericInst_0 != shape(b@)->GenericInst_0);
                return false;
            }
            if a1.len() != a2.len() {
                assert(shape(a@)->GenericInst_1.len() != shape(b@)->GenericInst_1.len());
                return false;
            }
            let mut i: usize = 0;
            while i < a1.len()
                invariant
                    i <= a1@.len(),
                    a1@.len() == a2@.len(),
                    forall|j: int| 0 <= j < i ==> shape(kind_view(#[trigger] a1@[j])) == shape(kind_view(a2@[j])),
                decreases a1@.len() - i,
            {
                proof {
                    assert(decreases_to!(a1@ => a1@[i as int]));
                    assert(decreases_to!(*a1 => a1@));
                    assert(decreases_to!(*a => *a1));
                }
                if !kind_eq(&a1[i], &a2[i]) {
                    assert(shape(a@)->GenericInst_1[i as int] != shape(b@)->GenericInst_1[i as int]);
                    return false;
                }
                i = i + 1;
            }
            assert(shape(a@)->GenericInst_1 =~= shape(b@)->GenericInst_1);
            assert(shape(a@) =~= shape(b@));
            true
        },
        (SigKind::Generic(x), SigKind::Generic(y)) => {
            let r = *x == *y;
            assert(r == (shape(a@) == shape(b@)));
            r
        },
        _ => false,
    }
}

/// Whether two signatures are equal when parameter names are ignored.
#[verifier::loop_isolation(false)]
pub fn sig_eq(a: &Signature, b: &Signature) -> (r: bool)
    ensures
        r == (sig_shape(a@) == sig_shape(b@)),
    decreases a,
{
    proof {
        lemma_view_sig(*a);
        lemma_view_sig(*b);
        lemma_shape_sig(a@);
        lemma_shape_sig(b@);
    }
    if a.items.len() != b.items.len() {
        assert(sig_shape(a@).items.len() != sig_shape(b@).items.len());
        return false;
    }
    let mut i: usize = 0;
    while i < a.items.len()
        invariant
            i <= a.items@.len(),
            a.items@.len() == b.items@.len(),
            forall|j: int| 0 <= j < i ==> #[trigger] sig_shape(a@).items[j] == sig_shape(b@).items[j],
        decreases a.items@.len() - i,
    {
        proof {
            assert(decreases_to!(a.items@[i as int] => a.items@[i as int].kind));
            assert(decreases_to!(a.items@ => a.items@[i as int]));
            assert(decreases_to!(a.items => a.items@));
            assert(decreases_to!(*a => a.items));
        }
        let same = a.items[i].has_bang == b.items[i].has_bang && kind_eq(&a.items[i].kind, &b.items[i].kind);
        if !same {
            assert(sig_shape(a@).items[i as int] != sig_shape(b@).items[i as int]);
            return false;
        }
        i = i + 1;
    }
    assert(sig_shape(a@).items =~= sig_shape(b@).items);
    names_eq(&a.generics, &b.generics)
}

/// Whether two name lists are equal.
pub fn names_eq(a: &Vec<String>, b: &Vec<String>) -> (r: bool)
    ensures
        r == (names_view(a@) == names_view(b@)),
{
    if a.len() != b.len() {
        assert(names_view(a@).len() != names_view(b@).len());
        return false;
    }
    let mut i: usize = 0;
    while i < a.len()
        invariant
            i <= a@.len(),
            a@.len() == b@.len(),
            forall|j: int| 0 <= j < i ==> #[trigger] a@[j]@ == b@[j]@,
        decreases a@.len() - i,
    {
        if !(a[i] == b[i]) {
            assert(names_view(a@)[i as int] != names_view(b@)[i as int]);
            return false;
        }
        i = i + 1;
    }
    assert(names_view(a@) =~= names_view(b@));
    true
}

impl PartialEq for SigKind {
    fn eq(&self, other: &Self) -> (r: bool) {
        kind_eq(self, other)
    }
}

impl vstd::std_specs::cmp::PartialEqSpecImpl for SigKind {
    open spec fn obeys_eq_spec() -> bool {
        true
    }

    open spec fn eq_spec(&self, other: &SigKind) -> bool {
        shape(self@) == shape(other@)
    }
}

impl Eq for SigKind {}

impl PartialEq for Signature {
    fn eq(&self, other: &Self) -> (r: bool) {
        sig_eq(self, other)
    }
}

impl vstd::std_specs::cmp::PartialEqSpecImpl for Signature {
    open spec fn obeys_eq_spec() -> bool {
        true
    }

    open spec fn eq_spec(&self, other: &Signature) -> bool {
        sig_shape(self@) == sig_shape(other@)
    }
}

impl Eq for Signature {}

/// Two parameters are equal when their kinds and `!` marks are; names are not compared.
impl PartialEq for SigItem {
    fn eq(&self, other: &Self) -> (r: bool) {
        self.has_bang == other.has_bang && kind_eq(&self.kind, &other.kind)
    }
}

impl vstd::std_specs::cmp::PartialEqSpecImpl for SigItem {
    open spec fn obeys_eq_spec() -> bool {
        true
    }

    open spec fn eq_spec(&self, other: &SigItem) -> bool {
        self.has_bang == other.has_bang && shape(self.kind@) == shape(other.kind@)
    }
}

impl Eq for SigItem {}

impl PartialEq for SigIdent {
    fn eq(&self, other: &Self) -> (r: bool) {
        self.name == other.name
    }
}

impl vstd::std_specs::cmp::PartialEqSpecImpl for SigIdent {
    open spec fn obeys_eq_spec() -> bool {
        true
    }

    open spec fn eq_spec(&self, other: &SigIdent) -> bool {
        self.name@ == other.name@
    }
}

impl Eq for SigIdent {}

// ---------------------------------------------------------------------------
// Copies that keep the view
// ---------------------------------------------------------------------------

#[verifier::loop_isolation(false)]
pub fn clone_kind(k: &SigKind) -> (r: SigKind)
    ensures
        r@ == k@,
    decreases k,
{
    match k {
        SigKind::Byte => SigKind::Byte,
        SigKind::Int => SigKind::Int,
        SigKind::Str => SigKind::Str,
        SigKind::F64 => SigKind::F64,
        SigKind::Variadic => SigKind::Variadic,
        SigKind::CompileTimeInt => SigKind::CompileTimeInt,
        SigKind::CompileTimeStr => SigKind::CompileTimeStr,
        SigKind::Ident(ident) => SigKind::Ident(SigIdent { name: ident.name.clone() }),
        SigKind::Sig(sig) => SigKind::Sig(clone_signature(sig)),
        SigKind::GenericInst { name, args } => {
            let mut out: Vec<SigKind> = Vec::new();
            let mut i: usize = 0;
            while i < args.len()
                invariant
                    i <= args@.len(),
                    out@.len() == i,
                    forall|j: int| 0 <= j < i ==> kind_view(#[trigger] out@[j]) == kind_view(args@[j]),
                decreases args@.len() - i,
            {
                proof {
                    assert(decreases_to!(args@ => args@[i as int]));
                    assert(decreases_to!(*args => args@));
                    assert(decreases_to!(*k => *args));
                }
                out.push(clone_kind(&args[i]));
                i = i + 1;
            }
            let r = SigKind::GenericInst { name: name.clone(), args: out };
            proof {
                lemma_view_inst(*name, *args);
                lemma_view_inst(r->name, out);
                assert(kind_view(r)->GenericInst_1 =~= kind_view(*k)->GenericInst_1);
            }
            r
        },
        SigKind::Generic(name) => SigKind::Generic(name.clone()),
    }
}

#[verifier::loop_isolation(false)]
pub fn clone_signature(s: &Signature) -> (r: Signature)
    ensures
        r@ == s@,
    decreases s,
{
    let mut items: Vec<SigItem> = Vec::new();
    let mut i: usize = 0;
    while i < s.items.len()
        invariant
            i <= s.items@.len(),
            items@.len() == i,
            forall|j: int| 0 <= j < i ==> item_view(#[trigger] items@[j]) == item_view(s.items@[j]),
        decreases s.items@.len() - i,
    {
        proof {
            assert(decreases_to!(s.items@ => s.items@[i as int]));
            assert(decreases_to!(s.items => s.items@));
            assert(decreases_to!(*s => s.items));
        }
        items.push(clone_item(&s.items[i]));
        i = i + 1;
    }
    let generics = clone_names(&s.generics);
    let r = Signature { items, generics };
    proof {
        lemma_view_sig(r);
        lemma_view_sig(*s);
        assert(sig_view(r).items =~= sig_view(*s).items);
    }
    r
}

pub fn clone_item(item: &SigItem) -> (r: SigItem)
    ensures
        r@ == item@,
    decreases item,
{
    SigItem { name: item.name.clone(), kind: clone_kind(&item.kind), has_bang: item.has_bang }
}

pub fn clone_names(v: &Vec<String>) -> (r: Vec<String>)
    ensures
        names_view(r@) == names_view(v@),
{
    let mut out: Vec<String> = Vec::new();
    let mut i: usize = 0;
    while i < v.len()
        invariant
            i <= v@.len(),
            out@.len() == i,
            forall|j: int| 0 <= j < i ==> #[trigger] out@[j]@ == v@[j]@,
        decreases v@.len() - i,
    {
        out.push(v[i].clone());
        i = i + 1;
    }
    assert(names_view(out@) =~= names_view(v@));
    out
}

impl Clone for SigKind {
    fn clone(&self) -> (r: Self)
        ensures
            r@ == self@,
    {
        clone_kind(self)
    }
}

impl Clone for Signature {
    fn clone(&self) -> (r: Self)
        ensures
            r@ == self@,
    {
        clone_signature(self)
    }
}

impl Clone for SigItem {
    fn clone(&self) -> (r: Self)
        ensures
            r@ == self@,
    {
        clone_item(self)
    }
}

impl Clone for SigIdent {
    fn clone(&self) -> (r: Self)
        ensures
            r.name@ == self.name@,
    {
        SigIdent { name: self.name.clone() }
    }
}

// ---------------------------------------------------------------------------
// Constructors and queries
// ---------------------------------------------------------------------------

/// An unnamed, unmarked parameter of the given kind.
pub open spec fn anonymous_item(k: KindView) -> ItemView {
    ItemView { name: seq![], kind: k, has_bang: false }
}

impl SigKind {
    /// The tuple signature whose parameters are the given kinds, unnamed.
    pub fn tuple(items: Vec<SigKind>) -> (k: SigKind)
        ensures
            k@ == KindView::Sig(
                SigView {
                    items: kinds_view(items@).map_values(|kv: KindView| anonymous_item(kv)),
                    generics: seq![],
                },
            ),
    {
        SigKind::Sig(Signature::from_tuple(items))
    }
}

impl Signature {
    /// A signature of unnamed parameters with the given kinds and no generics.
    pub fn from_kinds(kinds: Vec<SigKind>) -> (s: Signature)
        ensures
            s@ == (SigView {
                items: kinds_view(kinds@).map_values(|kv: KindView| anonymous_item(kv)),
                generics: seq![],
            }),
    {
        let ghost orig = kinds@;
        let mut kinds = kinds;
        let mut items: Vec<SigItem> = Vec::new();
        let mut rev: Vec<SigItem> = Vec::new();
        // Take the kinds from the back, then restore the order.
        while kinds.len() > 0
            invariant
                kinds@.len() + rev@.len() == orig.len(),
                kinds@ == orig.subrange(0, kinds@.len() as int),
                forall|j: int|
                    0 <= j < rev@.len() ==> #[trigger] rev@[j]@ == anonymous_item(
                        orig[orig.len() - 1 - j]@,
                    ),
            decreases kinds@.len(),
        {
            let k = kinds.pop().unwrap();
            rev.push(SigItem { name: String::new(), kind: k, has_bang: false });
        }
        while rev.len() > 0
            invariant
                items@.len() + rev@.len() == orig.len(),
                forall|j: int|
                    0 <= j < rev@.len() ==> #[trigger] rev@[j]@ == anonymous_item(
                        orig[orig.len() - 1 - j]@,
                    ),
                forall|j: int|
                    0 <= j < items@.len() ==> #[trigger] items@[j]@ == anonymous_item(orig[j]@),
            decreases rev@.len(),
        {
            let item = rev.pop().unwrap();
            items.push(item);
        }
        let s = Signature { items, generics: Vec::new() };
        assert(sig_view(s).items.len() == orig.len());
        proof {
            lemma_view_sig(s);
        }
        assert(items@.len() == orig.len());
        assert forall|j: int| 0 <= j < orig.len() implies #[trigger] sig_view(s).items[j] == kinds_view(orig).map_values(|kv: KindView| anonymous_item(kv))[j] by {
            assert(sig_view(s).items[j] == item_view(s.items@[j]));
            assert(items@[j]@ == anonymous_item(orig[j]@));
        }
        assert(sig_view(s).items =~= kinds_view(orig).map_values(|kv: KindView| anonymous_item(kv)));
        assert(names_view(s.generics@) =~= seq![]);
        s
    }

    /// The kinds of the parameters, in order.
    pub fn kinds(&self) -> (r: Vec<SigKind>)
        ensures
            kinds_view(r@) == self@.items.map_values(|i: ItemView| i.kind),
    {
        let mut out: Vec<SigKind> = Vec::new();
        let mut i: usize = 0;
        while i < self.items.len()
            invariant
                i <= self.items@.len(),
                out@.len() == i,
                forall|j: int| 0 <= j < i ==> #[trigger] out@[j]@ == self.items@[j].kind@,
            decreases self.items@.len() - i,
        {
            out.push(clone_kind(&self.items[i].kind));
            i = i + 1;
        }
        assert(kinds_view(out@) =~= self@.items.map_values(|i: ItemView| i.kind));
        out
    }

    /// The same as `from_kinds`: a signature of unnamed parameters.
    pub fn from_tuple(items: Vec<SigKind>) -> (s: Signature)
        ensures
            s@ == (SigView {
                items: kinds_view(items@).map_values(|kv: KindView| anonymous_item(kv)),
                generics: seq![],
            }),
    {
        Signature::from_kinds(items)
    }

    /// Whether a parameter is variadic (`...`).
    pub fn is_variadic(&self) -> (r: bool)
        ensures
            r == exists|i: int| 0 <= i < self@.items.len() && self@.items[i].kind == KindView::Variadic,
    {
        let mut i: usize = 0;
        while i < self.items.len()
            invariant
                i <= self.items@.len(),
                forall|j: int| 0 <= j < i ==> self@.items[j].kind != KindView::Variadic,
            decreases self.items@.len() - i,
        {
            if let SigKind::Variadic = self.items[i].kind {
                assert(self@.items[i as int].kind == KindView::Variadic);
                return true;
            }
            i = i + 1;
        }
        false
    }

    /// The parameter names, in order.
    pub fn names(&self) -> (r: Vec<String>)
        ensures
            names_view(r@) == self@.items.map_values(|i: ItemView| i.name),
    {
        let mut out: Vec<String> = Vec::new();
        let mut i: usize = 0;
        while i < self.items.len()
            invariant
                i <= self.items@.len(),
                out@.len() == i,
                forall|j: int| 0 <= j < i ==> #[trigger] out@[j]@ == self.items@[j].name@,
            decreases self.items@.len() - i,
        {
            out.push(self.items[i].name.clone());
            i = i + 1;
        }
        assert(names_view(out@) =~= self@.items.map_values(|i: ItemView| i.name));
        out
    }
}

// ---------------------------------------------------------------------------
// Lowered block items
// ---------------------------------------------------------------------------

/// A literal value. Integer and string literals are the ones the lexer produces.
#[derive(Clone, Debug, PartialEq, Eq, Hash)]
pub enum Lit {
    Str(String),
    Int(i64),
}

pub enum LitView {
    Str(Seq<char>),
    Int(i64),
}

impl View for Lit {
    type V = LitView;

    open spec fn view(&self) -> LitView {
        match self {
            Lit::Str(s) => LitView::Str(s@),
            Lit::Int(v) => LitView::Int(*v),
        }
    }
}

/// A copy of the literal, with the same view.
pub fn clone_lit(l: &Lit) -> (r: Lit)
    ensures
        r@ == l@,
{
    match l {
        Lit::Str(s) => Lit::Str(s.clone()),
        Lit::Int(v) => Lit::Int(*v),
    }
}

#[derive(Debug)]
pub struct Function {
    pub name: String,
    pub sig: Signature,
    pub body: Block,
}

#[derive(Debug)]
pub struct Block {
    pub items: Vec<BlockItem>,
}

#[derive(Debug)]
pub enum BlockItem {
    Import { label: String, path: String },
    FunctionDef(Function),
    SigDef { name: String, sig: Signature },
    LitDef { name: String, literal: Lit },
    ClosureDef(Closure),
    Exec(Exec),
}

/// Whether `after` keeps the items of `before` first, in order: items were only added.
pub open spec fn extends(before: Seq<BlockItem>, after: Seq<BlockItem>) -> bool {
    before.len() <= after.len() && after.subrange(0, before.len() as int) == before
}

/// Adding to an extension of an extension is an extension.
pub proof fn lemma_extends_trans(a: Seq<BlockItem>, b: Seq<BlockItem>, c: Seq<BlockItem>)
    requires
        extends(a, b),
        extends(b, c),
    ensures
        extends(a, c),
{
    assert(c.subrange(0, a.len() as int) =~= c.subrange(0, b.len() as int).subrange(0, a.len() as int));
}

/// Items extend themselves.
pub proof fn lemma_extends_refl(a: Seq<BlockItem>)
    ensures
        extends(a, a),
{
    assert(a.subrange(0, a.len() as int) =~= a);
}

/// Items followed by more extend them.
pub proof fn lemma_extends_append(a: Seq<BlockItem>, b: Seq<BlockItem>)
    ensures
        extends(a, a + b),
{
    assert((a + b).subrange(0, a.len() as int) =~= a);
}

/// A transfer of control to `of` with the given arguments.
#[derive(Debug, Clone)]
pub struct Exec {
    pub of: String,
    pub args: Vec<String>,
}

/// The executable value `name`: `of` with the given arguments applied.
#[derive(Debug, Clone)]
pub struct Closure {
    pub name: String,
    pub of: String,
    pub args: Vec<String>,
}

} // verus!
