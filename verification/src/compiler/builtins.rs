//! The builtin operations and types that `@name` imports refer to.

use vstd::prelude::*;

use crate::compiler::hir_ast::{
    anonymous_item, items_view, kinds_view, ItemView, KindView, SigItem, SigKind, SigView, Signature,
};
use crate::text::str_eq;

verus! {

/// What an import names: a callable builtin with its signature, or a builtin type.
#[derive(Debug)]
pub enum BuiltinSpec {
    Function(Signature),
    Type(SigKind),
}

#[derive(Clone, Copy, Debug, PartialEq, Eq, Hash, Structural)]
pub enum Builtin {
    Add,
    Sub,
    Mul,
    Div,
    AddF64,
    MulF64,
    DivF64,
    Eq,
    Eqi,
    Eqs,
    Lt,
    Gt,
    Write,
    Exit,
    Printf,
    Sprintf,
}

/// The builtin that an import name selects (`divint` is another name for `div`, and
/// `eq` for `eqi`).
pub open spec fn builtin_named(name: Seq<char>) -> Option<Builtin> {
    if name == "add"@ {
        Some(Builtin::Add)
    } else if name == "sub"@ {
        Some(Builtin::Sub)
    } else if name == "mul"@ {
        Some(Builtin::Mul)
    } else if name == "div"@ || name == "divint"@ {
        Some(Builtin::Div)
    } else if name == "addf64"@ {
        Some(Builtin::AddF64)
    } else if name == "mulf64"@ {
        Some(Builtin::MulF64)
    } else if name == "divf64"@ {
        Some(Builtin::DivF64)
    } else if name == "eq"@ || name == "eqi"@ {
        Some(Builtin::Eqi)
    } else if name == "eqs"@ {
        Some(Builtin::Eqs)
    } else if name == "lt"@ {
        Some(Builtin::Lt)
    } else if name == "gt"@ {
        Some(Builtin::Gt)
    } else if name == "write"@ {
        Some(Builtin::Write)
    } else if name == "exit"@ {
        Some(Builtin::Exit)
    } else if name == "printf"@ {
        Some(Builtin::Printf)
    } else if name == "sprintf"@ {
        Some(Builtin::Sprintf)
    } else {
        None
    }
}

pub open spec fn builtin_name(b: Builtin) -> Seq<char> {
    match b {
        Builtin::Add => "add"@,
        Builtin::Sub => "sub"@,
        Builtin::Mul => "mul"@,
        Builtin::Div => "div"@,
        Builtin::AddF64 => "addf64"@,
        Builtin::MulF64 => "mulf64"@,
        Builtin::DivF64 => "divf64"@,
        Builtin::Eq => "eq"@,
        Builtin::Eqi => "eq"@,
        Builtin::Eqs => "eqs"@,
        Builtin::Lt => "lt"@,
        Builtin::Gt => "gt"@,
        Builtin::Write => "write"@,
        Builtin::Exit => "exit"@,
        Builtin::Printf => "printf"@,
        Builtin::Sprintf => "sprintf"@,
    }
}

/// Whether a name is made of lowercase ASCII letters and digits only, and not empty.
pub open spec fn plain_lowercase_name(s: Seq<char>) -> bool {
    s.len() > 0 && forall|i: int| 0 <= i < s.len() ==> ('a' <= #[trigger] s[i] <= 'z' || '0' <= s[i] <= '9')
}

/// Each builtin's name selects it again, but for `Eq`, whose name `eq` selects `Eqi`;
/// every name is lowercase letters and digits.
pub proof fn lemma_builtin_name_round_trip(b: Builtin)
    ensures
        b != Builtin::Eq ==> builtin_named(builtin_name(b)) == Some(b),
        b == Builtin::Eq ==> builtin_named(builtin_name(b)) == Some(Builtin::Eqi),
        plain_lowercase_name(builtin_name(b)),
{
    reveal_strlit("add");
    assert("add"@.len() == 3 && "add"@[0] == 'a' && "add"@[1] == 'd' && "add"@[2] == 'd');
    reveal_strlit("sub");
    assert("sub"@.len() == 3 && "sub"@[0] == 's' && "sub"@[1] == 'u' && "sub"@[2] == 'b');
    reveal_strlit("mul");
    assert("mul"@.len() == 3 && "mul"@[0] == 'm' && "mul"@[1] == 'u' && "mul"@[2] == 'l');
    reveal_strlit("div");
    assert("div"@.len() == 3 && "div"@[0] == 'd' && "div"@[1] == 'i' && "div"@[2] == 'v');
    reveal_strlit("divint");
    assert("divint"@.len() == 6 && "divint"@[0] == 'd' && "divint"@[1] == 'i' && "divint"@[5] == 't');
    reveal_strlit("addf64");
    assert("addf64"@.len() == 6 && "addf64"@[0] == 'a' && "addf64"@[1] == 'd' && "addf64"@[5] == '4');
    reveal_strlit("mulf64");
    assert("mulf64"@.len() == 6 && "mulf64"@[0] == 'm' && "mulf64"@[1] == 'u' && "mulf64"@[5] == '4');
    reveal_strlit("divf64");
    assert("divf64"@.len() == 6 && "divf64"@[0] == 'd' && "divf64"@[1] == 'i' && "divf64"@[5] == '4');
    reveal_strlit("eq");
    assert("eq"@.len() == 2 && "eq"@[0] == 'e' && "eq"@[1] == 'q' && "eq"@[1] == 'q');
    reveal_strlit("eqi");
    assert("eqi"@.len() == 3 && "eqi"@[0] == 'e' && "eqi"@[1] == 'q' && "eqi"@[2] == 'i');
    reveal_strlit("eqs");
    assert("eqs"@.len() == 3 && "eqs"@[0] == 'e' && "eqs"@[1] == 'q' && "eqs"@[2] == 's');
    reveal_strlit("lt");
    assert("lt"@.len() == 2 && "lt"@[0] == 'l' && "lt"@[1] == 't' && "lt"@[1] == 't');
    reveal_strlit("gt");
    assert("gt"@.len() == 2 && "gt"@[0] == 'g' && "gt"@[1] == 't' && "gt"@[1] == 't');
    reveal_strlit("write");
    assert("write"@.len() == 5 && "write"@[0] == 'w' && "write"@[1] == 'r' && "write"@[4] == 'e');
    reveal_strlit("exit");
    assert("exit"@.len() == 4 && "exit"@[0] == 'e' && "exit"@[1] == 'x' && "exit"@[3] == 't');
    reveal_strlit("printf");
    assert("printf"@.len() == 6 && "printf"@[0] == 'p' && "printf"@[1] == 'r' && "printf"@[5] == 'f');
    reveal_strlit("sprintf");
    assert("sprintf"@.len() == 7 && "sprintf"@[0] == 's' && "sprintf"@[1] == 'p' && "sprintf"@[6] == 'f');
}

pub open spec fn named(name: Seq<char>, kind: KindView) -> ItemView {
    ItemView { name, kind, has_bang: false }
}

/// A tuple of the given parameters, without generics.
pub open spec fn tuple_of(items: Seq<ItemView>) -> KindView {
    KindView::Sig(SigView { items, generics: seq![] })
}

/// `(x, y, ok: (res))` over the given kind.
pub open spec fn math_binary_view(k: KindView) -> SigView {
    SigView {
        items: seq![named("x"@, k), named("y"@, k), named("ok"@, tuple_of(seq![named("res"@, k)]))],
        generics: seq![],
    }
}

/// `(left, right, ok: (), err: ())` over the given kind.
pub open spec fn comparison_view(k: KindView) -> SigView {
    SigView {
        items: seq![
            named("left"@, k),
            named("right"@, k),
            named("ok"@, tuple_of(seq![])),
            named("err"@, tuple_of(seq![])),
        ],
        generics: seq![],
    }
}

/// `(x: int, y: int, err: (res: int), ok: (res: int))`.
pub open spec fn div_view() -> SigView {
    SigView {
        items: seq![
            named("x"@, KindView::Int),
            named("y"@, KindView::Int),
            named("err"@, tuple_of(seq![named("res"@, KindView::Int)])),
            named("ok"@, tuple_of(seq![named("res"@, KindView::Int)])),
        ],
        generics: seq![],
    }
}

pub open spec fn builtin_signature(b: Builtin) -> SigView {
    match b {
        Builtin::Add | Builtin::Sub | Builtin::Mul => math_binary_view(KindView::Int),
        Builtin::Div => div_view(),
        Builtin::AddF64 | Builtin::MulF64 | Builtin::DivF64 => math_binary_view(KindView::F64),
        Builtin::Eq | Builtin::Eqi | Builtin::Lt | Builtin::Gt => comparison_view(KindView::Int),
        Builtin::Eqs => comparison_view(KindView::Str),
        Builtin::Write => SigView {
            items: seq![named("value"@, KindView::Str), named("ok"@, tuple_of(seq![]))],
            generics: seq![],
        },
        Builtin::Exit => SigView { items: seq![named("code"@, KindView::Int)], generics: seq![] },
        Builtin::Printf => SigView {
            items: seq![
                named("format"@, KindView::CompileTimeStr),
                named("args"@, KindView::Variadic),
                named("ok"@, tuple_of(seq![])),
            ],
            generics: seq![],
        },
        Builtin::Sprintf => SigView {
            items: seq![
                named("format"@, KindView::CompileTimeStr),
                named("args"@, KindView::Variadic),
                named("ok"@, tuple_of(seq![anonymous_item(KindView::Str)])),
            ],
            generics: seq![],
        },
    }
}

pub open spec fn builtin_type_named(name: Seq<char>) -> Option<KindView> {
    if name == "byte"@ {
        Some(KindView::Byte)
    } else if name == "int"@ {
        Some(KindView::Int)
    } else if name == "str"@ {
        Some(KindView::Str)
    } else if name == "f64"@ {
        Some(KindView::F64)
    } else {
        None
    }
}

impl Builtin {
    pub fn from_name(name: &str) -> (r: Option<Self>)
        ensures
            r == builtin_named(name@),
    {
        if str_eq(name, "add") {
            Some(Builtin::Add)
        } else if str_eq(name, "sub") {
            Some(Builtin::Sub)
        } else if str_eq(name, "mul") {
            Some(Builtin::Mul)
        } else if str_eq(name, "div") || str_eq(name, "divint") {
            Some(Builtin::Div)
        } else if str_eq(name, "addf64") {
            Some(Builtin::AddF64)
        } else if str_eq(name, "mulf64") {
            Some(Builtin::MulF64)
        } else if str_eq(name, "divf64") {
            Some(Builtin::DivF64)
        } else if str_eq(name, "eq") || str_eq(name, "eqi") {
            Some(Builtin::Eqi)
        } else if str_eq(name, "eqs") {
            Some(Builtin::Eqs)
        } else if str_eq(name, "lt") {
            Some(Builtin::Lt)
        } else if str_eq(name, "gt") {
            Some(Builtin::Gt)
        } else if str_eq(name, "write") {
            Some(Builtin::Write)
        } else if str_eq(name, "exit") {
            Some(Builtin::Exit)
        } else if str_eq(name, "printf") {
            Some(Builtin::Printf)
        } else if str_eq(name, "sprintf") {
            Some(Builtin::Sprintf)
        } else {
            None
        }
    }

    pub fn name(self) -> (s: &'static str)
        ensures
            s@ == builtin_name(self),
    {
        match self {
            Builtin::Add => "add",
            Builtin::Sub => "sub",
            Builtin::Mul => "mul",
            Builtin::Div => "div",
            Builtin::AddF64 => "addf64",
            Builtin::MulF64 => "mulf64",
            Builtin::DivF64 => "divf64",
            Builtin::Eq => "eq",
            Builtin::Eqi => "eq",
            Builtin::Eqs => "eqs",
            Builtin::Lt => "lt",
            Builtin::Gt => "gt",
            Builtin::Write => "write",
            Builtin::Exit => "exit",
            Builtin::Printf => "printf",
            Builtin::Sprintf => "sprintf",
        }
    }

    pub fn signature(self) -> (s: Signature)
        ensures
            s@ == builtin_signature(self),
    {
        match self {
            Builtin::Add | Builtin::Sub | Builtin::Mul => math_binary_sig(SigKind::Int),
            Builtin::Div => div_sig(),
            Builtin::AddF64 | Builtin::MulF64 | Builtin::DivF64 => math_binary_sig(SigKind::F64),
            Builtin::Eq | Builtin::Eqi | Builtin::Lt | Builtin::Gt => comparison_sig(SigKind::Int),
            Builtin::Eqs => comparison_sig(SigKind::Str),
            Builtin::Write => {
                let ok = empty_tuple();
                let items = vec![sig_item("value", SigKind::Str), sig_item("ok", ok)];
                proof {
                    assert(items_view(items@) =~= builtin_signature(self).items);
                }
                sig_from_items(items)
            },
            Builtin::Exit => {
                let items = vec![sig_item("code", SigKind::Int)];
                proof {
                    assert(items_view(items@) =~= builtin_signature(self).items);
                }
                sig_from_items(items)
            },
            Builtin::Printf => {
                let ok = empty_tuple();
                let items = vec![
                    sig_item("format", SigKind::CompileTimeStr),
                    sig_item("args", SigKind::Variadic),
                    sig_item("ok", ok),
                ];
                proof {
                    assert(items_view(items@) =~= builtin_signature(self).items);
                }
                sig_from_items(items)
            },
            Builtin::Sprintf => {
                let kinds = vec![SigKind::Str];
                let ok = SigKind::tuple(kinds);
                proof {
                    assert(kinds_view(kinds@).map_values(|kv: KindView| anonymous_item(kv))
                        =~= seq![anonymous_item(KindView::Str)]);
                }
                let items = vec![
                    sig_item("format", SigKind::CompileTimeStr),
                    sig_item("args", SigKind::Variadic),
                    sig_item("ok", ok),
                ];
                proof {
                    assert(items_view(items@) =~= builtin_signature(self).items);
                }
                sig_from_items(items)
            },
        }
    }

    /// Builtins that call into the C library (or exit).
    pub fn is_call(self) -> (r: bool)
        ensures
            r == (self is Printf || self is Sprintf || self is Write || self is Exit),
    {
        matches!(self, Builtin::Printf | Builtin::Sprintf | Builtin::Write | Builtin::Exit)
    }

    /// Builtins that branch to one of two continuations.
    pub fn is_conditional(self) -> (r: bool)
        ensures
            r == (self is Eq || self is Eqi || self is Eqs),
    {
        matches!(self, Builtin::Eq | Builtin::Eqi | Builtin::Eqs)
    }

    /// Builtins that are a single machine operation.
    pub fn is_instruction(self) -> (r: bool)
        ensures
            r == (self is Add || self is Sub || self is Mul || self is Div || self is AddF64
                || self is MulF64 || self is DivF64 || self is Lt || self is Gt),
    {
        matches!(
            self,
            Builtin::Add | Builtin::Sub | Builtin::Mul | Builtin::Div | Builtin::AddF64
                | Builtin::MulF64 | Builtin::DivF64 | Builtin::Lt | Builtin::Gt
        )
    }

    pub fn is_libc_call(self) -> (r: bool)
        ensures
            r == (self is Printf || self is Sprintf || self is Write || self is Exit),
    {
        matches!(self, Builtin::Printf | Builtin::Sprintf | Builtin::Write | Builtin::Exit)
    }
}

/// What `@name` refers to: a builtin function (with its signature) or a builtin type.
pub fn get_spec(name: &str) -> (r: Option<BuiltinSpec>)
    ensures
        match builtin_named(name@) {
            Some(b) => r matches Some(BuiltinSpec::Function(s)) && s@ == builtin_signature(b),
            None => match builtin_type_named(name@) {
                Some(k) => r matches Some(BuiltinSpec::Type(t)) && t@ == k,
                None => r is None,
            },
        },
{
    if let Some(builtin) = Builtin::from_name(name) {
        return Some(BuiltinSpec::Function(builtin.signature()));
    }
    if str_eq(name, "byte") {
        Some(BuiltinSpec::Type(SigKind::Byte))
    } else if str_eq(name, "int") {
        Some(BuiltinSpec::Type(SigKind::Int))
    } else if str_eq(name, "str") {
        Some(BuiltinSpec::Type(SigKind::Str))
    } else if str_eq(name, "f64") {
        Some(BuiltinSpec::Type(SigKind::F64))
    } else {
        None
    }
}

fn sig_item(name: &str, kind: SigKind) -> (r: SigItem)
    ensures
        r@ == named(name@, kind@),
{
    SigItem { name: name.to_string(), kind, has_bang: false }
}

fn tuple_sig(items: Vec<SigItem>) -> (k: SigKind)
    ensures
        k@ == tuple_of(items_view(items@)),
{
    SigKind::Sig(sig_from_items(items))
}

fn sig_from_items(items: Vec<SigItem>) -> (s: Signature)
    ensures
        s@ == (SigView { items: items_view(items@), generics: seq![] }),
{
    let s = Signature { items, generics: Vec::new() };
    proof {
        crate::compiler::hir_ast::lemma_view_sig(s);
        assert(s@.items =~= items_view(items@));
        assert(s@.generics =~= seq![]);
    }
    s
}

/// The tuple with no parameters.
fn empty_tuple() -> (k: SigKind)
    ensures
        k@ == tuple_of(seq![]),
{
    let kinds: Vec<SigKind> = Vec::new();
    proof {
        assert(kinds_view(kinds@).map_values(|kv: KindView| anonymous_item(kv)) =~= Seq::<ItemView>::empty());
    }
    SigKind::tuple(kinds)
}

fn comparison_sig(arg_kind: SigKind) -> (s: Signature)
    ensures
        s@ == comparison_view(arg_kind@),
{
    let left = crate::compiler::hir_ast::clone_kind(&arg_kind);
    let ok = empty_tuple();
    let err = empty_tuple();
    let items = vec![sig_item("left", left), sig_item("right", arg_kind), sig_item("ok", ok), sig_item("err", err)];
    proof {
        assert(items_view(items@) =~= comparison_view(arg_kind@).items);
    }
    sig_from_items(items)
}

fn div_sig() -> (s: Signature)
    ensures
        s@ == div_view(),
{
    let err_items = vec![sig_item("res", SigKind::Int)];
    let ok_items = vec![sig_item("res", SigKind::Int)];
    proof {
        assert(items_view(err_items@) =~= seq![named("res"@, KindView::Int)]);
        assert(items_view(ok_items@) =~= seq![named("res"@, KindView::Int)]);
    }
    let err_sig = tuple_sig(err_items);
    let ok_sig = tuple_sig(ok_items);
    let items = vec![
        sig_item("x", SigKind::Int),
        sig_item("y", SigKind::Int),
        sig_item("err", err_sig),
        sig_item("ok", ok_sig),
    ];
    proof {
        assert(items_view(items@) =~= div_view().items);
    }
    sig_from_items(items)
}

fn math_binary_sig(arg_kind: SigKind) -> (s: Signature)
    ensures
        s@ == math_binary_view(arg_kind@),
{
    let res = crate::compiler::hir_ast::clone_kind(&arg_kind);
    let x = crate::compiler::hir_ast::clone_kind(&arg_kind);
    let res_items = vec![sig_item("res", res)];
    proof {
        assert(items_view(res_items@) =~= seq![named("res"@, arg_kind@)]);
    }
    let result_sig = tuple_sig(res_items);
    let items = vec![sig_item("x", x), sig_item("y", arg_kind), sig_item("ok", result_sig)];
    proof {
        assert(items_view(items@) =~= math_binary_view(arg_kind@).items);
    }
    sig_from_items(items)
}

#[derive(Clone, Copy, Debug, PartialEq, Eq, Hash, Structural)]
pub enum AirRuntimeHelper {
    ReleaseHeapPtr,
    DeepCopyHeapPtr,
    MemcpyHelper,
}

pub open spec fn runtime_helper_name(h: AirRuntimeHelper) -> Seq<char> {
    match h {
        AirRuntimeHelper::ReleaseHeapPtr => "release_heap_ptr"@,
        AirRuntimeHelper::DeepCopyHeapPtr => "deepcopy_heap_ptr"@,
        AirRuntimeHelper::MemcpyHelper => "memcpy_helper"@,
    }
}

impl AirRuntimeHelper {
    pub fn name(&self) -> (s: &'static str)
        ensures
            s@ == runtime_helper_name(*self),
    {
        match self {
            AirRuntimeHelper::ReleaseHeapPtr => "release_heap_ptr",
            AirRuntimeHelper::DeepCopyHeapPtr => "deepcopy_heap_ptr",
            AirRuntimeHelper::MemcpyHelper => "memcpy_helper",
        }
    }
}

} // verus!
