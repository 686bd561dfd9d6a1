//! The assembly-level intermediate representation: functions as flat lists of labels
//! and operations on named machine words.

use vstd::prelude::*;

use crate::compiler::builtins::Builtin;
use crate::compiler::hir_ast::{
    clone_item, clone_kind, clone_names, items_view, kinds_view, names_view, ItemView, KindView,
    Lit, LitView, SigItem, SigKind,
};

verus! {

/// The signature of a callable: its name, parameters and generic parameters, and the
/// builtin it stands for, if any.
#[derive(Debug)]
pub struct FunctionSig {
    pub name: String,
    pub params: Vec<SigItem>,
    pub generics: Vec<String>,
    pub builtin: Option<Builtin>,
}

#[verifier::ext_equal]
pub struct FunctionSigView {
    pub name: Seq<char>,
    pub params: Seq<ItemView>,
    pub generics: Seq<Seq<char>>,
    pub builtin: Option<Builtin>,
}

impl View for FunctionSig {
    type V = FunctionSigView;

    open spec fn view(&self) -> FunctionSigView {
        FunctionSigView {
            name: self.name@,
            params: items_view(self.params@),
            generics: names_view(self.generics@),
            builtin: self.builtin,
        }
    }
}

/// A copy of the signature, with the same view.
pub fn clone_function_sig(sig: &FunctionSig) -> (r: FunctionSig)
    ensures
        r@ == sig@,
{
    let mut params: Vec<SigItem> = Vec::new();
    let mut i: usize = 0;
    while i < sig.params.len()
        invariant
            i <= sig.params@.len(),
            params@.len() == i,
            forall|j: int| 0 <= j < i ==> (#[trigger] params@[j])@ == sig.params@[j]@,
        decreases sig.params@.len() - i,
    {
        params.push(clone_item(&sig.params[i]));
        i = i + 1;
    }
    assert(items_view(params@) =~= items_view(sig.params@));
    FunctionSig { name: sig.name.clone(), params, generics: clone_names(&sig.generics), builtin: sig.builtin }
}

impl FunctionSig {
    /// The kinds of the parameters, in order.
    pub fn param_kinds(&self) -> (r: Vec<SigKind>)
        ensures
            kinds_view(r@) == self@.params.map_values(|p: ItemView| p.kind),
    {
        let mut out: Vec<SigKind> = Vec::new();
        let mut i: usize = 0;
        while i < self.params.len()
            invariant
                i <= self.params@.len(),
                out@.len() == i,
                forall|j: int| 0 <= j < i ==> (#[trigger] out@[j])@ == self.params@[j].kind@,
            decreases self.params@.len() - i,
        {
            out.push(clone_kind(&self.params[i].kind));
            i = i + 1;
        }
        assert(kinds_view(out@) =~= self@.params.map_values(|p: ItemView| p.kind));
        out
    }

    /// Whether a parameter is variadic.
    pub fn is_variadic(&self) -> (r: bool)
        ensures
            r == exists|j: int| 0 <= j < self.params@.len() && (#[trigger] self.params@[j]).kind is Variadic,
    {
        let mut i: usize = 0;
        while i < self.params.len()
            invariant
                i <= self.params@.len(),
                forall|j: int| 0 <= j < i ==> !((#[trigger] self.params@[j]).kind is Variadic),
            decreases self.params@.len() - i,
        {
            if matches!(self.params[i].kind, SigKind::Variadic) {
                return true;
            }
            i = i + 1;
        }
        false
    }
}

/// What a jump goes to: a function with a known signature, or a closure value.
#[derive(Debug)]
pub enum AirExecTarget {
    Function(FunctionSig),
    Closure { name: String },
}

#[derive(Debug)]
pub struct AirFunction {
    pub sig: FunctionSig,
    pub items: Vec<AirStmt>,
}

impl AirFunction {
    /// The runtime helper that selects an element of a string array.
    pub fn builtin_internal_array_str_nth() -> (r: Self)
        ensures
            r.sig.name@ == "internal_array_str_nth"@,
            r.sig.params@.len() == 0,
            r.sig.generics@.len() == 0,
            r.sig.builtin is None,
            r.items@.len() == 0,
    {
        AirFunction {
            sig: FunctionSig {
                name: "internal_array_str_nth".to_string(),
                params: Vec::new(),
                generics: Vec::new(),
                builtin: None,
            },
            items: Vec::new(),
        }
    }

    /// The runtime helper that builds a string array.
    pub fn builtin_internal_array_str() -> (r: Self)
        ensures
            r.sig.name@ == "internal_array_str"@,
            r.sig.params@.len() == 0,
            r.sig.generics@.len() == 0,
            r.sig.builtin is None,
            r.items@.len() == 0,
    {
        AirFunction {
            sig: FunctionSig {
                name: "internal_array_str".to_string(),
                params: Vec::new(),
                generics: Vec::new(),
                builtin: None,
            },
            items: Vec::new(),
        }
    }
}

#[derive(Debug)]
pub struct AirReleaseHeap {
    pub name: String,
}

#[derive(Debug)]
pub struct AirLabel {
    pub name: String,
}

#[derive(Debug)]
pub struct AirJump {
    pub target: String,
}

/// An operand: a binding's value or an integer literal.
#[derive(Debug)]
pub enum AirValue {
    Binding(String),
    Literal(i64),
}

#[derive(Debug)]
pub struct AirReturn {
    pub value: Option<String>,
}

#[derive(Debug)]
pub struct AirPin {
    pub result: String,
    pub value: AirValue,
}

#[derive(Debug)]
pub struct AirJumpEq {
    pub args: Vec<AirArg>,
    pub target: String,
}

#[derive(Debug)]
pub struct AirJumpLt {
    pub left: AirValue,
    pub right: AirValue,
    pub target: String,
}

#[derive(Debug)]
pub struct AirSetField {
    pub env_end: String,
    pub offset: isize,
    pub value: AirArg,
}

#[derive(Debug)]
pub struct AirJumpClosure {
    pub env_end: String,
    pub args: Vec<AirArg>,
}

#[derive(Debug)]
pub enum AirStmt {
    Op(Box<AirOp>),
    Label(AirLabel),
}

impl AirStmt {
    pub fn op(op: AirOp) -> (r: Self)
        ensures
            r == AirStmt::Op(Box::new(op)),
    {
        AirStmt::Op(Box::new(op))
    }

    /// The operation, unless this is a label.
    pub fn as_op(&self) -> (r: Option<&AirOp>)
        ensures
            match self {
                AirStmt::Op(op) => r == Some(&**op),
                AirStmt::Label(_) => r is None,
            },
    {
        match self {
            AirStmt::Op(op) => Some(&**op),
            AirStmt::Label(_) => None,
        }
    }
}

#[derive(Debug)]
pub enum AirOp {
    Return(AirReturn),
    Jump(AirJump),
    JumpArgs(AirJumpArgs),
    JumpClosure(AirJumpClosure),
    JumpEqInt(AirJumpEq),
    JumpEqStr(AirJumpEq),
    JumpLt(AirJumpLt),
    JumpGt(AirJumpGt),
    Add(AirAdd),
    Sub(AirSub),
    Mul(AirMul),
    DivInt(AirDivInt),
    AddF64(AirAddF64),
    MulF64(AirMulF64),
    DivF64(AirDivF64),
    SysExit(AirSysExit),
    Printf(AirPrintf),
    Sprintf(AirSprintf),
    Write(AirWrite),
    CallPtr(AirCallPtr),
    NewClosure(AirNewClosure),
    CloneClosure(AirCloneClosure),
    ReleaseHeap(AirReleaseHeap),
    Pin(AirPin),
    Field(AirField),
    CopyField(AirField),
    SetField(AirSetField),
}

#[derive(Debug)]
pub struct AirCloneClosure {
    pub src: String,
    pub dst: String,
    pub remaining: Vec<SigKind>,
}

#[derive(Debug)]
pub struct AirField {
    pub result: String,
    pub ptr: String,
    pub offset: isize,
    pub kind: SigKind,
}

#[derive(Debug)]
pub struct AirAdd {
    pub input_a: AirArg,
    pub input_b: AirArg,
    pub target: String,
}

#[derive(Debug)]
pub struct AirSub {
    pub input_a: AirArg,
    pub input_b: AirArg,
    pub target: String,
}

#[derive(Debug)]
pub struct AirMul {
    pub input_a: AirArg,
    pub input_b: AirArg,
    pub target: String,
}

#[derive(Debug)]
pub struct AirDivInt {
    pub input_a: AirArg,
    pub input_b: AirArg,
    pub err_target: String,
    pub ok_target: String,
}

#[derive(Debug)]
pub struct AirAddF64 {
    pub input_a: AirArg,
    pub input_b: AirArg,
    pub target: String,
}

#[derive(Debug)]
pub struct AirMulF64 {
    pub input_a: AirArg,
    pub input_b: AirArg,
    pub target: String,
}

#[derive(Debug)]
pub struct AirDivF64 {
    pub input_a: AirArg,
    pub input_b: AirArg,
    pub target: String,
}

#[derive(Debug)]
pub struct AirJumpGt {
    pub left: AirValue,
    pub right: AirValue,
    pub target: String,
}

#[derive(Debug)]
pub struct AirPrintf {
    pub args: Vec<AirArg>,
    pub arg_kinds: Vec<SigKind>,
    pub target: String,
}

#[derive(Debug)]
pub struct AirSprintf {
    pub args: Vec<AirArg>,
    pub arg_kinds: Vec<SigKind>,
    pub target: String,
}

#[derive(Debug)]
pub struct AirWrite {
    pub args: Vec<AirArg>,
    pub arg_kinds: Vec<SigKind>,
    pub target: String,
}

#[derive(Debug)]
pub struct AirSysExit {
    pub args: Vec<AirArg>,
}

#[derive(Debug)]
pub enum AirCallPtrTarget {
    Binding(String),
}

#[derive(Debug)]
pub struct AirCallPtr {
    pub target: AirCallPtrTarget,
}

#[derive(Debug)]
pub struct AirJumpArgs {
    pub target: FunctionSig,
    pub args: Vec<AirArg>,
}

#[derive(Debug)]
pub struct AirNewClosure {
    pub name: String,
    pub target: FunctionSig,
    pub args: Vec<AirArg>,
}

/// An argument: the binding that holds it, its kind, and its value when it is a
/// literal.
#[derive(Debug)]
pub struct AirArg {
    pub name: String,
    pub kind: SigKind,
    pub literal: Option<Lit>,
}

pub struct ArgView {
    pub name: Seq<char>,
    pub kind: KindView,
    pub literal: Option<LitView>,
}

impl View for AirArg {
    type V = ArgView;

    open spec fn view(&self) -> ArgView {
        ArgView {
            name: self.name@,
            kind: self.kind@,
            literal: match self.literal {
                Some(l) => Some(l@),
                None => None,
            },
        }
    }
}

} // verus!
