//! A small structured model of assembly: functions as a labelled block of literal
//! bindings, invocations and heap allocations, and the text that describes them.

use vstd::prelude::*;

use crate::compiler::format_hir::join_names;
use crate::compiler::hir_ast::names_view;
use crate::joined_parts;
use crate::text::{i64_to_string, int_text, push_str, quote_source_string, source_quoted, usize_to_string};

verus! {

/// A module: its functions in order.
pub struct AsmModule {
    pub functions: Vec<AsmFunction>,
}

impl AsmModule {
    /// The module of `functions`.
    pub fn new(functions: Vec<AsmFunction>) -> (r: Self)
        ensures
            r.functions == functions,
    {
        AsmModule { functions }
    }
}

impl Default for AsmModule {
    fn default() -> (r: Self)
        ensures
            r.functions@.len() == 0,
    {
        AsmModule::new(Vec::new())
    }
}

/// A function: its name, its parameter names and its block.
#[derive(Clone, Debug)]
pub struct AsmFunction {
    pub name: String,
    pub params: Vec<String>,
    pub block: AsmBlock,
}

impl AsmFunction {
    /// The function `name` whose block, labelled with the name, holds `statements`.
    pub fn new(name: String, params: Vec<String>, statements: Vec<AsmStatement>) -> (r: Self)
        ensures
            r.name == name,
            r.params == params,
            r.block.label@ == name@,
            r.block.statements == statements,
    {
        let block = AsmBlock { label: name.clone(), statements };
        AsmFunction { name, params, block }
    }
}

/// A labelled sequence of statements.
#[derive(Clone, Debug)]
pub struct AsmBlock {
    pub label: String,
    pub statements: Vec<AsmStatement>,
}

/// A statement of the model.
#[derive(Clone, Debug)]
pub enum AsmStatement {
    Literal { target: String, value: AsmLiteral },
    Invocation { target: Option<String>, callee: String, args: Vec<String>, tail: bool },
    HeapAlloc { size: usize, prot: i32, flags: i32, fd: i32, offset: i32 },
}

/// A literal value.
#[derive(Clone, Debug)]
pub enum AsmLiteral {
    Int(i64),
    Str(String),
}

/// A literal as written: an integer in decimal, a string double-quoted with `\`, `"`,
/// newline, carriage return and tab escaped.
pub open spec fn asm_literal_text(l: AsmLiteral) -> Seq<char> {
    match l {
        AsmLiteral::Int(v) => int_text(v as int),
        AsmLiteral::Str(s) => source_quoted(s@),
    }
}

/// A statement as written: `target = value`, `[target = ]callee(args)`, or the
/// parameters of the allocation.
pub open spec fn asm_statement_text(s: AsmStatement) -> Seq<char> {
    match s {
        AsmStatement::Literal { target, value } => target@ + " = "@ + asm_literal_text(value),
        AsmStatement::Invocation { target, callee, args, tail } => {
            let call = callee@ + "("@ + joined_parts(names_view(args@)) + ")"@;
            match target {
                Some(t) => t@ + " = "@ + call,
                None => call,
            }
        },
        AsmStatement::HeapAlloc { size, prot, flags, fd, offset } => "heap_alloc mmap(size="@ + int_text(size as int)
            + ", prot="@ + int_text(prot as int) + ", flags="@ + int_text(flags as int) + ", fd="@ + int_text(fd as int)
            + ", offset="@ + int_text(offset as int) + ")"@,
    }
}

/// The statements of a block, each on a line of its own, indented.
pub open spec fn asm_statement_lines(stmts: Seq<AsmStatement>) -> Seq<char>
    decreases stmts.len(),
{
    if stmts.len() == 0 {
        seq![]
    } else {
        asm_statement_lines(stmts.drop_last()) + "    "@ + asm_statement_text(stmts.last()) + "\n"@
    }
}

/// A function as written: `label(params) {`, its statements, `}`.
pub open spec fn asm_function_text(f: AsmFunction) -> Seq<char> {
    f.block.label@ + "("@ + joined_parts(names_view(f.params@)) + ") {\n"@ + asm_statement_lines(f.block.statements@) + "}\n"@
}

/// The functions of a module, each followed by a newline, with an empty line between
/// two of them.
pub open spec fn asm_module_text(fs: Seq<AsmFunction>) -> Seq<char>
    decreases fs.len(),
{
    if fs.len() == 0 {
        seq![]
    } else if fs.len() == 1 {
        asm_function_text(fs[0]) + "\n"@
    } else {
        asm_module_text(fs.drop_last()) + "\n"@ + asm_function_text(fs.last()) + "\n"@
    }
}

impl AsmLiteral {
    /// The literal as written (see `asm_literal_text`).
    pub fn to_text(&self) -> (r: String)
        ensures
            r@ == asm_literal_text(*self),
    {
        match self {
            AsmLiteral::Int(v) => i64_to_string(*v),
            AsmLiteral::Str(s) => quote_source_string(s.as_str()),
        }
    }
}

impl AsmStatement {
    /// The statement as written (see `asm_statement_text`).
    pub fn to_text(&self) -> (r: String)
        ensures
            r@ == asm_statement_text(*self),
    {
        match self {
            AsmStatement::Literal { target, value } => {
                let mut out = target.clone();
                push_str(&mut out, " = ");
                let v = value.to_text();
                push_str(&mut out, v.as_str());
                out
            },
            AsmStatement::Invocation { target, callee, args, tail: _ } => {
                let mut call = callee.clone();
                push_str(&mut call, "(");
                let joined = join_names(args);
                push_str(&mut call, joined.as_str());
                push_str(&mut call, ")");
                match target {
                    Some(t) => {
                        let mut out = t.clone();
                        push_str(&mut out, " = ");
                        push_str(&mut out, call.as_str());
                        out
                    },
                    None => call,
                }
            },
            AsmStatement::HeapAlloc { size, prot, flags, fd, offset } => {
                let mut out = "heap_alloc mmap(size=".to_string();
                push_str(&mut out, usize_to_string(*size).as_str());
                push_str(&mut out, ", prot=");
                push_str(&mut out, i64_to_string(*prot as i64).as_str());
                push_str(&mut out, ", flags=");
                push_str(&mut out, i64_to_string(*flags as i64).as_str());
                push_str(&mut out, ", fd=");
                push_str(&mut out, i64_to_string(*fd as i64).as_str());
                push_str(&mut out, ", offset=");
                push_str(&mut out, i64_to_string(*offset as i64).as_str());
                push_str(&mut out, ")");
                out
            },
        }
    }
}

impl AsmFunction {
    /// The function as written (see `asm_function_text`).
    pub fn to_text(&self) -> (r: String)
        ensures
            r@ == asm_function_text(*self),
    {
        let mut out = self.block.label.clone();
        push_str(&mut out, "(");
        let joined = join_names(&self.params);
        push_str(&mut out, joined.as_str());
        push_str(&mut out, ") {\n");
        let ghost head = out@;
        let stmts = &self.block.statements;
        let mut i: usize = 0;
        proof {
            assert(stmts@.take(0) =~= Seq::<AsmStatement>::empty());
            assert(out@ =~= head + asm_statement_lines(stmts@.take(0)));
        }
        while i < stmts.len()
            invariant
                i <= stmts@.len(),
                out@ == head + asm_statement_lines(stmts@.take(i as int)),
            decreases stmts@.len() - i,
        {
            push_str(&mut out, "    ");
            let t = stmts[i].to_text();
            push_str(&mut out, t.as_str());
            push_str(&mut out, "\n");
            proof {
                assert(stmts@.take(i + 1).drop_last() =~= stmts@.take(i as int));
                assert(out@ =~= head + asm_statement_lines(stmts@.take(i + 1)));
            }
            i = i + 1;
        }
        push_str(&mut out, "}\n");
        proof {
            assert(stmts@.take(stmts@.len() as int) =~= stmts@);
            assert(out@ =~= asm_function_text(*self));
        }
        out
    }
}

impl AsmModule {
    /// The module as written (see `asm_module_text`).
    pub fn to_text(&self) -> (r: String)
        ensures
            r@ == asm_module_text(self.functions@),
    {
        let fs = &self.functions;
        let mut out = String::new();
        let mut i: usize = 0;
        proof {
            assert(fs@.take(0) =~= Seq::<AsmFunction>::empty());
        }
        while i < fs.len()
            invariant
                i <= fs@.len(),
                out@ == asm_module_text(fs@.take(i as int)),
            decreases fs@.len() - i,
        {
            let t = fs[i].to_text();
            if i > 0 {
                push_str(&mut out, "\n");
            }
            push_str(&mut out, t.as_str());
            push_str(&mut out, "\n");
            proof {
                assert(fs@.take(i + 1).drop_last() =~= fs@.take(i as int));
                if i == 0 {
                    assert(fs@.take(1)[0] == fs@[0]);
                }
                assert(out@ =~= asm_module_text(fs@.take(i + 1)));
            }
            i = i + 1;
        }
        proof {
            assert(fs@.take(fs@.len() as int) =~= fs@);
        }
        out
    }
}

} // verus!
