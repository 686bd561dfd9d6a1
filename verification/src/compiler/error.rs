use vstd::prelude::*;

use crate::compiler::span::Span;
use crate::text::{concat, push_char, push_str, usize_to_string, decimal_text};

verus! {

/// The compiler stage that reported an error.
#[derive(Debug, Copy, Clone, PartialEq, Eq, Structural)]
pub enum Code {
    Io,
    Lex,
    Parse,
    HIR,
    Resolve,
    Codegen,
    Internal,
}

/// The lower-case name under which a code is shown.
pub open spec fn code_name(code: Code) -> Seq<char> {
    match code {
        Code::Io => "io"@,
        Code::Lex => "lex"@,
        Code::Parse => "parse"@,
        Code::HIR => "hir"@,
        Code::Resolve => "resolve"@,
        Code::Codegen => "codegen"@,
        Code::Internal => "internal"@,
    }
}

impl Code {
    /// The lower-case name under which this code is shown.
    pub fn name(self) -> (s: &'static str)
        ensures
            s@ == code_name(self),
    {
        match self {
            Code::Io => "io",
            Code::Lex => "lex",
            Code::Parse => "parse",
            Code::HIR => "hir",
            Code::Resolve => "resolve",
            Code::Codegen => "codegen",
            Code::Internal => "internal",
        }
    }
}

/// A compiler diagnostic: which stage, what went wrong, and where.
#[derive(Debug, Clone)]
pub struct Error {
    pub code: Code,
    pub message: String,
    pub span: Span,
}

/// How an error is shown: `[code] message at line:column`.
pub open spec fn error_text(code: Code, message: Seq<char>, span: Span) -> Seq<char> {
    seq!['['] + code_name(code) + "] "@ + message + " at "@ + decimal_text(span.line as nat)
        + seq![':'] + decimal_text(span.column as nat)
}

impl Error {
    /// A copy of the error.
    pub fn duplicate(&self) -> (e: Error)
        ensures
            e.code == self.code,
            e.message@ == self.message@,
            e.span == self.span,
    {
        Error { code: self.code, message: self.message.clone(), span: self.span }
    }

    pub fn new(code: Code, message: String, span: Span) -> (e: Self)
        ensures
            e.code == code,
            e.message@ == message@,
            e.span == span,
    {
        Error { code, message, span }
    }

    /// The error as shown to a user: `[code] message at line:column`.
    pub fn to_string(&self) -> (s: String)
        ensures
            s@ == error_text(self.code, self.message@, self.span),
    {
        let mut s = String::new();
        push_char(&mut s, '[');
        push_str(&mut s, self.code.name());
        push_str(&mut s, "] ");
        push_str(&mut s, self.message.as_str());
        push_str(&mut s, " at ");
        let line = usize_to_string(self.span.line);
        push_str(&mut s, line.as_str());
        push_char(&mut s, ':');
        let column = usize_to_string(self.span.column);
        push_str(&mut s, column.as_str());
        s
    }
}

/// Builds an error; the same as `Error::new`.
pub fn new(code: Code, message: String, span: Span) -> (e: Error)
    ensures
        e.code == code,
        e.message@ == message@,
        e.span == span,
{
    Error { code, message, span }
}

/// Builds an error whose message is the given text.
pub fn error_from_str(code: Code, message: &str, span: Span) -> (e: Error)
    ensures
        e.code == code,
        e.message@ == message@,
        e.span == span,
{
    Error { code, message: message.to_string(), span }
}

} // verus!
