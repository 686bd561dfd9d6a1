use vstd::prelude::*;

use crate::compiler::span::Span;
use crate::text::{concat, debug_quoted, debug_string, i64_to_string, int_text};

verus! {

/// A lexical token and where it starts.
#[derive(Debug, Clone, PartialEq)]
pub struct Token {
    pub kind: TokenKind,
    pub span: Span,
}

impl Token {
    /// A copy of the token.
    pub fn duplicate(&self) -> (t: Token)
        ensures
            t.kind@ == self.kind@,
            t.span == self.span,
    {
        Token { kind: self.kind.duplicate(), span: self.span }
    }

    pub fn new(kind: TokenKind, span: Span) -> (t: Self)
        ensures
            t.kind == kind,
            t.span == span,
    {
        Token { kind, span }
    }
}

#[derive(Debug, Clone, PartialEq)]
pub enum TokenKind {
    Eof,
    Ident(String),
    Import(String),
    IntLiteral(i64),
    StringLiteral(String),
    Arrow,
    FatArrow,
    Comma,
    Colon,
    Semicolon,
    Ellipsis,
    Dot,
    LParen,
    RParen,
    LBrace,
    RBrace,
    LBracket,
    RBracket,
    Equals,
    Plus,
    Minus,
    Star,
    Slash,
    Bang,
    Newline,
    Question,
    AngleOpen,
    AngleClose,
}

impl TokenKind {
    /// A copy of the token kind.
    pub fn duplicate(&self) -> (k: TokenKind)
        ensures
            k@ == self@,
    {
        match self {
            TokenKind::Eof => TokenKind::Eof,
            TokenKind::Ident(s) => TokenKind::Ident(s.clone()),
            TokenKind::Import(s) => TokenKind::Import(s.clone()),
            TokenKind::IntLiteral(v) => TokenKind::IntLiteral(*v),
            TokenKind::StringLiteral(s) => TokenKind::StringLiteral(s.clone()),
            TokenKind::Arrow => TokenKind::Arrow,
            TokenKind::FatArrow => TokenKind::FatArrow,
            TokenKind::Comma => TokenKind::Comma,
            TokenKind::Colon => TokenKind::Colon,
            TokenKind::Semicolon => TokenKind::Semicolon,
            TokenKind::Ellipsis => TokenKind::Ellipsis,
            TokenKind::Dot => TokenKind::Dot,
            TokenKind::LParen => TokenKind::LParen,
            TokenKind::RParen => TokenKind::RParen,
            TokenKind::LBrace => TokenKind::LBrace,
            TokenKind::RBrace => TokenKind::RBrace,
            TokenKind::LBracket => TokenKind::LBracket,
            TokenKind::RBracket => TokenKind::RBracket,
            TokenKind::Equals => TokenKind::Equals,
            TokenKind::Plus => TokenKind::Plus,
            TokenKind::Minus => TokenKind::Minus,
            TokenKind::Star => TokenKind::Star,
            TokenKind::Slash => TokenKind::Slash,
            TokenKind::Bang => TokenKind::Bang,
            TokenKind::Newline => TokenKind::Newline,
            TokenKind::Question => TokenKind::Question,
            TokenKind::AngleOpen => TokenKind::AngleOpen,
            TokenKind::AngleClose => TokenKind::AngleClose,
        }
    }

    /// Whether two kinds are the same variant (the text inside is not compared).
    pub fn same_variant(&self, other: &TokenKind) -> (r: bool)
        ensures
            r == same_variant(self@, other@),
    {
        match (self, other) {
            (TokenKind::Eof, TokenKind::Eof) => true,
            (TokenKind::Ident(_), TokenKind::Ident(_)) => true,
            (TokenKind::Import(_), TokenKind::Import(_)) => true,
            (TokenKind::IntLiteral(_), TokenKind::IntLiteral(_)) => true,
            (TokenKind::StringLiteral(_), TokenKind::StringLiteral(_)) => true,
            (TokenKind::Arrow, TokenKind::Arrow) => true,
            (TokenKind::FatArrow, TokenKind::FatArrow) => true,
            (TokenKind::Comma, TokenKind::Comma) => true,
            (TokenKind::Colon, TokenKind::Colon) => true,
            (TokenKind::Semicolon, TokenKind::Semicolon) => true,
            (TokenKind::Ellipsis, TokenKind::Ellipsis) => true,
            (TokenKind::Dot, TokenKind::Dot) => true,
            (TokenKind::LParen, TokenKind::LParen) => true,
            (TokenKind::RParen, TokenKind::RParen) => true,
            (TokenKind::LBrace, TokenKind::LBrace) => true,
            (TokenKind::RBrace, TokenKind::RBrace) => true,
            (TokenKind::LBracket, TokenKind::LBracket) => true,
            (TokenKind::RBracket, TokenKind::RBracket) => true,
            (TokenKind::Equals, TokenKind::Equals) => true,
            (TokenKind::Plus, TokenKind::Plus) => true,
            (TokenKind::Minus, TokenKind::Minus) => true,
            (TokenKind::Star, TokenKind::Star) => true,
            (TokenKind::Slash, TokenKind::Slash) => true,
            (TokenKind::Bang, TokenKind::Bang) => true,
            (TokenKind::Newline, TokenKind::Newline) => true,
            (TokenKind::Question, TokenKind::Question) => true,
            (TokenKind::AngleOpen, TokenKind::AngleOpen) => true,
            (TokenKind::AngleClose, TokenKind::AngleClose) => true,
            _ => false,
        }
    }
}

/// Whether two kinds are the same variant (the text inside is not compared).
pub open spec fn same_variant(a: SpecTokenKind, b: SpecTokenKind) -> bool {
    match (a, b) {
        (SpecTokenKind::Ident(_), SpecTokenKind::Ident(_)) => true,
        (SpecTokenKind::Import(_), SpecTokenKind::Import(_)) => true,
        (SpecTokenKind::IntLiteral(_), SpecTokenKind::IntLiteral(_)) => true,
        (SpecTokenKind::StringLiteral(_), SpecTokenKind::StringLiteral(_)) => true,
        _ => a == b,
    }
}

/// The text that `{:?}` gives for a token kind, as in `Ident("foo")`.
pub open spec fn kind_debug(k: SpecTokenKind) -> Seq<char> {
    match k {
        SpecTokenKind::Eof => "Eof"@,
        SpecTokenKind::Ident(s) => "Ident("@ + debug_quoted(s) + ")"@,
        SpecTokenKind::Import(s) => "Import("@ + debug_quoted(s) + ")"@,
        SpecTokenKind::IntLiteral(v) => "IntLiteral("@ + int_text(v) + ")"@,
        SpecTokenKind::StringLiteral(s) => "StringLiteral("@ + debug_quoted(s) + ")"@,
        SpecTokenKind::Arrow => "Arrow"@,
        SpecTokenKind::FatArrow => "FatArrow"@,
        SpecTokenKind::Comma => "Comma"@,
        SpecTokenKind::Colon => "Colon"@,
        SpecTokenKind::Semicolon => "Semicolon"@,
        SpecTokenKind::Ellipsis => "Ellipsis"@,
        SpecTokenKind::Dot => "Dot"@,
        SpecTokenKind::LParen => "LParen"@,
        SpecTokenKind::RParen => "RParen"@,
        SpecTokenKind::LBrace => "LBrace"@,
        SpecTokenKind::RBrace => "RBrace"@,
        SpecTokenKind::LBracket => "LBracket"@,
        SpecTokenKind::RBracket => "RBracket"@,
        SpecTokenKind::Equals => "Equals"@,
        SpecTokenKind::Plus => "Plus"@,
        SpecTokenKind::Minus => "Minus"@,
        SpecTokenKind::Star => "Star"@,
        SpecTokenKind::Slash => "Slash"@,
        SpecTokenKind::Bang => "Bang"@,
        SpecTokenKind::Newline => "Newline"@,
        SpecTokenKind::Question => "Question"@,
        SpecTokenKind::AngleOpen => "AngleOpen"@,
        SpecTokenKind::AngleClose => "AngleClose"@,
    }
}

impl TokenKind {
    /// The text that `{:?}` gives for this kind.
    pub fn debug_text(&self) -> (r: String)
        ensures
            r@ == kind_debug(self@),
    {
        match self {
            TokenKind::Eof => "Eof".to_string(),
            TokenKind::Ident(s) => Self::wrapped("Ident(", debug_string(s.as_str())),
            TokenKind::Import(s) => Self::wrapped("Import(", debug_string(s.as_str())),
            TokenKind::IntLiteral(v) => Self::wrapped("IntLiteral(", i64_to_string(*v)),
            TokenKind::StringLiteral(s) => Self::wrapped("StringLiteral(", debug_string(s.as_str())),
            TokenKind::Arrow => "Arrow".to_string(),
            TokenKind::FatArrow => "FatArrow".to_string(),
            TokenKind::Comma => "Comma".to_string(),
            TokenKind::Colon => "Colon".to_string(),
            TokenKind::Semicolon => "Semicolon".to_string(),
            TokenKind::Ellipsis => "Ellipsis".to_string(),
            TokenKind::Dot => "Dot".to_string(),
            TokenKind::LParen => "LParen".to_string(),
            TokenKind::RParen => "RParen".to_string(),
            TokenKind::LBrace => "LBrace".to_string(),
            TokenKind::RBrace => "RBrace".to_string(),
            TokenKind::LBracket => "LBracket".to_string(),
            TokenKind::RBracket => "RBracket".to_string(),
            TokenKind::Equals => "Equals".to_string(),
            TokenKind::Plus => "Plus".to_string(),
            TokenKind::Minus => "Minus".to_string(),
            TokenKind::Star => "Star".to_string(),
            TokenKind::Slash => "Slash".to_string(),
            TokenKind::Bang => "Bang".to_string(),
            TokenKind::Newline => "Newline".to_string(),
            TokenKind::Question => "Question".to_string(),
            TokenKind::AngleOpen => "AngleOpen".to_string(),
            TokenKind::AngleClose => "AngleClose".to_string(),
        }
    }

    fn wrapped(prefix: &str, inner: String) -> (r: String)
        ensures
            r@ == prefix@ + inner@ + ")"@,
    {
        let mut r = concat(prefix, inner.as_str());
        r.append(")");
        r
    }
}

/// A token kind with its text as a sequence of characters.
pub enum SpecTokenKind {
    Eof,
    Ident(Seq<char>),
    Import(Seq<char>),
    IntLiteral(int),
    StringLiteral(Seq<char>),
    Arrow,
    FatArrow,
    Comma,
    Colon,
    Semicolon,
    Ellipsis,
    Dot,
    LParen,
    RParen,
    LBrace,
    RBrace,
    LBracket,
    RBracket,
    Equals,
    Plus,
    Minus,
    Star,
    Slash,
    Bang,
    Newline,
    Question,
    AngleOpen,
    AngleClose,
}

impl View for TokenKind {
    type V = SpecTokenKind;

    open spec fn view(&self) -> SpecTokenKind {
        match self {
            TokenKind::Eof => SpecTokenKind::Eof,
            TokenKind::Ident(s) => SpecTokenKind::Ident(s@),
            TokenKind::Import(s) => SpecTokenKind::Import(s@),
            TokenKind::IntLiteral(v) => SpecTokenKind::IntLiteral(*v as int),
            TokenKind::StringLiteral(s) => SpecTokenKind::StringLiteral(s@),
            TokenKind::Arrow => SpecTokenKind::Arrow,
            TokenKind::FatArrow => SpecTokenKind::FatArrow,
            TokenKind::Comma => SpecTokenKind::Comma,
            TokenKind::Colon => SpecTokenKind::Colon,
            TokenKind::Semicolon => SpecTokenKind::Semicolon,
            TokenKind::Ellipsis => SpecTokenKind::Ellipsis,
            TokenKind::Dot => SpecTokenKind::Dot,
            TokenKind::LParen => SpecTokenKind::LParen,
            TokenKind::RParen => SpecTokenKind::RParen,
            TokenKind::LBrace => SpecTokenKind::LBrace,
            TokenKind::RBrace => SpecTokenKind::RBrace,
            TokenKind::LBracket => SpecTokenKind::LBracket,
            TokenKind::RBracket => SpecTokenKind::RBracket,
            TokenKind::Equals => SpecTokenKind::Equals,
            TokenKind::Plus => SpecTokenKind::Plus,
            TokenKind::Minus => SpecTokenKind::Minus,
            TokenKind::Star => SpecTokenKind::Star,
            TokenKind::Slash => SpecTokenKind::Slash,
            TokenKind::Bang => SpecTokenKind::Bang,
            TokenKind::Newline => SpecTokenKind::Newline,
            TokenKind::Question => SpecTokenKind::Question,
            TokenKind::AngleOpen => SpecTokenKind::AngleOpen,
            TokenKind::AngleClose => SpecTokenKind::AngleClose,
        }
    }
}

} // verus!
