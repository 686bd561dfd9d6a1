//! The lexer: turns source bytes into tokens, one at a time.
//!
//! Each byte stands for the character with the same code (so non-ASCII text is read
//! byte by byte); a carriage return, alone or followed by a line feed, reads as one
//! line break. Spaces and `//` comments are skipped; every line break is a `Newline`
//! token.

use vstd::prelude::*;

use crate::compiler::error::{error_from_str, Code, Error};
use crate::compiler::span::Span;
use crate::compiler::token::{SpecTokenKind, Token, TokenKind};
use crate::text::{char_from_u32, decimal_text, digit_char, is_scalar_value, push_char, push_str};

verus! {

// ---------------------------------------------------------------------------
// Byte classes
// ---------------------------------------------------------------------------

/// Whitespace other than a line break (the bytes whose character `char::is_whitespace` accepts).
pub open spec fn is_space(b: u8) -> bool {
    b == 9 || b == 11 || b == 12 || b == 32 || b == 0x85 || b == 0xA0
}

/// A line feed or a carriage return.
pub open spec fn is_line_break(b: u8) -> bool {
    b == 10 || b == 13
}

pub open spec fn is_alpha(b: u8) -> bool {
    (97 <= b <= 122) || (65 <= b <= 90)
}

pub open spec fn is_digit(b: u8) -> bool {
    48 <= b <= 57
}

pub open spec fn is_hex_digit(b: u8) -> bool {
    is_digit(b) || (97 <= b <= 102) || (65 <= b <= 70)
}

/// Letters, digits and `_`: the bytes that continue an identifier.
pub open spec fn is_ident_byte(b: u8) -> bool {
    is_alpha(b) || is_digit(b) || b == 95
}

/// The bytes of an import path after `@`: identifier bytes and `/`.
pub open spec fn is_import_byte(b: u8) -> bool {
    is_ident_byte(b) || b == 47
}

/// The classes of bytes that form a run inside one token.
pub enum ByteClass {
    Ident,
    Import,
    Digit,
    Hex,
    Dot,
}

pub open spec fn in_class(c: ByteClass, b: u8) -> bool {
    match c {
        ByteClass::Ident => is_ident_byte(b),
        ByteClass::Import => is_import_byte(b),
        ByteClass::Digit => is_digit(b),
        ByteClass::Hex => is_hex_digit(b),
        ByteClass::Dot => b == 46,
    }
}

/// The first index at or after `i` whose byte is not in class `c`, or the end of `s`.
pub open spec fn run_end(s: Seq<u8>, i: int, c: ByteClass) -> int
    decreases s.len() - i,
{
    if i >= s.len() || !in_class(c, s[i]) {
        i
    } else {
        run_end(s, i + 1, c)
    }
}

/// The characters that the bytes stand for.
pub open spec fn bytes_text(s: Seq<u8>) -> Seq<char> {
    s.map_values(|b: u8| b as char)
}

/// The number written by a sequence of decimal digits.
pub open spec fn decimal_value(s: Seq<u8>) -> int
    decreases s.len(),
{
    if s.len() == 0 {
        0
    } else {
        decimal_value(s.drop_last()) * 10 + (s.last() - 48)
    }
}

pub open spec fn hex_digit_value(b: u8) -> int {
    if is_digit(b) {
        b - 48
    } else if 97 <= b <= 102 {
        b - 87
    } else {
        b - 55
    }
}

/// The number written by a sequence of hexadecimal digits.
pub open spec fn hex_value(s: Seq<u8>) -> int
    decreases s.len(),
{
    if s.len() == 0 {
        0
    } else {
        hex_value(s.drop_last()) * 16 + hex_digit_value(s.last())
    }
}

// ---------------------------------------------------------------------------
// Positions
// ---------------------------------------------------------------------------

/// Line and column (both from 1) of the byte at offset `pos`.
pub open spec fn location(s: Seq<u8>, pos: int) -> (int, int)
    decreases pos,
{
    if pos <= 0 {
        (1, 1)
    } else {
        let (l, c) = location(s, pos - 1);
        let b = s[pos - 1];
        if b == 10 {
            (l + 1, 1)
        } else if b == 13 {
            if pos < s.len() && s[pos] == 10 {
                (l, c)
            } else {
                (l + 1, 1)
            }
        } else {
            (l, c + 1)
        }
    }
}

/// The span of the byte at offset `pos`.
pub open spec fn span_at(s: Seq<u8>, pos: int) -> Span {
    Span {
        line: location(s, pos).0 as usize,
        column: location(s, pos).1 as usize,
        offset: pos as usize,
    }
}

/// Where the next token starts: after spaces and `//` comments (which end before a line break).
pub open spec fn skip_trivia(s: Seq<u8>, i: int, in_comment: bool) -> int
    decreases s.len() - i,
{
    if i >= s.len() {
        i
    } else if in_comment {
        if is_line_break(s[i]) {
            i
        } else {
            skip_trivia(s, i + 1, true)
        }
    } else if is_space(s[i]) {
        skip_trivia(s, i + 1, false)
    } else if s[i] == 47 && i + 1 < s.len() && s[i + 1] == 47 {
        skip_trivia(s, i + 2, true)
    } else {
        i
    }
}

// ---------------------------------------------------------------------------
// Tokens
// ---------------------------------------------------------------------------

/// What lexing from a token start gives: a token and where it ends, or an error message.
pub enum LexOutcome {
    Token(SpecTokenKind, int),
    Fail(Seq<char>),
}

/// The kinds of the tokens read from offset `p` on, in order: up to and including
/// `Eof`, or up to the first lexing error, which gives no token.
pub open spec fn lex_from(s: Seq<u8>, p: int) -> Seq<SpecTokenKind>
    decreases s.len() - p,
{
    match lex_at(s, skip_trivia(s, p, false)) {
        LexOutcome::Token(k, e) => if k == SpecTokenKind::Eof || e <= p || e > s.len() {
            seq![k]
        } else {
            seq![k] + lex_from(s, e)
        },
        LexOutcome::Fail(_) => Seq::empty(),
    }
}

/// Whether the whole of `s` lexes: the tokens end with `Eof`.
pub open spec fn lexes_to_end(s: Seq<u8>) -> bool {
    lex_from(s, 0).len() > 0 && lex_from(s, 0).last() == SpecTokenKind::Eof
}

/// One step inside a string literal.
pub enum StrStep {
    /// The closing delimiter; the literal ends before the given offset.
    Close(int),
    /// One character of the value, and where the next step starts.
    Char(char, int),
    Fail(Seq<char>),
}

pub open spec fn unicode_escape_step(s: Seq<u8>, k: int) -> StrStep {
    if k >= s.len() {
        StrStep::Fail("unterminated escape sequence"@)
    } else if s[k] != 123 {
        StrStep::Fail("invalid unicode escape"@)
    } else {
        let e = run_end(s, k + 1, ByteClass::Hex);
        if e >= s.len() {
            StrStep::Fail("unterminated unicode escape"@)
        } else if s[e] == 125 {
            if e == k + 1 {
                StrStep::Fail("invalid unicode escape"@)
            } else {
                let v = hex_value(s.subrange(k + 1, e));
                if v > 0xFFFF_FFFF {
                    StrStep::Fail("invalid unicode escape"@)
                } else if !is_scalar_value(v) {
                    StrStep::Fail("invalid unicode codepoint"@)
                } else {
                    StrStep::Char(v as char, e + 1)
                }
            }
        } else if is_line_break(s[e]) {
            StrStep::Fail("newline inside string literal"@)
        } else {
            StrStep::Fail("invalid unicode escape"@)
        }
    }
}

/// The escape that starts at offset `j` (just after a backslash).
pub open spec fn escape_step(s: Seq<u8>, j: int) -> StrStep {
    if j >= s.len() {
        StrStep::Fail("unterminated escape sequence"@)
    } else {
        let e = s[j];
        if is_line_break(e) {
            StrStep::Fail("newline inside string literal"@)
        } else if e == 34 {
            StrStep::Char('"', j + 1)
        } else if e == 39 {
            StrStep::Char('\'', j + 1)
        } else if e == 92 {
            StrStep::Char('\\', j + 1)
        } else if e == 48 {
            StrStep::Char('\0', j + 1)
        } else if e == 110 {
            StrStep::Char('\n', j + 1)
        } else if e == 114 {
            StrStep::Char('\r', j + 1)
        } else if e == 116 {
            StrStep::Char('\t', j + 1)
        } else if e == 117 {
            unicode_escape_step(s, j + 1)
        } else {
            StrStep::Fail("invalid escape '\\\\"@ + seq![e as char] + "'"@)
        }
    }
}

/// A continuation byte of a UTF-8 sequence (`10xxxxxx`).
pub open spec fn is_continuation(b: u8) -> bool {
    0x80 <= b <= 0xBF
}

/// The character whose UTF-8 encoding starts at offset `i` of `s`, and where the next
/// one starts. An ASCII byte is itself; a lead byte takes one to three continuation
/// bytes. Overlong encodings, surrogates, values above `0x10FFFF`, stray continuation
/// bytes and truncated sequences are refused.
pub open spec fn utf8_step(s: Seq<u8>, i: int) -> StrStep {
    let b0 = s[i] as int;
    if b0 < 0x80 {
        StrStep::Char(s[i] as char, i + 1)
    } else if 0xC2 <= b0 <= 0xDF && i + 1 < s.len() && is_continuation(s[i + 1]) {
        StrStep::Char(((b0 - 0xC0) * 64 + (s[i + 1] - 0x80)) as char, i + 2)
    } else if 0xE0 <= b0 <= 0xEF && i + 2 < s.len() && is_continuation(s[i + 1]) && is_continuation(
        s[i + 2],
    ) {
        let v = (b0 - 0xE0) * 4096 + (s[i + 1] - 0x80) * 64 + (s[i + 2] - 0x80);
        if v >= 0x800 && is_scalar_value(v) {
            StrStep::Char(v as char, i + 3)
        } else {
            StrStep::Fail(invalid_utf8_message())
        }
    } else if 0xF0 <= b0 <= 0xF4 && i + 3 < s.len() && is_continuation(s[i + 1]) && is_continuation(
        s[i + 2],
    ) && is_continuation(s[i + 3]) {
        let v = (b0 - 0xF0) * 262144 + (s[i + 1] - 0x80) * 4096 + (s[i + 2] - 0x80) * 64 + (s[i + 3]
            - 0x80);
        if 0x10000 <= v <= 0x10FFFF {
            StrStep::Char(v as char, i + 4)
        } else {
            StrStep::Fail(invalid_utf8_message())
        }
    } else {
        StrStep::Fail(invalid_utf8_message())
    }
}

pub open spec fn invalid_utf8_message() -> Seq<char> {
    "invalid UTF-8 in string literal"@
}

fn invalid_utf8(span: Span) -> (e: Error)
    ensures
        e.code == Code::Lex,
        e.message@ == invalid_utf8_message(),
        e.span == span,
{
    error_from_str(Code::Lex, "invalid UTF-8 in string literal", span)
}

/// The step at offset `i` of a literal delimited by `delim` (backslash escapes apply
/// only inside double quotes). Characters other than escapes are read as UTF-8.
pub open spec fn str_step(s: Seq<u8>, i: int, delim: u8) -> StrStep {
    if i >= s.len() {
        StrStep::Fail("unterminated string literal"@)
    } else if s[i] == delim {
        StrStep::Close(i + 1)
    } else if is_line_break(s[i]) {
        StrStep::Fail("newline inside string literal"@)
    } else if s[i] == 92 && delim == 34 {
        escape_step(s, i + 1)
    } else {
        utf8_step(s, i)
    }
}

/// The rest of a string literal from offset `i`, whose value so far is `acc`:
/// the whole value and the end offset, or the error message.
pub open spec fn scan_string(s: Seq<u8>, i: int, delim: u8, acc: Seq<char>) -> Result<
    (Seq<char>, int),
    Seq<char>,
>
    decreases s.len() - i,
{
    match str_step(s, i, delim) {
        StrStep::Close(end) => Ok((acc, end)),
        StrStep::Fail(m) => Err(m),
        StrStep::Char(c, next) => {
            if next <= i || i >= s.len() {
                Err(seq![])
            } else {
                scan_string(s, next, delim, acc.push(c))
            }
        },
    }
}

pub open spec fn single_char_token(b: u8) -> Option<SpecTokenKind> {
    if b == 40 {
        Some(SpecTokenKind::LParen)
    } else if b == 41 {
        Some(SpecTokenKind::RParen)
    } else if b == 123 {
        Some(SpecTokenKind::LBrace)
    } else if b == 125 {
        Some(SpecTokenKind::RBrace)
    } else if b == 91 {
        Some(SpecTokenKind::LBracket)
    } else if b == 93 {
        Some(SpecTokenKind::RBracket)
    } else if b == 44 {
        Some(SpecTokenKind::Comma)
    } else if b == 58 {
        Some(SpecTokenKind::Colon)
    } else if b == 59 {
        Some(SpecTokenKind::Semicolon)
    } else if b == 43 {
        Some(SpecTokenKind::Plus)
    } else if b == 42 {
        Some(SpecTokenKind::Star)
    } else if b == 33 {
        Some(SpecTokenKind::Bang)
    } else if b == 63 {
        Some(SpecTokenKind::Question)
    } else if b == 47 {
        Some(SpecTokenKind::Slash)
    } else if b == 45 {
        Some(SpecTokenKind::Minus)
    } else if b == 61 {
        Some(SpecTokenKind::Equals)
    } else if b == 60 {
        Some(SpecTokenKind::AngleOpen)
    } else if b == 62 {
        Some(SpecTokenKind::AngleClose)
    } else {
        None
    }
}

/// The token that starts at offset `p` (a position with no spaces or comment before it).
pub open spec fn lex_at(s: Seq<u8>, p: int) -> LexOutcome {
    if p >= s.len() {
        LexOutcome::Token(SpecTokenKind::Eof, p)
    } else {
        let b = s[p];
        if b == 10 {
            LexOutcome::Token(SpecTokenKind::Newline, p + 1)
        } else if b == 13 {
            LexOutcome::Token(
                SpecTokenKind::Newline,
                if p + 1 < s.len() && s[p + 1] == 10 {
                    p + 2
                } else {
                    p + 1
                },
            )
        } else if b == 64 {
            let e = run_end(s, p + 1, ByteClass::Import);
            if e == p + 1 {
                LexOutcome::Fail("import name cannot be empty"@)
            } else {
                LexOutcome::Token(SpecTokenKind::Import(bytes_text(s.subrange(p + 1, e))), e)
            }
        } else if is_alpha(b) || b == 95 {
            let e = run_end(s, p + 1, ByteClass::Ident);
            LexOutcome::Token(SpecTokenKind::Ident(bytes_text(s.subrange(p, e))), e)
        } else if is_digit(b) {
            let e = run_end(s, p, ByteClass::Digit);
            let v = decimal_value(s.subrange(p, e));
            if v > i64::MAX {
                LexOutcome::Fail("invalid integer literal"@)
            } else {
                LexOutcome::Token(SpecTokenKind::IntLiteral(v), e)
            }
        } else if b == 46 {
            let d = run_end(s, p, ByteClass::Dot) - p;
            if d > 3 {
                LexOutcome::Fail("too many dots (maximum is 3)"@)
            } else if d == 1 {
                LexOutcome::Token(SpecTokenKind::Dot, p + 1)
            } else if d == 3 {
                LexOutcome::Token(SpecTokenKind::Ellipsis, p + 3)
            } else {
                LexOutcome::Fail("invalid token: expected '.' or '...'"@)
            }
        } else if b == 34 || b == 39 {
            match scan_string(s, p + 1, b, seq![]) {
                Ok((v, end)) => LexOutcome::Token(SpecTokenKind::StringLiteral(v), end),
                Err(m) => LexOutcome::Fail(m),
            }
        } else if single_char_token(b) is Some {
            LexOutcome::Token(single_char_token(b).unwrap(), p + 1)
        } else {
            LexOutcome::Fail("unexpected character '"@ + seq![b as char] + "'"@)
        }
    }
}

// ---------------------------------------------------------------------------
// Lemmas
// ---------------------------------------------------------------------------

proof fn lemma_run_end(s: Seq<u8>, i: int, c: ByteClass)
    requires
        0 <= i <= s.len(),
    ensures
        i <= run_end(s, i, c) <= s.len(),
        forall|k: int| i <= k < run_end(s, i, c) ==> in_class(c, #[trigger] s[k]),
        run_end(s, i, c) < s.len() ==> !in_class(c, s[run_end(s, i, c)]),
    decreases s.len() - i,
{
    if i < s.len() && in_class(c, s[i]) {
        lemma_run_end(s, i + 1, c);
    }
}

proof fn lemma_location_bounds(s: Seq<u8>, pos: int)
    requires
        0 <= pos,
    ensures
        1 <= location(s, pos).0 <= pos + 1,
        1 <= location(s, pos).1 <= pos + 1,
    decreases pos,
{
    if pos > 0 {
        lemma_location_bounds(s, pos - 1);
    }
}

/// Over bytes without line breaks, the line stays and the column grows by one per byte.
proof fn lemma_location_plain(s: Seq<u8>, i: int, j: int)
    requires
        0 <= i <= j <= s.len(),
        forall|k: int| i <= k < j ==> !is_line_break(#[trigger] s[k]),
    ensures
        location(s, j) == (location(s, i).0, location(s, i).1 + (j - i)),
    decreases j - i,
{
    if j > i {
        lemma_location_plain(s, i, j - 1);
        assert(!is_line_break(s[j - 1]));
    }
}

proof fn lemma_trivia_plain(s: Seq<u8>, i: int, in_comment: bool)
    requires
        0 <= i <= s.len(),
    ensures
        i <= skip_trivia(s, i, in_comment) <= s.len(),
        forall|k: int| i <= k < skip_trivia(s, i, in_comment) ==> !is_line_break(#[trigger] s[k]),
    decreases s.len() - i,
{
    if i < s.len() {
        if in_comment {
            if !is_line_break(s[i]) {
                lemma_trivia_plain(s, i + 1, true);
            }
        } else if is_space(s[i]) {
            lemma_trivia_plain(s, i + 1, false);
        } else if s[i] == 47 && i + 1 < s.len() && s[i + 1] == 47 {
            lemma_trivia_plain(s, i + 2, true);
        }
    }
}

proof fn lemma_decimal_step(s: Seq<u8>, from: int, i: int)
    requires
        0 <= from <= i < s.len(),
    ensures
        decimal_value(s.subrange(from, i + 1)) == decimal_value(s.subrange(from, i)) * 10 + (
        s[i] - 48),
{
    assert(s.subrange(from, i + 1).drop_last() =~= s.subrange(from, i));
}

proof fn lemma_hex_step(s: Seq<u8>, from: int, i: int)
    requires
        0 <= from <= i < s.len(),
    ensures
        hex_value(s.subrange(from, i + 1)) == hex_value(s.subrange(from, i)) * 16
            + hex_digit_value(s[i]),
{
    assert(s.subrange(from, i + 1).drop_last() =~= s.subrange(from, i));
}

/// Appending digits never makes a number smaller.
proof fn lemma_decimal_grows(s: Seq<u8>, from: int, i: int, j: int)
    requires
        0 <= from <= i <= j <= s.len(),
        forall|k: int| from <= k < j ==> is_digit(#[trigger] s[k]),
    ensures
        decimal_value(s.subrange(from, i)) <= decimal_value(s.subrange(from, j)),
        0 <= decimal_value(s.subrange(from, i)),
    decreases j - from,
{
    if j > i {
        lemma_decimal_grows(s, from, i, j - 1);
        lemma_decimal_step(s, from, j - 1);
        assert(is_digit(s[j - 1]));
    } else if i > from {
        lemma_decimal_grows(s, from, i - 1, i - 1);
        lemma_decimal_step(s, from, i - 1);
        assert(is_digit(s[i - 1]));
    }
}

proof fn lemma_hex_grows(s: Seq<u8>, from: int, i: int, j: int)
    requires
        0 <= from <= i <= j <= s.len(),
        forall|k: int| from <= k < j ==> is_hex_digit(#[trigger] s[k]),
    ensures
        hex_value(s.subrange(from, i)) <= hex_value(s.subrange(from, j)),
        0 <= hex_value(s.subrange(from, i)),
    decreases j - from,
{
    if j > i {
        lemma_hex_grows(s, from, i, j - 1);
        lemma_hex_step(s, from, j - 1);
        assert(is_hex_digit(s[j - 1]));
    } else if i > from {
        lemma_hex_grows(s, from, i - 1, i - 1);
        lemma_hex_step(s, from, i - 1);
        assert(is_hex_digit(s[i - 1]));
    }
}

/// A character step moves forward over bytes that are not line breaks; a close step
/// consumes exactly the delimiter.
proof fn lemma_str_step(s: Seq<u8>, i: int, delim: u8)
    requires
        0 <= i <= s.len(),
        !is_line_break(delim),
    ensures
        str_step(s, i, delim) matches StrStep::Char(_, n) ==> (i < n <= s.len() && forall|k: int|
            i <= k < n ==> !is_line_break(#[trigger] s[k])),
        str_step(s, i, delim) matches StrStep::Close(n) ==> (n == i + 1 && i < s.len()
            && !is_line_break(s[i])),
{
    if i < s.len() && s[i] != delim && !is_line_break(s[i]) && s[i] == 92 && delim == 34 {
        let j = i + 1;
        if j < s.len() && s[j] == 117 {
            let k = j + 1;
            if k < s.len() && s[k] == 123 {
                lemma_run_end(s, k + 1, ByteClass::Hex);
            }
        }
    }
}

pub proof fn lemma_trivia_bounds(s: Seq<u8>, i: int, in_comment: bool)
    requires
        0 <= i <= s.len(),
    ensures
        i <= skip_trivia(s, i, in_comment) <= s.len(),
{
    lemma_trivia_plain(s, i, in_comment);
}

proof fn lemma_scan_string_end(s: Seq<u8>, i: int, delim: u8, acc: Seq<char>)
    requires
        0 <= i <= s.len(),
        !is_line_break(delim),
    ensures
        scan_string(s, i, delim, acc) matches Ok((_, e)) ==> i < e <= s.len(),
    decreases s.len() - i,
{
    lemma_str_step(s, i, delim);
    match str_step(s, i, delim) {
        StrStep::Char(c, next) => {
            if next > i && i < s.len() {
                lemma_scan_string_end(s, next, delim, acc.push(c));
            }
        },
        _ => {},
    }
}

/// A token other than `Eof` takes at least one byte; `Eof` takes none.
pub proof fn lemma_lex_advances(s: Seq<u8>, p: int)
    requires
        0 <= p <= s.len(),
    ensures
        lex_at(s, p) matches LexOutcome::Token(k, e) ==> (k == SpecTokenKind::Eof ==> e == p) && (k
            != SpecTokenKind::Eof ==> p < e <= s.len()),
{
    if p < s.len() {
        let b = s[p];
        if b == 64 {
            lemma_run_end(s, p + 1, ByteClass::Import);
        } else if is_alpha(b) || b == 95 {
            lemma_run_end(s, p + 1, ByteClass::Ident);
        } else if is_digit(b) {
            lemma_run_end(s, p, ByteClass::Digit);
        } else if b == 46 {
            lemma_run_end(s, p, ByteClass::Dot);
        } else if b == 34 || b == 39 {
            lemma_scan_string_end(s, p + 1, b, seq![]);
        }
    }
}

// ---------------------------------------------------------------------------
// The lexer
// ---------------------------------------------------------------------------

/// Reads tokens from a byte buffer, keeping track of the current line and column.
pub struct Lexer {
    bytes: Vec<u8>,
    pos: usize,
    line: usize,
    column: usize,
}

/// A string-literal step as computed at run time.
enum ExecStep {
    Close(usize),
    Char(char, usize),
    Fail(Error),
}

impl Lexer {
    /// The source being read.
    pub closed spec fn source(&self) -> Seq<u8> {
        self.bytes@
    }

    /// The offset of the next byte to read.
    pub closed spec fn position(&self) -> int {
        self.pos as int
    }

    pub closed spec fn wf(&self) -> bool {
        &&& self.pos <= self.bytes@.len()
        &&& self.bytes@.len() < usize::MAX
        &&& self.line == location(self.bytes@, self.pos as int).0
        &&& self.column == location(self.bytes@, self.pos as int).1
    }

    pub proof fn lemma_wf(&self)
        requires
            self.wf(),
        ensures
            0 <= self.position() <= self.source().len(),
    {
    }

    pub fn new(source: Vec<u8>) -> (lexer: Self)
        requires
            source@.len() < usize::MAX,
        ensures
            lexer.wf(),
            lexer.source() == source@,
            lexer.position() == 0,
    {
        Lexer { bytes: source, pos: 0, line: 1, column: 1 }
    }

    /// Moves over `n` bytes that hold no line break.
    fn advance_plain(&mut self, n: usize)
        requires
            old(self).wf(),
            old(self).pos + n <= old(self).bytes@.len(),
            forall|k: int|
                old(self).pos <= k < old(self).pos + n ==> !is_line_break(
                    #[trigger] old(self).bytes@[k],
                ),
        ensures
            final(self).wf(),
            final(self).bytes@ == old(self).bytes@,
            final(self).pos == old(self).pos + n,
    {
        proof {
            lemma_location_plain(self.bytes@, self.pos as int, self.pos + n);
            lemma_location_bounds(self.bytes@, self.pos + n);
        }
        self.pos = self.pos + n;
        self.column = self.column + n;
    }

    /// Moves over the line break at the current position.
    fn advance_line_break(&mut self) -> (end: usize)
        requires
            old(self).wf(),
            old(self).pos < old(self).bytes@.len(),
            is_line_break(old(self).bytes@[old(self).pos as int]),
        ensures
            final(self).wf(),
            final(self).bytes@ == old(self).bytes@,
            lex_at(old(self).bytes@, old(self).pos as int) == LexOutcome::Token(
                SpecTokenKind::Newline,
                end as int,
            ),
            final(self).pos == end,
    {
        let p = self.pos;
        let end = if self.bytes[p] == 13 && p + 1 < self.bytes.len() && self.bytes[p + 1] == 10 {
            p + 2
        } else {
            p + 1
        };
        proof {
            lemma_location_bounds(self.bytes@, end as int);
            if end == p + 2 {
                assert(location(self.bytes@, p + 1) == location(self.bytes@, p as int));
            }
        }
        self.pos = end;
        self.line = self.line + 1;
        self.column = 1;
        end
    }

    fn current_span(&self) -> (s: Span)
        requires
            self.wf(),
        ensures
            s == span_at(self.bytes@, self.pos as int),
    {
        Span::new(self.line, self.column, self.pos)
    }

    /// Skips spaces and `//` comments.
    fn skip_whitespace_and_comments(&mut self)
        requires
            old(self).wf(),
        ensures
            final(self).wf(),
            final(self).bytes@ == old(self).bytes@,
            final(self).pos == skip_trivia(old(self).bytes@, old(self).pos as int, false),
    {
        let ghost s = self.bytes@;
        let ghost start = self.pos as int;
        let mut in_comment = false;
        let mut i = self.pos;
        let len = self.bytes.len();
        proof {
            lemma_trivia_plain(s, start, false);
        }
        loop
            invariant
                self.wf(),
                self.bytes@ == s,
                self.pos == start,
                len == s.len(),
                start <= i <= len,
                skip_trivia(s, i as int, in_comment) == skip_trivia(s, start, false),
                forall|k: int| start <= k < i ==> !is_line_break(#[trigger] s[k]),
            ensures
                self.wf(),
                self.bytes@ == s,
                self.pos == start,
                start <= i <= len,
                skip_trivia(s, start, false) == i,
                forall|k: int| start <= k < i ==> !is_line_break(#[trigger] s[k]),
            decreases len - i,
        {
            if i >= len {
                break;
            }
            let b = self.bytes[i];
            if in_comment {
                if b == 10 || b == 13 {
                    break;
                }
                i = i + 1;
            } else if b == 9 || b == 11 || b == 12 || b == 32 || b == 0x85 || b == 0xA0 {
                i = i + 1;
            } else if b == 47 && i + 1 < len && self.bytes[i + 1] == 47 {
                i = i + 2;
                in_comment = true;
            } else {
                break;
            }
        }
        self.advance_plain(i - self.pos);
    }

    /// The end of the run of bytes of class `c` that starts at `start`.
    fn scan_run(&self, start: usize, c: &ByteClass) -> (e: usize)
        requires
            self.wf(),
            start <= self.bytes@.len(),
        ensures
            e == run_end(self.bytes@, start as int, *c),
    {
        let mut i = start;
        while i < self.bytes.len() && Self::byte_in_class(c, self.bytes[i])
            invariant
                self.wf(),
                start <= i <= self.bytes@.len(),
                run_end(self.bytes@, i as int, *c) == run_end(self.bytes@, start as int, *c),
            decreases self.bytes@.len() - i,
        {
            i = i + 1;
        }
        i
    }

    fn byte_in_class(c: &ByteClass, b: u8) -> (r: bool)
        ensures
            r == in_class(*c, b),
    {
        match c {
            ByteClass::Ident => Self::ident_byte(b),
            ByteClass::Import => Self::ident_byte(b) || b == 47,
            ByteClass::Digit => 48 <= b && b <= 57,
            ByteClass::Hex => (48 <= b && b <= 57) || (97 <= b && b <= 102) || (65 <= b && b
                <= 70),
            ByteClass::Dot => b == 46,
        }
    }

    fn ident_byte(b: u8) -> (r: bool)
        ensures
            r == is_ident_byte(b),
    {
        (97 <= b && b <= 122) || (65 <= b && b <= 90) || (48 <= b && b <= 57) || b == 95
    }

    /// The characters that the bytes in `from..to` stand for.
    fn text_of(&self, from: usize, to: usize) -> (s: String)
        requires
            from <= to <= self.bytes@.len(),
        ensures
            s@ == bytes_text(self.bytes@.subrange(from as int, to as int)),
    {
        let mut s = String::new();
        let mut i = from;
        while i < to
            invariant
                from <= i <= to <= self.bytes@.len(),
                s@ == bytes_text(self.bytes@.subrange(from as int, i as int)),
            decreases to - i,
        {
            push_char(&mut s, self.bytes[i] as char);
            assert(bytes_text(self.bytes@.subrange(from as int, i + 1)) =~= bytes_text(
                self.bytes@.subrange(from as int, i as int),
            ).push(self.bytes@[i as int] as char));
            i = i + 1;
        }
        s
    }

    /// The value of the decimal digits in `from..to`, or `None` when it exceeds `i64::MAX`.
    fn decimal_in(&self, from: usize, to: usize) -> (r: Option<i64>)
        requires
            from <= to <= self.bytes@.len(),
            forall|k: int| from <= k < to ==> is_digit(#[trigger] self.bytes@[k]),
        ensures
            r is None <==> decimal_value(self.bytes@.subrange(from as int, to as int)) > i64::MAX,
            r matches Some(v) ==> v as int == decimal_value(
                self.bytes@.subrange(from as int, to as int),
            ),
    {
        let ghost s = self.bytes@;
        let mut acc: u64 = 0;
        let mut i = from;
        assert(s.subrange(from as int, from as int).len() == 0);
        while i < to
            invariant
                from <= i <= to <= s.len(),
                s == self.bytes@,
                forall|k: int| from <= k < to ==> is_digit(#[trigger] s[k]),
                acc as int == decimal_value(s.subrange(from as int, i as int)),
                acc <= i64::MAX,
            decreases to - i,
        {
            let d = (self.bytes[i] - 48) as u64;
            proof {
                lemma_decimal_step(s, from as int, i as int);
            }
            if acc > (9223372036854775807u64 - d) / 10 {
                proof {
                    assert(acc * 10 + d > 9223372036854775807u64) by (nonlinear_arith)
                        requires
                            acc > (9223372036854775807u64 - d) / 10,
                            d < 10,
                    ;
                    lemma_decimal_grows(s, from as int, i + 1, to as int);
                }
                return None;
            }
            assert(acc * 10 + d <= 9223372036854775807u64) by (nonlinear_arith)
                requires
                    acc <= (9223372036854775807u64 - d) / 10,
                    d < 10,
            ;
            acc = acc * 10 + d;
            i = i + 1;
        }
        Some(acc as i64)
    }

    /// The value of the hexadecimal digits in `from..to`, or `None` when it exceeds `u32::MAX`.
    fn hex_in(&self, from: usize, to: usize) -> (r: Option<u32>)
        requires
            from <= to <= self.bytes@.len(),
            forall|k: int| from <= k < to ==> is_hex_digit(#[trigger] self.bytes@[k]),
        ensures
            r is None <==> hex_value(self.bytes@.subrange(from as int, to as int)) > 0xFFFF_FFFF,
            r matches Some(v) ==> v as int == hex_value(self.bytes@.subrange(from as int, to as int)),
    {
        let ghost s = self.bytes@;
        let mut acc: u64 = 0;
        let mut i = from;
        assert(s.subrange(from as int, from as int).len() == 0);
        while i < to
            invariant
                from <= i <= to <= s.len(),
                s == self.bytes@,
                forall|k: int| from <= k < to ==> is_hex_digit(#[trigger] s[k]),
                acc as int == hex_value(s.subrange(from as int, i as int)),
                acc <= 0xFFFF_FFFF,
            decreases to - i,
        {
            let b = self.bytes[i];
            let d: u64 = if 48 <= b && b <= 57 {
                (b - 48) as u64
            } else if 97 <= b && b <= 102 {
                (b - 87) as u64
            } else {
                (b - 55) as u64
            };
            proof {
                lemma_hex_step(s, from as int, i as int);
            }
            acc = acc * 16 + d;
            if acc > 0xFFFF_FFFF {
                proof {
                    lemma_hex_grows(s, from as int, i + 1, to as int);
                }
                return None;
            }
            i = i + 1;
        }
        Some(acc as u32)
    }

    /// The unicode escape whose `{` is expected at offset `k`.
    fn unicode_escape(&self, k: usize, start_span: Span) -> (r: ExecStep)
        requires
            self.wf(),
            k <= self.bytes@.len(),
        ensures
            Self::step_matches(r, unicode_escape_step(self.bytes@, k as int), start_span),
    {
        let ghost s = self.bytes@;
        let len = self.bytes.len();
        if k >= len {
            return ExecStep::Fail(error_from_str(Code::Lex, "unterminated escape sequence", start_span));
        }
        if self.bytes[k] != 123 {
            return ExecStep::Fail(error_from_str(Code::Lex, "invalid unicode escape", start_span));
        }
        let e = self.scan_run(k + 1, &ByteClass::Hex);
        proof {
            lemma_run_end(s, k + 1, ByteClass::Hex);
        }
        if e >= len {
            return ExecStep::Fail(error_from_str(Code::Lex, "unterminated unicode escape", start_span));
        }
        let b = self.bytes[e];
        if b == 125 {
            if e == k + 1 {
                return ExecStep::Fail(error_from_str(Code::Lex, "invalid unicode escape", start_span));
            }
            match self.hex_in(k + 1, e) {
                None => ExecStep::Fail(error_from_str(Code::Lex, "invalid unicode escape", start_span)),
                Some(v) => match char_from_u32(v) {
                    Some(c) => ExecStep::Char(c, e + 1),
                    None => ExecStep::Fail(
                        error_from_str(Code::Lex, "invalid unicode codepoint", start_span),
                    ),
                },
            }
        } else if b == 10 || b == 13 {
            ExecStep::Fail(error_from_str(Code::Lex, "newline inside string literal", start_span))
        } else {
            ExecStep::Fail(error_from_str(Code::Lex, "invalid unicode escape", start_span))
        }
    }

    spec fn step_matches(r: ExecStep, step: StrStep, span: Span) -> bool {
        match step {
            StrStep::Close(n) => r == ExecStep::Close(n as usize),
            StrStep::Char(c, n) => r == ExecStep::Char(c, n as usize),
            StrStep::Fail(m) => r matches ExecStep::Fail(e) && e.code == Code::Lex && e.message@
                == m && e.span == span,
        }
    }

    /// The escape whose letter is at offset `j`.
    fn escape(&self, j: usize, start_span: Span) -> (r: ExecStep)
        requires
            self.wf(),
            j <= self.bytes@.len(),
        ensures
            Self::step_matches(r, escape_step(self.bytes@, j as int), start_span),
    {
        if j >= self.bytes.len() {
            return ExecStep::Fail(error_from_str(Code::Lex, "unterminated escape sequence", start_span));
        }
        let e = self.bytes[j];
        if e == 10 || e == 13 {
            ExecStep::Fail(error_from_str(Code::Lex, "newline inside string literal", start_span))
        } else if e == 34 {
            ExecStep::Char('"', j + 1)
        } else if e == 39 {
            ExecStep::Char('\'', j + 1)
        } else if e == 92 {
            ExecStep::Char('\\', j + 1)
        } else if e == 48 {
            ExecStep::Char('\0', j + 1)
        } else if e == 110 {
            ExecStep::Char('\n', j + 1)
        } else if e == 114 {
            ExecStep::Char('\r', j + 1)
        } else if e == 116 {
            ExecStep::Char('\t', j + 1)
        } else if e == 117 {
            self.unicode_escape(j + 1, start_span)
        } else {
            let mut m = "invalid escape '\\\\".to_string();
            let ghost m0 = m@;
            push_char(&mut m, e as char);
            push_str(&mut m, "'");
            assert(m@ =~= m0 + seq![e as char] + "'"@);
            ExecStep::Fail(Error::new(Code::Lex, m, start_span))
        }
    }

    fn string_step(&self, i: usize, delim: u8, start_span: Span) -> (r: ExecStep)
        requires
            self.wf(),
            i <= self.bytes@.len(),
        ensures
            Self::step_matches(r, str_step(self.bytes@, i as int, delim), start_span),
    {
        if i >= self.bytes.len() {
            return ExecStep::Fail(error_from_str(Code::Lex, "unterminated string literal", start_span));
        }
        let b = self.bytes[i];
        if b == delim {
            ExecStep::Close(i + 1)
        } else if b == 10 || b == 13 {
            ExecStep::Fail(error_from_str(Code::Lex, "newline inside string literal", start_span))
        } else if b == 92 && delim == 34 {
            self.escape(i + 1, start_span)
        } else {
            self.utf8_char(i, start_span)
        }
    }

    /// The character whose UTF-8 encoding starts at offset `i`.
    fn utf8_char(&self, i: usize, start_span: Span) -> (r: ExecStep)
        requires
            self.wf(),
            i < self.bytes@.len(),
        ensures
            Self::step_matches(r, utf8_step(self.bytes@, i as int), start_span),
    {
        let len = self.bytes.len();
        let b0 = self.bytes[i];
        if b0 < 0x80 {
            return ExecStep::Char(b0 as char, i + 1);
        }
        if 0xC2 <= b0 && b0 <= 0xDF && len - i > 1 {
            let b1 = self.bytes[i + 1];
            if 0x80 <= b1 && b1 <= 0xBF {
                let v: u32 = ((b0 as u32) - 0xC0) * 64 + ((b1 as u32) - 0x80);
                return match char_from_u32(v) {
                    Some(c) => ExecStep::Char(c, i + 2),
                    None => ExecStep::Fail(invalid_utf8(start_span)),
                };
            }
        }
        if 0xE0 <= b0 && b0 <= 0xEF && len - i > 2 {
            let b1 = self.bytes[i + 1];
            let b2 = self.bytes[i + 2];
            if 0x80 <= b1 && b1 <= 0xBF && 0x80 <= b2 && b2 <= 0xBF {
                let v: u32 = ((b0 as u32) - 0xE0) * 4096 + ((b1 as u32) - 0x80) * 64 + ((b2 as u32) - 0x80);
                if v < 0x800 {
                    return ExecStep::Fail(invalid_utf8(start_span));
                }
                return match char_from_u32(v) {
                    Some(c) => ExecStep::Char(c, i + 3),
                    None => ExecStep::Fail(invalid_utf8(start_span)),
                };
            }
        }
        if 0xF0 <= b0 && b0 <= 0xF4 && len - i > 3 {
            let b1 = self.bytes[i + 1];
            let b2 = self.bytes[i + 2];
            let b3 = self.bytes[i + 3];
            if 0x80 <= b1 && b1 <= 0xBF && 0x80 <= b2 && b2 <= 0xBF && 0x80 <= b3 && b3 <= 0xBF {
                let v: u32 = ((b0 as u32) - 0xF0) * 262144 + ((b1 as u32) - 0x80) * 4096 + ((b2 as u32)
                    - 0x80) * 64 + ((b3 as u32) - 0x80);
                if v < 0x10000 || v > 0x10FFFF {
                    return ExecStep::Fail(invalid_utf8(start_span));
                }
                return match char_from_u32(v) {
                    Some(c) => ExecStep::Char(c, i + 4),
                    None => ExecStep::Fail(invalid_utf8(start_span)),
                };
            }
        }
        ExecStep::Fail(invalid_utf8(start_span))
    }

    /// Lexes the string literal whose opening delimiter is at the current position.
    fn string_token(&mut self, start_span: Span) -> (r: Result<Token, Error>)
        requires
            old(self).wf(),
            old(self).pos < old(self).bytes@.len(),
            old(self).bytes@[old(self).pos as int] == 34 || old(self).bytes@[old(self).pos as int]
                == 39,
            start_span == span_at(old(self).bytes@, old(self).pos as int),
        ensures
            final(self).wf(),
            final(self).bytes@ == old(self).bytes@,
            Self::token_matches(
                r,
                lex_at(old(self).bytes@, old(self).pos as int),
                start_span,
                final(self).pos as int,
            ),
    {
        let ghost s = self.bytes@;
        let p = self.pos;
        let delim = self.bytes[p];
        let mut value = String::new();
        let mut i = p + 1;
        loop
            invariant
                self.wf(),
                self.bytes@ == s,
                s == old(self).bytes@,
                p == old(self).pos,
                self.pos == p,
                p < i <= s.len(),
                delim == s[p as int],
                delim == 34 || delim == 39,
                scan_string(s, i as int, delim, value@) == scan_string(s, p + 1, delim, seq![]),
                forall|k: int| p <= k < i ==> !is_line_break(#[trigger] s[k]),
            decreases s.len() - i,
        {
            proof {
                lemma_str_step(s, i as int, delim);
            }
            match self.string_step(i, delim, start_span) {
                ExecStep::Close(end) => {
                    self.advance_plain(end - p);
                    return Ok(Token::new(TokenKind::StringLiteral(value), start_span));
                },
                ExecStep::Fail(e) => {
                    return Err(e);
                },
                ExecStep::Char(c, next) => {
                    push_char(&mut value, c);
                    i = next;
                },
            }
        }
    }

    pub open spec fn token_matches(
        r: Result<Token, Error>,
        outcome: LexOutcome,
        span: Span,
        end: int,
    ) -> bool {
        match outcome {
            LexOutcome::Token(k, e) => r matches Ok(t) && t.kind@ == k && t.span == span && end == e,
            LexOutcome::Fail(m) => r matches Err(err) && err.code == Code::Lex && err.message@ == m
                && err.span == span,
        }
    }

    /// Reads the next token.
    ///
    /// Spaces and `//` comments before it are skipped; the result is the token that
    /// `lex_at` describes at that point, with the span of its first byte, and the lexer
    /// moves past it. On an error the result is a `Lex` error with that span.
    pub fn next_token(&mut self) -> (r: Result<Token, Error>)
        requires
            old(self).wf(),
        ensures
            final(self).wf(),
            final(self).source() == old(self).source(),
            ({
                let p = skip_trivia(old(self).source(), old(self).position(), false);
                Self::token_matches(r, lex_at(old(self).source(), p), span_at(old(self).source(), p), final(self).position())
            }),
    {
        self.skip_whitespace_and_comments();
        let ghost s = self.bytes@;
        let p = self.pos;
        let span = self.current_span();
        let len = self.bytes.len();
        if p >= len {
            return Ok(Token::new(TokenKind::Eof, span));
        }
        let b = self.bytes[p];
        if b == 10 || b == 13 {
            self.advance_line_break();
            return Ok(Token::new(TokenKind::Newline, span));
        }
        if b == 64 {
            let e = self.scan_run(p + 1, &ByteClass::Import);
            proof {
                lemma_run_end(s, p + 1, ByteClass::Import);
            }
            if e == p + 1 {
                return Err(error_from_str(Code::Lex, "import name cannot be empty", span));
            }
            let name = self.text_of(p + 1, e);
            self.advance_plain(e - p);
            return Ok(Token::new(TokenKind::Import(name), span));
        }
        if (97 <= b && b <= 122) || (65 <= b && b <= 90) || b == 95 {
            let e = self.scan_run(p + 1, &ByteClass::Ident);
            proof {
                lemma_run_end(s, p + 1, ByteClass::Ident);
            }
            let name = self.text_of(p, e);
            self.advance_plain(e - p);
            return Ok(Token::new(TokenKind::Ident(name), span));
        }
        if 48 <= b && b <= 57 {
            let e = self.scan_run(p, &ByteClass::Digit);
            proof {
                lemma_run_end(s, p as int, ByteClass::Digit);
            }
            match self.decimal_in(p, e) {
                None => {
                    return Err(error_from_str(Code::Lex, "invalid integer literal", span));
                },
                Some(v) => {
                    self.advance_plain(e - p);
                    return Ok(Token::new(TokenKind::IntLiteral(v), span));
                },
            }
        }
        if b == 46 {
            let e = self.scan_run(p, &ByteClass::Dot);
            proof {
                lemma_run_end(s, p as int, ByteClass::Dot);
            }
            let d = e - p;
            if d > 3 {
                return Err(error_from_str(Code::Lex, "too many dots (maximum is 3)", span));
            } else if d == 1 {
                self.advance_plain(1);
                return Ok(Token::new(TokenKind::Dot, span));
            } else if d == 3 {
                self.advance_plain(3);
                return Ok(Token::new(TokenKind::Ellipsis, span));
            } else {
                return Err(error_from_str(Code::Lex, "invalid token: expected '.' or '...'", span));
            }
        }
        if b == 34 || b == 39 {
            return self.string_token(span);
        }
        let single = Self::single_char(b);
        match single {
            Some(kind) => {
                self.advance_plain(1);
                Ok(Token::new(kind, span))
            },
            None => {
                let mut m = "unexpected character '".to_string();
                let ghost m0 = m@;
                push_char(&mut m, b as char);
                push_str(&mut m, "'");
                assert(m@ =~= m0 + seq![b as char] + "'"@);
                Err(Error::new(Code::Lex, m, span))
            },
        }
    }

    fn single_char(b: u8) -> (r: Option<TokenKind>)
        ensures
            match single_char_token(b) {
                Some(k) => r matches Some(t) && t@ == k,
                None => r is None,
            },
    {
        if b == 40 {
            Some(TokenKind::LParen)
        } else if b == 41 {
            Some(TokenKind::RParen)
        } else if b == 123 {
            Some(TokenKind::LBrace)
        } else if b == 125 {
            Some(TokenKind::RBrace)
        } else if b == 91 {
            Some(TokenKind::LBracket)
        } else if b == 93 {
            Some(TokenKind::RBracket)
        } else if b == 44 {
            Some(TokenKind::Comma)
        } else if b == 58 {
            Some(TokenKind::Colon)
        } else if b == 59 {
            Some(TokenKind::Semicolon)
        } else if b == 43 {
            Some(TokenKind::Plus)
        } else if b == 42 {
            Some(TokenKind::Star)
        } else if b == 33 {
            Some(TokenKind::Bang)
        } else if b == 63 {
            Some(TokenKind::Question)
        } else if b == 47 {
            Some(TokenKind::Slash)
        } else if b == 45 {
            Some(TokenKind::Minus)
        } else if b == 61 {
            Some(TokenKind::Equals)
        } else if b == 60 {
            Some(TokenKind::AngleOpen)
        } else if b == 62 {
            Some(TokenKind::AngleClose)
        } else {
            None
        }
    }
}


/// The character that the escape letter `e` (after a backslash) stands for, by its code
/// point: `t` is U+0009 (tab), `n` is U+000A (line feed), `r` is U+000D (carriage
/// return), `0` is U+0000, and `"`, `'` and `\\` stand for themselves (U+0022, U+0027,
/// U+005C). `None` for any other byte.
pub open spec fn simple_escape_char(e: u8) -> Option<char> {
    if e == 116 {
        Some(9u8 as char)
    } else if e == 110 {
        Some(10u8 as char)
    } else if e == 114 {
        Some(13u8 as char)
    } else if e == 48 {
        Some(0u8 as char)
    } else if e == 34 {
        Some(34u8 as char)
    } else if e == 39 {
        Some(39u8 as char)
    } else if e == 92 {
        Some(92u8 as char)
    } else {
        None
    }
}

/// In a double-quoted string literal, a backslash followed by `t`, `n`, `r`, `0`, `"`,
/// `'` or a backslash stands for one character (see `simple_escape_char`): reading on
/// from the backslash is reading on after those two bytes with that character added to
/// the value.
pub proof fn lemma_simple_escapes(s: Seq<u8>, i: int, acc: Seq<char>)
    requires
        0 <= i,
        i + 1 < s.len(),
        s[i] == 92,
        simple_escape_char(s[i + 1]) is Some,
    ensures
        scan_string(s, i, 34, acc) == scan_string(s, i + 2, 34, acc.push(simple_escape_char(s[i + 1])->Some_0)),
{
}

/// A double-quoted literal made of one such escape reads as a string literal of that
/// single character: `"\t"` is the one-character string U+0009.
pub proof fn lemma_quoted_escape(s: Seq<u8>, p: int)
    requires
        0 <= p,
        p + 3 < s.len(),
        s[p] == 34,
        s[p + 1] == 92,
        simple_escape_char(s[p + 2]) is Some,
        s[p + 3] == 34,
    ensures
        lex_at(s, p) == LexOutcome::Token(
            SpecTokenKind::StringLiteral(seq![simple_escape_char(s[p + 2])->Some_0]),
            p + 4,
        ),
{
    lemma_simple_escapes(s, p + 1, seq![]);
    assert(seq![].push(simple_escape_char(s[p + 2])->Some_0) =~= seq![simple_escape_char(s[p + 2])->Some_0]);
}


/// The bytes of the decimal digits of `n`, most significant first.
pub open spec fn digits_of(n: nat) -> Seq<u8>
    decreases n,
{
    if n < 10 {
        seq![(n + 48) as u8]
    } else {
        digits_of(n / 10).push(((n % 10) + 48) as u8)
    }
}

proof fn lemma_digits_of(n: nat)
    ensures
        digits_of(n).len() >= 1,
        forall|i: int| 0 <= i < digits_of(n).len() ==> is_digit(#[trigger] digits_of(n)[i]),
        decimal_value(digits_of(n)) == n,
        bytes_text(digits_of(n)) == decimal_text(n),
    decreases n,
{
    if n >= 10 {
        lemma_digits_of(n / 10);
        let d = digits_of(n);
        assert(d.drop_last() =~= digits_of(n / 10));
        assert(d.last() == ((n % 10) + 48) as u8);
        assert(d.last() - 48 == n % 10);
        assert((n / 10) * 10 + n % 10 == n) by (nonlinear_arith);
        assert(decimal_value(d) == decimal_value(d.drop_last()) * 10 + (d.last() - 48));
        assert forall|i: int| 0 <= i < d.len() implies is_digit(#[trigger] d[i]) by {
            if i < d.len() - 1 {
                assert(d[i] == digits_of(n / 10)[i]);
            }
        }
        assert(bytes_text(d) =~= bytes_text(digits_of(n / 10)).push(digit_char((n % 10) as int)));
    } else {
        let d = digits_of(n);
        assert(d.drop_last() =~= Seq::<u8>::empty());
        assert(decimal_value(d.drop_last()) == 0);
        assert(d.last() - 48 == n);
        assert(decimal_value(d) == decimal_value(d.drop_last()) * 10 + (d.last() - 48));
        assert(bytes_text(digits_of(n)) =~= seq![digit_char(n as int)]);
    }
}

proof fn lemma_digit_run(s: Seq<u8>, p: int, len: int)
    requires
        0 <= p,
        p + len <= s.len(),
        0 <= len,
        forall|i: int| p <= i < p + len ==> is_digit(#[trigger] s[i]),
        p + len == s.len() || !is_digit(s[p + len]),
    ensures
        run_end(s, p, ByteClass::Digit) == p + len,
    decreases len,
{
    if len > 0 {
        lemma_digit_run(s, p + 1, len - 1);
    }
}

/// An integer literal reads as the number its digits write in decimal: where the bytes
/// from `p` are the decimal digits of `n` (at most `i64::MAX`), followed by no further
/// digit, the token there is the integer literal `n`, and it ends after the digits.
pub proof fn lemma_integer_literal_value(s: Seq<u8>, p: int, n: nat)
    requires
        0 <= p,
        n <= i64::MAX,
        p + digits_of(n).len() <= s.len(),
        s.subrange(p, p + digits_of(n).len()) == digits_of(n),
        p + digits_of(n).len() == s.len() || !is_digit(s[p + digits_of(n).len()]),
    ensures
        lex_at(s, p) == LexOutcome::Token(SpecTokenKind::IntLiteral(n as int), p + digits_of(n).len()),
        bytes_text(digits_of(n)) == decimal_text(n),
{
    lemma_digits_of(n);
    let len = digits_of(n).len() as int;
    assert forall|i: int| p <= i < p + len implies is_digit(#[trigger] s[i]) by {
        assert(s[i] == s.subrange(p, p + len)[i - p]);
    }
    lemma_digit_run(s, p, len);
    assert(s[p] == digits_of(n)[0]);
}


proof fn lemma_ident_run(s: Seq<u8>, p: int, e: int)
    requires
        0 <= p <= e <= s.len(),
        forall|i: int| p <= i < e ==> is_ident_byte(#[trigger] s[i]),
        e == s.len() || !is_ident_byte(s[e]),
    ensures
        run_end(s, p, ByteClass::Ident) == e,
    decreases e - p,
{
    if p < e {
        lemma_ident_run(s, p + 1, e);
    }
}

/// An identifier reads as the name its bytes spell: where the bytes from `p` up to `e`
/// start with a letter or `_`, go on with letters, digits and `_`, and no such byte
/// follows, the token there is the identifier whose characters are those bytes, one for
/// one, and it ends at `e`.
pub proof fn lemma_identifier_text(s: Seq<u8>, p: int, e: int)
    requires
        0 <= p < e <= s.len(),
        is_alpha(s[p]) || s[p] == 95,
        forall|i: int| p <= i < e ==> is_ident_byte(#[trigger] s[i]),
        e == s.len() || !is_ident_byte(s[e]),
    ensures
        lex_at(s, p) matches LexOutcome::Token(SpecTokenKind::Ident(name), end) && end == e && name.len() == e - p
            && forall|i: int| 0 <= i < e - p ==> #[trigger] name[i] == s[p + i] as char,
{
    lemma_ident_run(s, p + 1, e);
}

} // verus!
