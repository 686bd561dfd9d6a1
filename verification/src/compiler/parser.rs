//! The parser: reads the token stream into syntax-tree items, one root item at a time.
//!
//! The lexer runs ahead over the whole source when the parser is made; the tokens it
//! produced are read in order, and a lexing error surfaces at the point where the
//! parser asks for the token that could not be read.

use vstd::prelude::*;

use crate::compiler::ast;
use crate::compiler::ast::{
    Block, BlockItem, Ident, IntLiteral, Lambda, SigIdent, SigItem, SigKind, Signature,
    StrLiteral, Term,
};
use crate::compiler::error::{error_from_str, Code, Error};
use crate::compiler::hir_ast::{names_view, KindView};
use crate::compiler::lexer::{lex_from, Lexer};
use crate::compiler::span::Span;
use crate::compiler::token::{kind_debug, same_variant, SpecTokenKind, Token, TokenKind};
use crate::text::concat;

verus! {

/// Where a parameter list stands: a function head (names optional) or a lambda
/// (names required for identifier-started parameters).
#[derive(Copy, Clone)]
pub enum ParamContext {
    Params,
    Lambda,
}

pub struct Parser {
    tokens: Vec<Token>,
    failure: Option<Error>,
    pos: usize,
    allow_top_imports: bool,
    generic_param_stack: Vec<Vec<String>>,
}

impl Parser {
    /// The tokens the lexer produced, in order (ending with `Eof` when lexing succeeded).
    pub closed spec fn stream(&self) -> Seq<Token> {
        self.tokens@
    }

    /// The lexing error that ended the stream, if any.
    pub closed spec fn lex_failure(&self) -> Option<Error> {
        self.failure
    }

    /// The index in the stream of the next token to read.
    pub closed spec fn position(&self) -> int {
        self.pos as int
    }

    /// Whether an `@` import may still come (no other root item has been read yet).
    pub closed spec fn allows_imports(&self) -> bool {
        self.allow_top_imports
    }

    /// The generic parameters of the enclosing type definitions, innermost last.
    pub closed spec fn generic_scopes(&self) -> Seq<Vec<String>> {
        self.generic_param_stack@
    }

    pub closed spec fn wf(&self) -> bool {
        &&& self.pos <= self.tokens@.len()
        &&& self.failure is None ==> (self.tokens@.len() > 0 && self.tokens@.last().kind@
            == SpecTokenKind::Eof)
        &&& forall|i: int|
            0 <= i < self.tokens@.len() - 1 ==> (#[trigger] self.tokens@[i]).kind@
                != SpecTokenKind::Eof
        &&& self.failure is Some ==> forall|i: int|
            0 <= i < self.tokens@.len() ==> (#[trigger] self.tokens@[i]).kind@ != SpecTokenKind::Eof
    }

    /// A well-formed parser has not read past the end of its stream.
    pub proof fn lemma_position_in_stream(&self)
        requires
            self.wf(),
        ensures
            0 <= self.position() <= self.stream().len(),
    {
    }

    /// The kind of the token `k` places after the next one to read, where the stream holds it.
    pub open spec fn ahead(&self, k: int) -> Option<SpecTokenKind> {
        if 0 <= self.position() + k < self.stream().len() {
            Some(self.stream()[self.position() + k].kind@)
        } else {
            None
        }
    }

    /// Whether `name` is a generic parameter of an enclosing type definition.
    pub open spec fn generic_in_scope(&self, name: Seq<char>) -> bool {
        scopes_hold(self.generic_scopes(), name)
    }

    /// The stream and lexing error are those of `other`, and reading has not gone back.
    pub open spec fn continues(&self, other: &Parser) -> bool {
        &&& self.stream() == other.stream()
        &&& self.lex_failure() == other.lex_failure()
        &&& other.position() <= self.position()
    }

    /// Reads every token from the lexer, up to `Eof` or the first lexing error.
    pub fn new(lexer: Lexer) -> (p: Self)
        requires
            lexer.wf(),
        ensures
            p.wf(),
            p.position() == 0,
            p.allows_imports(),
            token_kinds(p.stream()) == lex_from(lexer.source(), lexer.position()),
            p.lex_failure() is None <==> (lex_from(lexer.source(), lexer.position()).len() > 0 && lex_from(
                lexer.source(),
                lexer.position(),
            ).last() == SpecTokenKind::Eof),
    {
        let ghost src = lexer.source();
        let ghost start = lexer.position();
        let mut lexer = lexer;
        let mut tokens: Vec<Token> = Vec::new();
        let mut failure: Option<Error> = None;
        loop
            invariant_except_break
                forall|i: int|
                    0 <= i < tokens@.len() ==> (#[trigger] tokens@[i]).kind@ != SpecTokenKind::Eof,
                token_kinds(tokens@) + lex_from(src, lexer.position()) == lex_from(src, start),
                failure is None,
            invariant
                lexer.wf(),
                lexer.source() == src,
            ensures
                failure is None ==> (tokens@.len() > 0 && tokens@.last().kind@
                    == SpecTokenKind::Eof),
                token_kinds(tokens@) == lex_from(src, start),
                failure is Some ==> forall|i: int|
                    0 <= i < tokens@.len() ==> (#[trigger] tokens@[i]).kind@ != SpecTokenKind::Eof,
                forall|i: int|
                    0 <= i < tokens@.len() - 1 ==> (#[trigger] tokens@[i]).kind@
                        != SpecTokenKind::Eof,
            decreases lexer.source().len() - lexer.position(),
        {
            let ghost before = lexer.position();
            proof {
                lexer.lemma_wf();
                lemma_skip_trivia_bounds(lexer.source(), before);
            }
            let ghost kinds_before = token_kinds(tokens@);
            match lexer.next_token() {
                Ok(token) => {
                    let is_eof = matches!(token.kind, TokenKind::Eof);
                    proof {
                        lemma_token_advances(src, skip_trivia_at(src, before));
                    }
                    tokens.push(token);
                    proof {
                        assert(token_kinds(tokens@) =~= kinds_before.push(token.kind@));
                        if is_eof {
                            assert(lex_from(src, before) == seq![SpecTokenKind::Eof]);
                        } else {
                            assert(lex_from(src, before) == seq![token.kind@] + lex_from(src, lexer.position()));
                        }
                        assert(token_kinds(tokens@) + lex_from(src, lexer.position()) =~= kinds_before + lex_from(
                            src,
                            before,
                        ) || is_eof);
                    }
                    if is_eof {
                        proof {
                            assert(token_kinds(tokens@) =~= kinds_before + lex_from(src, before));
                        }
                        break;
                    }
                },
                Err(e) => {
                    proof {
                        assert(lex_from(src, before) == Seq::<SpecTokenKind>::empty());
                        assert(token_kinds(tokens@) =~= kinds_before + lex_from(src, before));
                    }
                    failure = Some(e);
                    break;
                },
            }
        }
        proof {
            if failure is Some {
                let ks = token_kinds(tokens@);
                if ks.len() > 0 {
                    assert(ks.last() == tokens@[tokens@.len() - 1].kind@);
                }
            }
        }
        Parser { tokens, failure, pos: 0, allow_top_imports: true, generic_param_stack: Vec::new() }
    }

    // -----------------------------------------------------------------------
    // Reading tokens
    // -----------------------------------------------------------------------

    /// The next token, without consuming it.
    fn peek_token(&self) -> (r: Result<Token, Error>)
        requires
            self.wf(),
        ensures
            self.pos < self.tokens@.len() ==> (r matches Ok(t) && t.kind@
                == self.tokens@[self.pos as int].kind@ && t.span == self.tokens@[self.pos as int].span),
            self.pos >= self.tokens@.len() ==> match self.failure {
                Some(e) => r matches Err(err) && err.code == e.code && err.message@ == e.message@
                    && err.span == e.span,
                None => r matches Ok(t) && t.kind@ == SpecTokenKind::Eof,
            },
    {
        if self.pos < self.tokens.len() {
            Ok(self.tokens[self.pos].duplicate())
        } else {
            match &self.failure {
                Some(e) => Err(e.duplicate()),
                None => Ok(self.tokens[self.tokens.len() - 1].duplicate()),
            }
        }
    }

    /// Consumes and returns the next token.
    fn bump(&mut self) -> (r: Result<Token, Error>)
        requires
            old(self).wf(),
        ensures
            final(self).wf(),
            final(self).tokens == old(self).tokens,
            final(self).failure == old(self).failure,
            final(self).allow_top_imports == old(self).allow_top_imports,
            final(self).generic_param_stack@ == old(self).generic_param_stack@,
            old(self).pos < old(self).tokens@.len() ==> (final(self).pos == old(self).pos + 1 && (r
                matches Ok(t) && t.kind@ == old(self).tokens@[old(self).pos as int].kind@ && t.span
                == old(self).tokens@[old(self).pos as int].span)),
            old(self).pos >= old(self).tokens@.len() ==> (final(self).pos == old(self).pos
                && match old(self).failure {
                Some(e) => r matches Err(err) && err.code == e.code && err.message@ == e.message@
                    && err.span == e.span,
                None => r matches Ok(t) && t.kind@ == SpecTokenKind::Eof,
            }),
    {
        let r = self.peek_token();
        if self.pos < self.tokens.len() {
            self.pos = self.pos + 1;
        }
        r
    }

    /// Puts back the token just consumed.
    fn unbump(&mut self)
        requires
            old(self).wf(),
            old(self).pos > 0,
        ensures
            final(self).wf(),
            final(self).tokens == old(self).tokens,
            final(self).failure == old(self).failure,
            final(self).allow_top_imports == old(self).allow_top_imports,
            final(self).generic_param_stack@ == old(self).generic_param_stack@,
            final(self).pos == old(self).pos - 1,
    {
        self.pos = self.pos - 1;
    }

    /// Consumes the next token when it is of the same variant as `example`.
    fn consume_if(&mut self, example: &TokenKind) -> (r: Result<Option<Token>, Error>)
        requires
            old(self).wf(),
            example@ != SpecTokenKind::Eof,
        ensures
            final(self).wf(),
            final(self).tokens == old(self).tokens,
            final(self).failure == old(self).failure,
            final(self).allow_top_imports == old(self).allow_top_imports,
            final(self).generic_param_stack@ == old(self).generic_param_stack@,
            old(self).pos <= final(self).pos <= old(self).pos + 1,
            old(self).pos < old(self).tokens@.len() ==> (if same_variant(
                old(self).tokens@[old(self).pos as int].kind@,
                example@,
            ) {
                final(self).pos == old(self).pos + 1 && (r matches Ok(Some(t)) && t.kind@
                    == old(self).tokens@[old(self).pos as int].kind@)
            } else {
                final(self).pos == old(self).pos && r matches Ok(None)
            }),
            r matches Ok(Some(t)) ==> same_variant(t.kind@, example@),
            r matches Ok(Some(_)) ==> final(self).pos == old(self).pos + 1,
            old(self).pos >= old(self).tokens@.len() ==> match old(self).failure {
                Some(_) => r is Err,
                None => r matches Ok(None),
            },
    {
        let t = self.peek_token()?;
        if t.kind.same_variant(example) {
            proof {
                if self.pos >= self.tokens@.len() {
                    assert(self.failure is None);
                }
            }
            let b = self.bump();
            Ok(Some(b.unwrap()))
        } else {
            Ok(None)
        }
    }

    /// Consumes the next token, which must be of the same variant as `example`;
    /// otherwise the result is the error `expected <expected>` at that token.
    pub fn expect_token(&mut self, expected: &str, example: &TokenKind) -> (r: Result<Token, Error>)
        requires
            old(self).wf(),
            example@ != SpecTokenKind::Eof,
        ensures
            final(self).wf(),
            final(self).stream() == old(self).stream(),
            final(self).lex_failure() == old(self).lex_failure(),
            final(self).allows_imports() == old(self).allows_imports(),
            final(self).generic_scopes() == old(self).generic_scopes(),
            old(self).position() <= final(self).position() <= old(self).position() + 1,
            r matches Ok(t) ==> (same_variant(t.kind@, example@) && old(self).position()
                < old(self).stream().len() && t.kind@ == old(self).stream()[old(self).position()].kind@
                && t.span == old(self).stream()[old(self).position()].span && final(self).position()
                == old(self).position() + 1),
            old(self).position() < old(self).stream().len() && !same_variant(
                old(self).stream()[old(self).position()].kind@,
                example@,
            ) ==> (r matches Err(e) && e.code == Code::Parse && e.message@ == "expected "@
                + expected@ && e.span == old(self).stream()[old(self).position()].span),
            old(self).ahead(0) matches Some(k) && same_variant(k, example@) ==> r is Ok,
    {
        let token = self.bump()?;
        if token.kind.same_variant(example) {
            proof {
                if old(self).pos >= old(self).tokens@.len() {
                    assert(old(self).failure is None);
                }
            }
            Ok(token)
        } else {
            Err(Error::new(Code::Parse, concat("expected ", expected), token.span))
        }
    }

    fn skip_newlines(&mut self) -> (r: Result<(), Error>)
        requires
            old(self).wf(),
        ensures
            final(self).wf(),
            final(self).continues(old(self)),
            final(self).allow_top_imports == old(self).allow_top_imports,
            final(self).generic_param_stack@ == old(self).generic_param_stack@,
            r is Ok ==> forall|i: int|
                old(self).pos <= i < final(self).pos ==> (#[trigger] old(self).tokens@[i]).kind@
                    == SpecTokenKind::Newline,
            r is Ok && final(self).pos < final(self).tokens@.len() ==> final(self).tokens@[final(
            self).pos as int].kind@ != SpecTokenKind::Newline,
            r is Err ==> old(self).failure is Some && forall|i: int|
                old(self).pos <= i < old(self).tokens@.len() ==> (#[trigger] old(self).tokens@[i]).kind@
                    == SpecTokenKind::Newline,
            old(self).ahead(0) is Some && old(self).ahead(0) != Some(SpecTokenKind::Newline) ==> (r is Ok
                && final(self).pos == old(self).pos),
    {
        loop
            invariant
                self.wf(),
                self.continues(old(self)),
                self.allow_top_imports == old(self).allow_top_imports,
                self.generic_param_stack@ == old(self).generic_param_stack@,
                forall|i: int|
                    old(self).pos <= i < self.pos ==> (#[trigger] old(self).tokens@[i]).kind@
                        == SpecTokenKind::Newline,
            decreases self.tokens@.len() - self.pos,
        {
            match self.consume_if(&TokenKind::Newline)? {
                Some(_) => {},
                None => {
                    return Ok(());
                },
            }
        }
    }

    fn consume_block_item_separators(&mut self) -> (r: Result<(), Error>)
        requires
            old(self).wf(),
        ensures
            final(self).wf(),
            final(self).continues(old(self)),
            final(self).allow_top_imports == old(self).allow_top_imports,
            final(self).generic_param_stack@ == old(self).generic_param_stack@,
            r is Ok ==> forall|i: int|
                old(self).pos <= i < final(self).pos ==> is_separator(
                    (#[trigger] old(self).tokens@[i]).kind@,
                ),
            r is Ok && final(self).pos < final(self).tokens@.len() ==> !is_separator(
                final(self).tokens@[final(self).pos as int].kind@,
            ),
            r is Err ==> old(self).failure is Some && forall|i: int|
                old(self).pos <= i < old(self).tokens@.len() ==> is_separator(
                    (#[trigger] old(self).tokens@[i]).kind@,
                ),
            old(self).ahead(0) matches Some(k) && !is_separator(k) ==> (r is Ok && final(self).pos
                == old(self).pos),
    {
        loop
            invariant
                self.wf(),
                self.continues(old(self)),
                self.allow_top_imports == old(self).allow_top_imports,
                self.generic_param_stack@ == old(self).generic_param_stack@,
                forall|i: int|
                    old(self).pos <= i < self.pos ==> is_separator(
                        (#[trigger] old(self).tokens@[i]).kind@,
                    ),
            decreases self.tokens@.len() - self.pos,
        {
            if self.consume_if(&TokenKind::Semicolon)?.is_some() {
                continue;
            }
            if self.consume_if(&TokenKind::Newline)?.is_some() {
                continue;
            }
            return Ok(());
        }
    }

    /// Reads an identifier; anything else is the error `expected <expected>`.
    fn parse_identifier(&mut self, expected: &str) -> (r: Result<(String, Span), Error>)
        requires
            old(self).wf(),
        ensures
            final(self).wf(),
            final(self).continues(old(self)),
            final(self).allow_top_imports == old(self).allow_top_imports,
            final(self).generic_param_stack@ == old(self).generic_param_stack@,
            final(self).pos <= old(self).pos + 1,
            r matches Ok((name, span)) ==> (old(self).pos < old(self).tokens@.len()
                && old(self).tokens@[old(self).pos as int].kind@ == SpecTokenKind::Ident(name@)
                && span == old(self).tokens@[old(self).pos as int].span && final(self).pos
                == old(self).pos + 1),
            old(self).pos < old(self).tokens@.len() && !(old(self).tokens@[old(
            self).pos as int].kind@ is Ident) ==> (r matches Err(e) && e.code == Code::Parse
                && e.message@ == "expected "@ + expected@),
            old(self).ahead(0) matches Some(k) && k is Ident ==> r is Ok,
    {
        let token = self.bump()?;
        match token.kind {
            TokenKind::Ident(name) => Ok((name, token.span)),
            _ => Err(Error::new(Code::Parse, concat("expected ", expected), token.span)),
        }
    }

    // -----------------------------------------------------------------------
    // Items
    // -----------------------------------------------------------------------

    /// Reads the next root item; `None` at the end of the source.
    ///
    /// An `@` import needs a label, and imports must come before every other root
    /// item: once another item has been read, an import is an error.
    #[verifier::spinoff_prover]
    #[verifier::rlimit(50)]
    pub fn next(&mut self) -> (r: Result<Option<BlockItem>, Error>)
        requires
            old(self).wf(),
        ensures
            final(self).wf(),
            final(self).continues(old(self)),
            r matches Ok(Some(item)) ==> (item is Import ==> old(self).allows_imports()),
            r matches Ok(Some(item)) ==> final(self).allows_imports() == (old(
                self).allows_imports() && item is Import),
            r matches Ok(None) ==> final(self).allows_imports() == old(self).allows_imports(),
            r matches Ok(None) ==> old(self).lex_failure() is None,
            r matches Ok(Some(_)) ==> old(self).position() < final(self).position(),
            old(self).lex_failure() is None && (forall|i: int| old(self).position() <= i < old(self).stream().len() - 1
                ==> (#[trigger] old(self).stream()[i]).kind@ == SpecTokenKind::Newline) ==> r matches Ok(None),
            old(self).ahead(0) matches Some(SpecTokenKind::Import(_)) ==> (r matches Err(e) && e.code
                == Code::Parse && e.message@ == "imports must have a label (e.g. `printf: @/printf`)"@),
            old(self).lex_failure() is None && bare_call_at(token_kinds(old(self).stream()), old(self).position())
                ==> (r matches Ok(Some(item)) && item is Ident),
            old(self).lex_failure() is None ==> match (
                old(self).ahead(0),
                old(self).ahead(1),
                old(self).ahead(2),
                old(self).ahead(3),
                old(self).ahead(4),
                old(self).ahead(5),
            ) {
                (
                    Some(SpecTokenKind::Ident(n)),
                    Some(SpecTokenKind::Colon),
                    Some(SpecTokenKind::LParen),
                    Some(SpecTokenKind::Ident(t)),
                    Some(SpecTokenKind::RParen),
                    Some(k),
                ) => k != SpecTokenKind::LBrace && !old(self).generic_in_scope(t) ==> (r matches Ok(Some(BlockItem::SigDef { name: nm, sig, .. })) && nm@ == n
                    && sig@.items.len() == 1 && sig@.items[0].kind == KindView::Ident(t)),
                _ => true,
            },
            forall|es: Seq<(Seq<char>, Seq<char>)>|
                #[trigger] typed_definition(token_kinds(old(self).stream()), old(self).position(), old(self).generic_scopes(), es)
                    ==> (r matches Ok(Some(item)) ==> (item matches BlockItem::FunctionDef { name: nm, lambda, .. } && nm@
                == old(self).ahead(0)->Some_0->Ident_0 && typed_params_of(lambda, es))),
            old(self).lex_failure() is None && defines_names_function(token_kinds(old(self).stream()), old(self).position())
                ==> (r matches Ok(Some(BlockItem::FunctionDef { name: nm, lambda, .. })) && nm@ == old(self).ahead(
                0,
            )->Some_0->Ident_0 && names_lambda(
                lambda,
                names_until_brace(token_kinds(old(self).stream()), old(self).position() + 5)->Some_0,
            )),
            old(self).lex_failure() is None && old(self).allows_imports() ==> match (
                old(self).ahead(0),
                old(self).ahead(1),
                old(self).ahead(2),
            ) {
                (
                    Some(SpecTokenKind::Ident(n)),
                    Some(SpecTokenKind::Colon),
                    Some(SpecTokenKind::Import(target)),
                ) => r matches Ok(Some(BlockItem::Import { label: l, path: pa, .. })) && l@ == n && pa@ == target,
                _ => true,
            },
    {
        let ghost bare = old(self).lex_failure() is None && bare_call_at(
            token_kinds(old(self).stream()),
            old(self).position(),
        );
        let ghost call_at: int = if bare {
            choose|i: int|
                old(self).position() <= i && i + 1 < token_kinds(old(self).stream()).len() && (forall|j: int|
                    old(self).position() <= j < i ==> token_kinds(old(self).stream())[j] == SpecTokenKind::Newline)
                    && #[trigger] token_kinds(old(self).stream())[i] is Ident && token_kinds(old(self).stream())[i
                    + 1] != SpecTokenKind::Colon && token_kinds(old(self).stream())[i + 1] != SpecTokenKind::LParen
        } else {
            0
        };
        self.skip_newlines()?;
        proof {
            if bare {
                let ks = token_kinds(old(self).stream());
                assert(ks[call_at] == self.tokens@[call_at].kind@);
                if self.pos > call_at {
                    assert(old(self).tokens@[call_at].kind@ == SpecTokenKind::Newline);
                }
                if self.pos < call_at {
                    assert(ks[self.pos as int] == SpecTokenKind::Newline);
                }
                assert(self.pos == call_at);
                assert(ks[call_at + 1] == self.tokens@[call_at + 1].kind@);
            }
        }
        let token = self.peek_token()?;
        match token.kind {
            TokenKind::Eof => Ok(None),
            TokenKind::Import(_) => Err(
                error_from_str(
                    Code::Parse,
                    "imports must have a label (e.g. `printf: @/printf`)",
                    token.span,
                ),
            ),
            _ => {
                let ghost mid = *self;
                let item = self.parse_block_item()?;
                proof {
                    assert forall|es: Seq<(Seq<char>, Seq<char>)>|
                        #[trigger] typed_definition(
                            token_kinds(old(self).stream()),
                            old(self).position(),
                            old(self).generic_scopes(),
                            es,
                        ) implies (item matches BlockItem::FunctionDef { name: nm, lambda, .. } && nm@ == old(
                        self).ahead(0)->Some_0->Ident_0 && typed_params_of(lambda, es)) by {
                        assert(old(self).tokens@[old(self).pos as int].kind@ == token_kinds(old(self).stream())[old(
                            self).position()]);
                        assert(mid.pos == old(self).pos);
                        assert(typed_definition(token_kinds(mid.stream()), mid.position(), mid.generic_scopes(), es));
                    }
                }
                let item_span = item.span();
                let is_import = matches!(&item, BlockItem::Import { .. });
                if is_import {
                    if !self.allow_top_imports {
                        return Err(
                            error_from_str(
                                Code::Parse,
                                "@ imports must appear before any other items",
                                item_span,
                            ),
                        );
                    }
                } else {
                    self.allow_top_imports = false;
                }
                self.consume_block_item_separators()?;
                Ok(Some(item))
            },
        }
    }

    fn parse_block_item(&mut self) -> (r: Result<BlockItem, Error>)
        requires
            old(self).wf(),
        ensures
            final(self).wf(),
            final(self).continues(old(self)),
            final(self).allow_top_imports == old(self).allow_top_imports,
            final(self).generic_param_stack@ == old(self).generic_param_stack@,
            r is Ok ==> old(self).pos < final(self).pos,
            old(self).ahead(0) matches Some(k) && !(k is Ident || k is LParen || k is LBrace || k is Newline)
                ==> (r matches Err(e) && e.code == Code::Parse && e.message@ == "expected a top-level item"@),
            match (old(self).ahead(0), old(self).ahead(1), old(self).ahead(2)) {
                (
                    Some(SpecTokenKind::Ident(n)),
                    Some(SpecTokenKind::Colon),
                    Some(SpecTokenKind::Import(target)),
                ) => r matches Ok(BlockItem::Import { label: l, path: pa, .. }) && l@ == n && pa@ == target
                    && final(self).pos == old(self).pos + 3,
                (Some(SpecTokenKind::Ident(n)), Some(k), _) => k != SpecTokenKind::Colon && k
                    != SpecTokenKind::LParen ==> (r matches Ok(BlockItem::Ident(id)) && id.name@ == n
                    && id.args@.len() == 0 && final(self).pos == old(self).pos + 1),
                _ => true,
            },
            match (
                old(self).ahead(0),
                old(self).ahead(1),
                old(self).ahead(2),
                old(self).ahead(3),
                old(self).ahead(4),
                old(self).ahead(5),
            ) {
                (
                    Some(SpecTokenKind::Ident(n)),
                    Some(SpecTokenKind::Colon),
                    Some(SpecTokenKind::LParen),
                    Some(SpecTokenKind::Ident(t)),
                    Some(SpecTokenKind::RParen),
                    Some(k),
                ) => k != SpecTokenKind::LBrace && !old(self).generic_in_scope(t) ==> (r matches Ok(BlockItem::SigDef { name: nm, sig, .. }) && nm@ == n
                    && sig@.items.len() == 1 && sig@.items[0].kind == KindView::Ident(t)),
                _ => true,
            },
            forall|es: Seq<(Seq<char>, Seq<char>)>|
                #[trigger] typed_definition(token_kinds(old(self).stream()), old(self).position(), old(self).generic_scopes(), es)
                    ==> (r is Ok ==> (r matches Ok(BlockItem::FunctionDef { name: nm, lambda, .. }) && nm@ == old(
                self).ahead(0)->Some_0->Ident_0 && typed_params_of(lambda, es))),
            defines_names_function(token_kinds(old(self).stream()), old(self).position()) ==> (r matches Ok(
            BlockItem::FunctionDef { name: nm, lambda, .. }) && nm@ == old(self).ahead(0)->Some_0->Ident_0
                && names_lambda(lambda, names_until_brace(token_kinds(old(self).stream()), old(self).position() + 5)->Some_0)),
        decreases old(self).tokens@.len() - old(self).pos, 8nat,
    {
        self.skip_newlines()?;
        let token = self.peek_token()?;
        let span = token.span;
        match token.kind {
            TokenKind::Ident(name) => {
                let ident = self.bump()?;
                let colon = self.peek_token()?;
                if matches!(colon.kind, TokenKind::Colon) {
                    self.bump()?;
                    let next = self.peek_token()?;
                    if let TokenKind::Import(path) = next.kind {
                        self.bump()?;
                        return Ok(BlockItem::Import { label: name, path, span });
                    }
                    let ghost mid = *self;
                    let bound = self.parse_bind(name, span);
                    proof {
                        assert forall|es: Seq<(Seq<char>, Seq<char>)>|
                            #[trigger] typed_definition(
                                token_kinds(old(self).stream()),
                                old(self).position(),
                                old(self).generic_scopes(),
                                es,
                            ) implies (bound is Ok ==> (bound matches Ok(BlockItem::FunctionDef { name: nm, lambda, .. })
                            && nm@ == old(self).ahead(0)->Some_0->Ident_0 && typed_params_of(lambda, es))) by {
                            assert(typed_head(token_kinds(mid.stream()), mid.position(), mid.generic_scopes(), es));
                        }
                    }
                    return bound;
                }
                // Not a definition: read it again as the head of an execution.
                self.unbump();
            },
            TokenKind::LParen => {
                return self.parse_lambda_or_scope_capture();
            },
            TokenKind::LBrace => {},
            _ => {
                return Err(error_from_str(Code::Parse, "expected a top-level item", span));
            },
        }
        let term = self.parse_term()?;
        match term {
            Term::Int(literal) => Err(
                error_from_str(Code::Parse, "literals cannot be called yet", literal.span),
            ),
            Term::String(literal) => Err(
                error_from_str(Code::Parse, "literals cannot be called yet", literal.span),
            ),
            Term::Ident(ident) => Ok(BlockItem::Ident(ident)),
            Term::Lambda(lambda) => Ok(BlockItem::Lambda(lambda)),
        }
    }

    /// After `name:`: a function, a signature alias, a literal or an identifier alias.
    fn parse_bind(&mut self, name: String, name_span: Span) -> (r: Result<BlockItem, Error>)
        requires
            old(self).wf(),
        ensures
            final(self).wf(),
            final(self).continues(old(self)),
            final(self).allow_top_imports == old(self).allow_top_imports,
            final(self).generic_param_stack@ == old(self).generic_param_stack@,
            r is Ok ==> old(self).pos < final(self).pos,
            match (old(self).ahead(0), old(self).ahead(1)) {
                (Some(SpecTokenKind::IntLiteral(v)), Some(k)) => k != SpecTokenKind::LParen ==> (r matches Ok(
                BlockItem::IntDef { name: nm, literal, .. }) && nm@ == name@ && literal.value == v
                    && final(self).pos == old(self).pos + 1),
                (Some(SpecTokenKind::StringLiteral(v)), Some(k)) => k != SpecTokenKind::LParen ==> (r matches Ok(
                BlockItem::StrDef { name: nm, literal, .. }) && nm@ == name@ && literal.value@ == v
                    && final(self).pos == old(self).pos + 1),
                (Some(SpecTokenKind::Ident(m)), Some(k)) => k != SpecTokenKind::LParen ==> (r matches Ok(
                BlockItem::IdentDef { name: nm, ident, .. }) && nm@ == name@ && ident.name@ == m
                    && ident.args@.len() == 0 && final(self).pos == old(self).pos + 1),
                _ => true,
            },
            match (old(self).ahead(0), old(self).ahead(1), old(self).ahead(2)) {
                (Some(SpecTokenKind::LParen), Some(SpecTokenKind::RParen), Some(k)) => k
                    != SpecTokenKind::LBrace ==> (r matches Ok(BlockItem::SigDef { name: nm, sig, .. })
                    && nm@ == name@ && sig@.items.len() == 0 && final(self).pos == old(self).pos + 2),
                _ => true,
            },
            match (old(self).ahead(0), old(self).ahead(1), old(self).ahead(2), old(self).ahead(3)) {
                (
                    Some(SpecTokenKind::LParen),
                    Some(SpecTokenKind::Ident(t)),
                    Some(SpecTokenKind::RParen),
                    Some(k),
                ) => k != SpecTokenKind::LBrace && !old(self).generic_in_scope(t) ==> (r matches Ok(
                BlockItem::SigDef { name: nm, sig, .. }) && nm@ == name@ && sig@.items.len() == 1 && sig@.items[0].kind
                    == KindView::Ident(t) && final(self).pos == old(self).pos + 3),
                _ => true,
            },
            forall|es: Seq<(Seq<char>, Seq<char>)>|
                #[trigger] typed_head(token_kinds(old(self).stream()), old(self).position(), old(self).generic_scopes(), es)
                    ==> (r is Ok ==> (r matches Ok(BlockItem::FunctionDef { name: nm, lambda, .. }) && nm@ == name@
                    && lambda.params.items@.len() == es.len() && forall|i: int|
                    0 <= i < es.len() ==> typed_item(#[trigger] lambda.params.items@[i], es[i].0, es[i].1))),
            match (old(self).ahead(0), old(self).ahead(1), old(self).ahead(2)) {
                (Some(SpecTokenKind::LParen), Some(SpecTokenKind::RParen), Some(SpecTokenKind::LBrace)) => match names_until_brace(
                    token_kinds(old(self).stream()),
                    old(self).position() + 3,
                ) {
                    Some(ns) => ns.len() > 0 ==> (r matches Ok(BlockItem::FunctionDef { name: nm, lambda, .. })
                        && nm@ == name@ && names_lambda(lambda, ns)),
                    None => true,
                },
                _ => true,
            },
        decreases old(self).tokens@.len() - old(self).pos, 7nat,
    {
        let generics = self.parse_generic_params()?;
        let next_token = self.peek_token()?;
        let params_span = next_token.span;
        let has_head = matches!(next_token.kind, TokenKind::LParen);
        let has_brace = matches!(next_token.kind, TokenKind::LBrace);

        if has_brace && generics.len() > 0 {
            return Err(
                error_from_str(
                    Code::Parse,
                    "generics are only supported on type aliases",
                    next_token.span,
                ),
            );
        }
        if has_head || has_brace {
            let mut params = if has_head {
                let ghost scopes_before = self.generic_param_stack@;
                self.generic_param_stack.push(clone_strings(&generics));
                proof {
                    if generics@.len() == 0 {
                        assert forall|t: Seq<char>| self.generic_in_scope(t) == old(self).generic_in_scope(t) by {
                            if self.generic_in_scope(t) {
                                let (i, j) = choose|i: int, j: int|
                                    0 <= i < self.generic_scopes().len() && 0 <= j < self.generic_scopes()[i]@.len()
                                        && #[trigger] self.generic_scopes()[i]@[j]@ == t;
                                let last = self.generic_scopes()[scopes_before.len() as int];
                                assert(names_view(last@).len() == names_view(generics@).len());
                                assert(i < scopes_before.len());
                                assert(self.generic_scopes()[i] == old(self).generic_scopes()[i]);
                            }
                            if old(self).generic_in_scope(t) {
                                let (i, j) = choose|i: int, j: int|
                                    0 <= i < old(self).generic_scopes().len() && 0 <= j < old(self).generic_scopes()[i]@.len()
                                        && #[trigger] old(self).generic_scopes()[i]@[j]@ == t;
                                assert(self.generic_scopes()[i] == old(self).generic_scopes()[i]);
                            }
                        }
                    }
                }
                let parsed = self.parse_params(ParamContext::Params);
                let _ = self.generic_param_stack.pop();
                parsed?
            } else {
                Signature { items: Vec::new(), span: params_span, generics: Vec::new() }
            };
            let after = self.peek_token()?;
            if matches!(after.kind, TokenKind::LBrace) {
                let brace = self.expect_token("{", &TokenKind::LBrace)?;
                let body = self.parse_body(brace.span)?;
                self.expect_token("}", &TokenKind::RBrace)?;
                params.generics = generics;
                let lambda = Lambda { params, body, args: Vec::new(), span: name_span };
                return Ok(BlockItem::FunctionDef { name, lambda, span: name_span });
            }
            if has_head {
                let param_types = collect_param_kinds(&params.items);
                let mut target = Signature::from_kinds(param_types, params_span);
                target.generics = generics;
                return Ok(BlockItem::SigDef { name, sig: target, span: name_span });
            }
        }
        let term = self.parse_term()?;
        let term_span = term.span();
        match term {
            Term::Int(literal) => Ok(BlockItem::IntDef { name, literal, span: name_span }),
            Term::String(literal) => Ok(BlockItem::StrDef { name, literal, span: name_span }),
            Term::Ident(ident) => Ok(BlockItem::IdentDef { name, ident, span: name_span }),
            Term::Lambda(_) => Err(
                error_from_str(
                    Code::Parse,
                    "expected a literal or identifier alias on the right-hand side",
                    term_span,
                ),
            ),
        }
    }

    /// After a parameter list that starts an item: `(params) = term` (scope capture) or
    /// `(params) { body }(args)` (an executed lambda).
    fn parse_lambda_or_scope_capture(&mut self) -> (r: Result<BlockItem, Error>)
        requires
            old(self).wf(),
        ensures
            final(self).wf(),
            final(self).continues(old(self)),
            final(self).allow_top_imports == old(self).allow_top_imports,
            final(self).generic_param_stack@ == old(self).generic_param_stack@,
            r is Ok ==> old(self).pos < final(self).pos,
            old(self).ahead(0) matches Some(k) && k != SpecTokenKind::LParen ==> (r matches Err(e)
                && e.code == Code::Parse && e.message@ == "expected ("@),
            match (old(self).ahead(0), old(self).ahead(1), old(self).ahead(2)) {
                (Some(SpecTokenKind::LParen), Some(SpecTokenKind::RParen), Some(k)) => k
                    != SpecTokenKind::Equals && k != SpecTokenKind::LBrace ==> (r matches Err(e) && e.code
                    == Code::Parse && e.message@ == "expected '=' or '{' after parameter list"@),
                _ => true,
            },
            match (old(self).ahead(0), old(self).ahead(1), old(self).ahead(2), old(self).ahead(3), old(self).ahead(4)) {
                (
                    Some(SpecTokenKind::LParen),
                    Some(SpecTokenKind::RParen),
                    Some(SpecTokenKind::Equals),
                    Some(SpecTokenKind::Ident(a)),
                    Some(k),
                ) => k != SpecTokenKind::LParen ==> match names_until_brace(
                    token_kinds(old(self).stream()),
                    old(self).position() + 4,
                ) {
                    Some(ns) => ns.len() > 0 ==> (r matches Ok(BlockItem::ScopeCapture { params, continuation, term, .. })
                        && params.items@.len() == 0 && head_leaf(term, SpecTokenKind::Ident(a))
                        && continuation.items@.len() == ns.len() && (forall|i: int|
                        0 <= i < ns.len() ==> (#[trigger] continuation.items@[i] matches BlockItem::Ident(id) && id.name@
                            == ns[i] && id.args@.len() == 0))),
                    None => true,
                },
                _ => true,
            },
        decreases old(self).tokens@.len() - old(self).pos, 7nat,
    {
        let params = self.parse_params(ParamContext::Lambda)?;
        let span = params.span;
        let next = self.peek_token()?;
        match next.kind {
            TokenKind::Equals => {
                self.bump()?;
                let term = self.parse_term()?;
                let continuation = self.parse_body(span)?;
                Ok(BlockItem::ScopeCapture { params, continuation, term, span })
            },
            TokenKind::LBrace => {
                let term = self.parse_term()?;
                match term {
                    Term::Lambda(lambda) => {
                        let mut lambda = lambda;
                        lambda.params = params;
                        Ok(BlockItem::Lambda(lambda))
                    },
                    _ => Err(
                        error_from_str(
                            Code::Parse,
                            "expected lambda body after parameter list",
                            span,
                        ),
                    ),
                }
            },
            _ => Err(
                error_from_str(Code::Parse, "expected '=' or '{' after parameter list", span),
            ),
        }
    }

    // -----------------------------------------------------------------------
    // Terms
    // -----------------------------------------------------------------------

    /// A head term followed by any number of argument lists. Only an identifier or a
    /// lambda can take arguments: a literal followed by `(` is an error.
    fn parse_term(&mut self) -> (r: Result<Term, Error>)
        requires
            old(self).wf(),
        ensures
            final(self).wf(),
            final(self).continues(old(self)),
            final(self).allow_top_imports == old(self).allow_top_imports,
            final(self).generic_param_stack@ == old(self).generic_param_stack@,
            r is Ok ==> old(self).pos < final(self).pos,
            match (old(self).ahead(0), old(self).ahead(1)) {
                (Some(SpecTokenKind::IntLiteral(v)), Some(k)) => if k == SpecTokenKind::LParen {
                    r is Err
                } else {
                    r matches Ok(Term::Int(lit)) && lit.value == v && final(self).pos == old(self).pos + 1
                },
                (Some(SpecTokenKind::StringLiteral(v)), Some(k)) => if k == SpecTokenKind::LParen {
                    r is Err
                } else {
                    r matches Ok(Term::String(lit)) && lit.value@ == v && final(self).pos == old(self).pos
                        + 1
                },
                (Some(SpecTokenKind::Ident(n)), Some(k)) => k != SpecTokenKind::LParen ==> (r matches Ok(
                Term::Ident(id)) && id.name@ == n && id.args@.len() == 0 && final(self).pos == old(
                self).pos + 1),
                _ => true,
            },
            match (old(self).ahead(0), old(self).ahead(1)) {
                (Some(SpecTokenKind::Ident(n)), Some(SpecTokenKind::LParen)) => match name_args(
                    token_kinds(old(self).stream()),
                    old(self).position() + 2,
                ) {
                    Some((ns, end)) => end < old(self).stream().len() && token_kinds(old(self).stream())[end]
                        != SpecTokenKind::LParen ==> (r matches Ok(Term::Ident(id)) && id.name@ == n && names_terms(
                        id.args@,
                        ns,
                    ) && final(self).position() == end),
                    None => true,
                },
                _ => true,
            },
        decreases old(self).tokens@.len() - old(self).pos, 6nat,
    {
        let ghost kinds = token_kinds(old(self).stream());
        let ghost call = match (old(self).ahead(0), old(self).ahead(1)) {
            (Some(SpecTokenKind::Ident(_)), Some(SpecTokenKind::LParen)) => match name_args(
                kinds,
                old(self).position() + 2,
            ) {
                Some((_, end)) => end < old(self).stream().len() && kinds[end] != SpecTokenKind::LParen,
                None => false,
            },
            _ => false,
        };
        let ghost ns = name_args(kinds, old(self).position() + 2)->Some_0.0;
        let ghost end = name_args(kinds, old(self).position() + 2)->Some_0.1;
        let mut term = self.parse_head()?;
        loop
            invariant
                kinds == token_kinds(old(self).stream()),
                call == match (old(self).ahead(0), old(self).ahead(1)) {
                    (Some(SpecTokenKind::Ident(_)), Some(SpecTokenKind::LParen)) => match name_args(
                        kinds,
                        old(self).position() + 2,
                    ) {
                        Some((_, end)) => end < old(self).stream().len() && kinds[end] != SpecTokenKind::LParen,
                        None => false,
                    },
                    _ => false,
                },
                ns == name_args(kinds, old(self).position() + 2)->Some_0.0,
                end == name_args(kinds, old(self).position() + 2)->Some_0.1,
                call ==> ((self.pos == old(self).pos + 1 && head_leaf(term, old(self).ahead(0)->Some_0)) || (
                self.pos == end && (term matches Term::Ident(id) && id.name@ == old(self).ahead(0)->Some_0->Ident_0
                    && names_terms(id.args@, ns)))),
                match old(self).ahead(0) {
                    Some(k) => (k is IntLiteral || k is StringLiteral || (k is Ident && old(self).ahead(1)
                        != Some(SpecTokenKind::LParen))) ==> (self.pos == old(self).pos + 1 && head_leaf(
                        term,
                        k,
                    )),
                    None => true,
                },
                self.wf(),
                self.continues(old(self)),
                old(self).pos < self.pos,
                self.allow_top_imports == old(self).allow_top_imports,
                self.generic_param_stack@ == old(self).generic_param_stack@,
            decreases self.tokens@.len() - self.pos,
        {
            let next = self.peek_token()?;
            if !matches!(next.kind, TokenKind::LParen) {
                return Ok(term);
            }
            proof {
                if call && self.pos == end {
                    assert(kinds[end] == self.tokens@[end].kind@);
                }
            }
            let lparen = self.bump()?;
            let args = self.parse_argument_list()?;
            proof {
                if call {
                    assert(self.pos == end);
                    assert(args@ =~= Seq::<Term>::empty() + args@);
                }
            }
            match term {
                Term::Ident(ident) => {
                    let mut ident = ident;
                    append_terms(&mut ident.args, args);
                    term = Term::Ident(ident);
                },
                Term::Lambda(lambda) => {
                    let mut lambda = lambda;
                    append_terms(&mut lambda.args, args);
                    term = Term::Lambda(lambda);
                },
                _ => {
                    return Err(
                        error_from_str(
                            Code::Parse,
                            "expected identifier or lambda before argument list",
                            lparen.span,
                        ),
                    );
                },
            }
        }
    }

    /// A literal, an identifier, or a lambda (`(params) { body }` or `{ body }`).
    fn parse_head(&mut self) -> (r: Result<Term, Error>)
        requires
            old(self).wf(),
        ensures
            final(self).wf(),
            final(self).continues(old(self)),
            final(self).allow_top_imports == old(self).allow_top_imports,
            final(self).generic_param_stack@ == old(self).generic_param_stack@,
            r is Ok ==> old(self).pos < final(self).pos,
            match old(self).ahead(0) {
                Some(SpecTokenKind::IntLiteral(v)) => r matches Ok(Term::Int(lit)) && lit.value == v
                    && lit.span == old(self).stream()[old(self).position()].span && final(self).pos
                    == old(self).pos + 1,
                Some(SpecTokenKind::StringLiteral(v)) => r matches Ok(Term::String(lit)) && lit.value@
                    == v && lit.span == old(self).stream()[old(self).position()].span && final(self).pos
                    == old(self).pos + 1,
                Some(SpecTokenKind::Ident(n)) => r matches Ok(Term::Ident(id)) && id.name@ == n
                    && id.args@.len() == 0 && id.span == old(self).stream()[old(self).position()].span
                    && final(self).pos == old(self).pos + 1,
                Some(k) => !(k is LParen || k is LBrace || k is Newline) ==> (r matches Err(e) && e.code
                    == Code::Parse && e.message@ == "unexpected token: "@ + kind_debug(k)),
                None => true,
            },
        decreases old(self).tokens@.len() - old(self).pos, 5nat,
    {
        self.skip_newlines()?;
        let token = self.bump()?;
        match token.kind {
            TokenKind::IntLiteral(value) => Ok(Term::Int(IntLiteral { value, span: token.span })),
            TokenKind::StringLiteral(value) => Ok(
                Term::String(StrLiteral { value, span: token.span }),
            ),
            TokenKind::Ident(name) => Ok(Term::Ident(Ident { name, args: Vec::new(), span: token.span })),
            TokenKind::LParen => {
                self.unbump();
                let params = self.parse_params(ParamContext::Lambda)?;
                let brace = self.expect_token("{", &TokenKind::LBrace)?;
                let body = self.parse_body(brace.span)?;
                self.expect_token("}", &TokenKind::RBrace)?;
                Ok(Term::Lambda(Lambda { params, body, args: Vec::new(), span: token.span }))
            },
            TokenKind::LBrace => {
                let params = Signature { items: Vec::new(), span: token.span, generics: Vec::new() };
                let body = self.parse_body(token.span)?;
                self.expect_token("}", &TokenKind::RBrace)?;
                Ok(Term::Lambda(Lambda { params, body, args: Vec::new(), span: token.span }))
            },
            other => {
                let text = concat("unexpected token: ", other.debug_text().as_str());
                Err(Error::new(Code::Parse, text, token.span))
            },
        }
    }

    /// The terms of an argument list whose `(` has been read, up to and including `)`.
    fn parse_argument_list(&mut self) -> (r: Result<Vec<Term>, Error>)
        requires
            old(self).wf(),
        ensures
            final(self).wf(),
            final(self).continues(old(self)),
            final(self).allow_top_imports == old(self).allow_top_imports,
            final(self).generic_param_stack@ == old(self).generic_param_stack@,
            r is Ok ==> (old(self).pos < final(self).pos && final(self).tokens@[final(self).pos - 1].kind@
                == SpecTokenKind::RParen),
            old(self).ahead(0) == Some(SpecTokenKind::RParen) ==> (r matches Ok(v) && v@.len() == 0
                && final(self).pos == old(self).pos + 1),
            match (old(self).ahead(0), old(self).ahead(1)) {
                (Some(SpecTokenKind::Ident(n)), Some(SpecTokenKind::RParen)) => r matches Ok(v) && v@.len()
                    == 1 && final(self).pos == old(self).pos + 2 && (v@[0] matches Term::Ident(id)
                    && id.name@ == n && id.args@.len() == 0),
                _ => true,
            },
            match name_args(token_kinds(old(self).stream()), old(self).position()) {
                Some((ns, end)) => r matches Ok(v) && names_terms(v@, ns) && final(self).position() == end,
                None => true,
            },
        decreases old(self).tokens@.len() - old(self).pos, 7nat,
    {
        let mut args: Vec<Term> = Vec::new();
        let ghost kinds = token_kinds(old(self).stream());
        let ghost listed = name_args(kinds, old(self).position());
        let ghost ns = listed->Some_0.0;
        let ghost end = listed->Some_0.1;
        proof {
            if old(self).pos < old(self).tokens@.len() {
                assert(kinds[old(self).pos as int] == old(self).tokens@[old(self).pos as int].kind@);
            }
        }
        if self.consume_if(&TokenKind::RParen)?.is_some() {
            return Ok(args);
        }
        let ghost single = match (old(self).ahead(0), old(self).ahead(1)) {
            (Some(SpecTokenKind::Ident(_)), Some(SpecTokenKind::RParen)) => true,
            _ => false,
        };
        loop
            invariant_except_break
                single ==> (args@.len() == 0 && self.pos == old(self).pos),
                listed is Some ==> (args@.len() < ns.len() && name_list(kinds, self.pos as int) == Some(
                    (ns.skip(args@.len() as int), end),
                ) && names_terms(args@, ns.take(args@.len() as int))),
            invariant
                kinds == token_kinds(old(self).stream()),
                listed == name_args(kinds, old(self).position()),
                ns == listed->Some_0.0,
                end == listed->Some_0.1,
                single == match (old(self).ahead(0), old(self).ahead(1)) {
                    (Some(SpecTokenKind::Ident(_)), Some(SpecTokenKind::RParen)) => true,
                    _ => false,
                },
                old(self).ahead(0) != Some(SpecTokenKind::RParen),
                self.wf(),
                self.continues(old(self)),
                self.allow_top_imports == old(self).allow_top_imports,
                self.generic_param_stack@ == old(self).generic_param_stack@,
            ensures
                single ==> (args@.len() == 1 && head_leaf(args@[0], old(self).ahead(0)->Some_0)
                    && self.pos == old(self).pos + 1),
                listed is Some ==> (names_terms(args@, ns) && self.pos + 1 == end && self.ahead(0) == Some(
                    SpecTokenKind::RParen,
                )),
            decreases self.tokens@.len() - self.pos,
        {
            let ghost q = self.pos as int;
            let ghost before = args@;
            proof {
                if listed is Some {
                    assert(kinds[q] == self.tokens@[q].kind@);
                    assert(kinds[q + 1] == self.tokens@[q + 1].kind@);
                }
            }
            let term = self.parse_term()?;
            args.push(term);
            proof {
                if listed is Some {
                    let rest = ns.skip(before.len() as int);
                    assert(rest[0] == ns[before.len() as int]);
                    assert(ns.take(args@.len() as int) =~= ns.take(before.len() as int).push(ns[before.len() as int]));
                    assert forall|i: int| 0 <= i < args@.len() implies (#[trigger] args@[i] matches Term::Ident(id)
                        && id.name@ == ns.take(args@.len() as int)[i] && id.args@.len() == 0) by {
                        if i < before.len() {
                            assert(args@[i] == before[i]);
                        }
                    }
                }
            }
            if self.consume_if(&TokenKind::Comma)?.is_none() {
                proof {
                    if listed is Some {
                        assert(self.pos == q + 1);
                        assert(kinds[q + 1] == self.tokens@[q + 1].kind@);
                        assert(kinds[q + 1] != SpecTokenKind::Comma);
                        assert(kinds[q + 1] == SpecTokenKind::RParen);
                        assert(ns.skip(before.len() as int).len() == 1);
                        assert(ns.skip(args@.len() as int).len() == 0);
                        assert(ns.take(args@.len() as int) =~= ns);
                    }
                }
                break;
            }
            proof {
                if listed is Some {
                    assert(ns.skip(args@.len() as int) =~= ns.skip(before.len() as int).drop_first());
                }
            }
        }
        self.expect_token(")", &TokenKind::RParen)?;
        Ok(args)
    }

    // -----------------------------------------------------------------------
    // Signatures and types
    // -----------------------------------------------------------------------

    /// `(item, item, ...)`: the parameter list that starts at the next token.
    fn parse_params(&mut self, context: ParamContext) -> (r: Result<Signature, Error>)
        requires
            old(self).wf(),
        ensures
            final(self).wf(),
            final(self).continues(old(self)),
            final(self).allow_top_imports == old(self).allow_top_imports,
            final(self).generic_param_stack@ == old(self).generic_param_stack@,
            r matches Ok(sig) ==> (old(self).pos < old(self).tokens@.len() && old(self).tokens@[old(
            self).pos as int].kind@ == SpecTokenKind::LParen && sig.span == old(self).tokens@[old(
            self).pos as int].span && sig.generics@.len() == 0),
            r is Ok ==> old(self).pos < final(self).pos,
            r is Ok ==> final(self).tokens@[final(self).pos - 1].kind@ == SpecTokenKind::RParen,
            old(self).ahead(0) matches Some(k) && k != SpecTokenKind::LParen ==> (r matches Err(e)
                && e.code == Code::Parse && e.message@ == "expected ("@),
            old(self).ahead(0) == Some(SpecTokenKind::LParen) && old(self).ahead(1) == Some(
                SpecTokenKind::RParen) ==> (r matches Ok(sig) && sig.items@.len() == 0 && final(self).pos
                == old(self).pos + 2),
            match (old(self).ahead(0), old(self).ahead(1), old(self).ahead(2)) {
                (Some(SpecTokenKind::LParen), Some(SpecTokenKind::Ident(n)), Some(SpecTokenKind::RParen)) => context is Params
                    && !old(self).generic_in_scope(n) ==> (r matches Ok(sig) && sig.items@.len() == 1 && (sig.items@[0].ty matches SigKind::Ident(
                id) && id.name@ == n) && sig.items@[0].name@.len() == 0 && final(self).pos == old(self).pos + 3),
                _ => true,
            },
            old(self).ahead(0) == Some(SpecTokenKind::LParen) ==> match typed_entries(
                token_kinds(old(self).stream()),
                old(self).position() + 1,
            ) {
                Some((es, end)) => (forall|i: int| 0 <= i < es.len() ==> !old(self).generic_in_scope(#[trigger] es[i].1))
                    ==> (r matches Ok(sig) && sig.items@.len() == es.len() && (forall|i: int|
                    0 <= i < es.len() ==> typed_item(#[trigger] sig.items@[i], es[i].0, es[i].1))
                    && final(self).position() == end),
                None => true,
            },
        decreases old(self).tokens@.len() - old(self).pos, 4nat,
    {
        let lparen = match self.expect_token("(", &TokenKind::LParen) {
            Ok(t) => t,
            Err(e) => {
                proof {
                    reveal_strlit("expected ");
                    reveal_strlit("(");
                    reveal_strlit("expected (");
                    assert("expected "@ + "("@ =~= "expected ("@);
                }
                return Err(e);
            },
        };
        let ghost empty = old(self).ahead(1) == Some(SpecTokenKind::RParen);
        let ghost single = match (old(self).ahead(1), old(self).ahead(2)) {
            (Some(SpecTokenKind::Ident(n)), Some(SpecTokenKind::RParen)) => context is Params && !old(self).generic_in_scope(n),
            _ => false,
        };
        let ghost kinds = token_kinds(old(self).stream());
        let ghost entries = typed_entries(kinds, old(self).position() + 1);
        let ghost typed = entries is Some && forall|i: int|
            0 <= i < entries->Some_0.0.len() ==> !old(self).generic_in_scope(#[trigger] entries->Some_0.0[i].1);
        let ghost es = entries->Some_0.0;
        let ghost end = entries->Some_0.1;
        let mut params: Vec<SigItem> = Vec::new();
        loop
            invariant_except_break
                empty ==> (self.pos == old(self).pos + 1 && params@.len() == 0),
                single ==> (self.pos == old(self).pos + 1 && params@.len() == 0),
                typed ==> (params@.len() <= es.len() && typed_entries(kinds, self.pos as int) == Some(
                    (es.skip(params@.len() as int), end),
                ) && forall|i: int| 0 <= i < params@.len() ==> typed_item(#[trigger] params@[i], es[i].0, es[i].1)),
            invariant
                kinds == token_kinds(old(self).stream()),
                entries == typed_entries(kinds, old(self).position() + 1),
                typed == (entries is Some && forall|i: int|
                    0 <= i < entries->Some_0.0.len() ==> !old(self).generic_in_scope(#[trigger] entries->Some_0.0[i].1)),
                es == entries->Some_0.0,
                end == entries->Some_0.1,
                single == match (old(self).ahead(1), old(self).ahead(2)) {
                    (Some(SpecTokenKind::Ident(n)), Some(SpecTokenKind::RParen)) => context is Params
                        && !old(self).generic_in_scope(n),
                    _ => false,
                },
                empty == (old(self).ahead(1) == Some(SpecTokenKind::RParen)),
                old(self).ahead(0) == Some(SpecTokenKind::LParen),
                self.wf(),
                self.continues(old(self)),
                old(self).pos < self.pos,
                self.allow_top_imports == old(self).allow_top_imports,
                self.generic_param_stack@ == old(self).generic_param_stack@,
            ensures
                typed ==> (params@.len() == es.len() && (forall|i: int|
                    0 <= i < params@.len() ==> typed_item(#[trigger] params@[i], es[i].0, es[i].1)) && self.pos + 1 == end
                    && self.ahead(0) == Some(SpecTokenKind::RParen)),
                single ==> (self.pos == old(self).pos + 2 && params@.len() == 1 && (params@[0].ty matches SigKind::Ident(
                id) && id.name@ == old(self).ahead(1)->Some_0->Ident_0) && params@[0].name@.len() == 0),
                empty ==> (self.pos == old(self).pos + 1 && params@.len() == 0),
            decreases self.tokens@.len() - self.pos,
        {
            let next = self.peek_token()?;
            let ghost q = self.pos as int;
            proof {
                if typed && q < self.tokens@.len() {
                    assert(kinds[q] == self.tokens@[q].kind@);
                    if q + 3 < self.tokens@.len() {
                        assert(kinds[q + 1] == self.tokens@[q + 1].kind@);
                        assert(kinds[q + 2] == self.tokens@[q + 2].kind@);
                        assert(kinds[q + 3] == self.tokens@[q + 3].kind@);
                    }
                }
            }
            if matches!(next.kind, TokenKind::RParen) {
                proof {
                    if typed {
                        assert(es.skip(params@.len() as int).len() == 0);
                    }
                }
                break;
            }
            let ghost before = params@;
            proof {
                if typed {
                    let rest = es.skip(before.len() as int);
                    assert(rest.len() > 0);
                    assert(rest[0] == es[before.len() as int]);
                    assert(kinds[q] != SpecTokenKind::RParen);
                    assert(q + 3 < kinds.len());
                    assert(kinds[q] is Ident && kinds[q + 1] == SpecTokenKind::Colon && kinds[q + 2] is Ident);
                    assert(rest[0] == (kinds[q]->Ident_0, kinds[q + 2]->Ident_0));
                    assert(self.ahead(0) == Some(kinds[q]));
                    assert(self.ahead(2) == Some(kinds[q + 2]));
                    assert(self.ahead(3) == Some(kinds[q + 3]));
                    assert(kinds[q + 3] == SpecTokenKind::Comma || kinds[q + 3] == SpecTokenKind::RParen);
                    assert(!self.generic_in_scope(rest[0].1));
                }
            }
            let item = self.parse_sig_item(context)?;
            params.push(item);
            proof {
                if typed {
                    assert forall|i: int| 0 <= i < params@.len() implies typed_item(#[trigger] params@[i], es[i].0, es[i].1) by {
                        if i < before.len() {
                            assert(params@[i] == before[i]);
                        }
                    }
                    assert(es.skip(params@.len() as int) =~= es.skip(before.len() as int).drop_first());
                }
            }
            if self.consume_if(&TokenKind::Comma)?.is_none() {
                proof {
                    if typed {
                        assert(es.skip(params@.len() as int).len() == 0);
                    }
                }
                break;
            }
        }
        self.expect_token(")", &TokenKind::RParen)?;
        Ok(Signature { items: params, span: lparen.span, generics: Vec::new() })
    }

    /// One parameter: `name: type`, a bare type, either followed by an optional `!`.
    /// In a lambda, a parameter that starts with an identifier must have a type.
    fn parse_sig_item(&mut self, context: ParamContext) -> (r: Result<SigItem, Error>)
        requires
            old(self).wf(),
        ensures
            final(self).wf(),
            final(self).continues(old(self)),
            final(self).allow_top_imports == old(self).allow_top_imports,
            final(self).generic_param_stack@ == old(self).generic_param_stack@,
            r matches Ok(item) ==> (context is Lambda && old(self).pos < old(self).tokens@.len()
                && old(self).tokens@[old(self).pos as int].kind@ is Ident ==> item.name@ == old(
            self).tokens@[old(self).pos as int].kind@->Ident_0),
            r is Ok ==> old(self).pos < final(self).pos,
            match (old(self).ahead(0), old(self).ahead(1)) {
                (Some(SpecTokenKind::Ellipsis), Some(k)) => r matches Ok(item) && item.ty is Variadic
                    && item.name@.len() == 0 && item.has_bang == (k == SpecTokenKind::Bang) && item.span
                    == old(self).stream()[old(self).position()].span && final(self).pos == old(self).pos
                    + if k == SpecTokenKind::Bang {
                    2int
                } else {
                    1int
                },
                (Some(SpecTokenKind::Ident(n)), Some(k)) => (context is Lambda && k != SpecTokenKind::Colon
                    ==> (r matches Err(e) && e.code == Code::Parse && e.message@
                    == "lambda parameters must have a type"@)) && (context is Params && k != SpecTokenKind::Colon && k
                    != SpecTokenKind::AngleOpen && k != SpecTokenKind::Bang && !old(self).generic_in_scope(n) ==> (r matches Ok(
                item) && item.name@.len() == 0 && !item.has_bang && (item.ty matches SigKind::Ident(id) && id.name@ == n)
                    && final(self).pos == old(self).pos + 1)),
                _ => true,
            },
            match (old(self).ahead(0), old(self).ahead(1), old(self).ahead(2), old(self).ahead(3)) {
                (
                    Some(SpecTokenKind::Ident(n)),
                    Some(SpecTokenKind::Colon),
                    Some(SpecTokenKind::Ident(t)),
                    Some(k),
                ) => (k == SpecTokenKind::Comma || k == SpecTokenKind::RParen) && !old(self).generic_in_scope(t) ==> (r matches Ok(
                item) && typed_item(item, n, t) && final(self).pos == old(self).pos + 3),
                _ => true,
            },
        decreases old(self).tokens@.len() - old(self).pos, 3nat,
    {
        let token = self.peek_token()?;
        let item_span = token.span;
        let (name, ty) = if let TokenKind::Ident(_) = token.kind {
            let (name, name_span) = self.parse_identifier("parameter name")?;
            let next = self.peek_token()?;
            if matches!(next.kind, TokenKind::Colon) {
                self.expect_token(":", &TokenKind::Colon)?;
                let ty = self.parse_type_kind()?;
                (name, ty)
            } else {
                match context {
                    ParamContext::Params => {
                        // Read the identifier again, as the type.
                        self.unbump();
                        let ty = self.parse_type_kind()?;
                        let empty = String::new();
                        proof {
                            match (old(self).ahead(0), old(self).ahead(1)) {
                                (Some(SpecTokenKind::Ident(n)), Some(k)) => {
                                    if k != SpecTokenKind::AngleOpen && !old(self).generic_in_scope(n) {
                                        assert(self.generic_scopes() == old(self).generic_scopes());
                                        assert(ty matches SigKind::Ident(id) && id.name@ == n);
                                    }
                                },
                                _ => {},
                            }
                        }
                        (empty, ty)
                    },
                    ParamContext::Lambda => {
                        return Err(
                            error_from_str(
                                Code::Parse,
                                "lambda parameters must have a type",
                                name_span,
                            ),
                        );
                    },
                }
            }
        } else {
            let ty = self.parse_type_kind()?;
            (String::new(), ty)
        };
        let has_bang = self.consume_if(&TokenKind::Bang)?.is_some();
        Ok(SigItem { name, ty, has_bang, span: item_span })
    }

    /// `<A, B, ...>` before a parameter list, or nothing. Names must not repeat, and
    /// the list is not empty.
    fn parse_generic_params(&mut self) -> (r: Result<Vec<String>, Error>)
        requires
            old(self).wf(),
        ensures
            final(self).wf(),
            final(self).continues(old(self)),
            final(self).allow_top_imports == old(self).allow_top_imports,
            final(self).generic_param_stack@ == old(self).generic_param_stack@,
            r matches Ok(v) ==> forall|i: int, j: int|
                0 <= i < j < v@.len() ==> names_view(v@)[i] != names_view(v@)[j],
            r matches Ok(v) ==> (v@.len() == 0 <==> final(self).pos == old(self).pos),
            old(self).pos < old(self).tokens@.len() && old(self).tokens@[old(self).pos as int].kind@
                != SpecTokenKind::AngleOpen ==> (r matches Ok(v) && v@.len() == 0),
            r matches Ok(v) ==> (old(self).ahead(0) == Some(SpecTokenKind::AngleOpen) ==> (generic_list_at(
                old(self).stream(),
                old(self).position(),
                v@,
            ) && final(self).position() == old(self).position() + 2 * v@.len() + 1)),
            match (old(self).ahead(0), old(self).ahead(1), old(self).ahead(2)) {
                (
                    Some(SpecTokenKind::AngleOpen),
                    Some(SpecTokenKind::Ident(n)),
                    Some(SpecTokenKind::AngleClose),
                ) => r matches Ok(v) && v@.len() == 1 && v@[0]@ == n && final(self).pos == old(self).pos
                    + 3,
                _ => true,
            },
    {
        let open = self.peek_token()?;
        if !matches!(open.kind, TokenKind::AngleOpen) {
            return Ok(Vec::new());
        }
        let lt = self.expect_token("<", &TokenKind::AngleOpen)?;
        let ghost start = old(self).position();
        let ghost single = match (old(self).ahead(1), old(self).ahead(2)) {
            (Some(SpecTokenKind::Ident(_)), Some(SpecTokenKind::AngleClose)) => true,
            _ => false,
        };
        let mut params: Vec<String> = Vec::new();
        loop
            invariant_except_break
                self.position() == start + 1 + 2 * params@.len(),
                forall|i: int|
                    0 <= i < params@.len() ==> self.stream()[start + 2 + 2 * i].kind@
                        == #[trigger] comma_kind(i),
                single ==> params@.len() == 0,
            invariant
                start == old(self).position(),
                single == match (old(self).ahead(1), old(self).ahead(2)) {
                    (Some(SpecTokenKind::Ident(_)), Some(SpecTokenKind::AngleClose)) => true,
                    _ => false,
                },
                old(self).pos < old(self).tokens@.len(),
                old(self).tokens@[old(self).pos as int].kind@ == SpecTokenKind::AngleOpen,
                self.wf(),
                self.continues(old(self)),
                old(self).pos < self.pos,
                self.allow_top_imports == old(self).allow_top_imports,
                self.generic_param_stack@ == old(self).generic_param_stack@,
                forall|i: int, j: int|
                    0 <= i < j < params@.len() ==> names_view(params@)[i] != names_view(params@)[j],
                forall|i: int|
                    0 <= i < params@.len() ==> self.stream()[start + 1 + 2 * i].kind@
                        == SpecTokenKind::Ident(#[trigger] params@[i]@),
            ensures
                params@.len() > 0,
                self.position() == start + 2 * params@.len(),
                forall|i: int|
                    0 <= i < params@.len() - 1 ==> self.stream()[start + 2 + 2 * i].kind@
                        == #[trigger] comma_kind(i),
                single ==> params@.len() == 1,
            decreases self.tokens@.len() - self.pos,
        {
            let (name, span) = self.parse_identifier("generic parameter name")?;
            if contains_name(&params, &name) {
                let mut m = "generic parameter '".to_string();
                m.append(name.as_str());
                m.append("' already declared");
                return Err(Error::new(Code::Parse, m, span));
            }
            let ghost before = params@;
            params.push(name);
            proof {
                assert forall|i: int, j: int| 0 <= i < j < params@.len() implies names_view(params@)[i] != names_view(params@)[j] by {
                    if j == params@.len() - 1 {
                        assert(names_view(before)[i] == names_view(params@)[i]);
                    } else {
                        assert(names_view(before)[i] == names_view(params@)[i]);
                        assert(names_view(before)[j] == names_view(params@)[j]);
                    }
                }
                assert forall|i: int| 0 <= i < params@.len() implies self.stream()[start + 1 + 2 * i].kind@
                    == SpecTokenKind::Ident(#[trigger] params@[i]@) by {
                    if i < before.len() {
                        assert(before[i] == params@[i]);
                    }
                }
            }
            if self.consume_if(&TokenKind::Comma)?.is_none() {
                break;
            }
            proof {
                assert forall|i: int| 0 <= i < params@.len() implies self.stream()[start + 2 + 2 * i].kind@
                    == #[trigger] comma_kind(i) by {
                }
            }
        }
        self.expect_token(">", &TokenKind::AngleClose)?;
        if params.len() == 0 {
            return Err(error_from_str(Code::Parse, "expected at least one generic parameter", lt.span));
        }
        Ok(params)
    }

    /// Whether `name` is a generic parameter of an enclosing declaration.
    fn is_generic_param(&self, name: &String) -> (r: bool)
        ensures
            r == self.generic_in_scope(name@),
    {
        let mut i: usize = 0;
        while i < self.generic_param_stack.len()
            invariant
                i <= self.generic_param_stack@.len(),
                forall|a: int, b: int|
                    0 <= a < i && 0 <= b < self.generic_param_stack@[a]@.len()
                        ==> #[trigger] self.generic_param_stack@[a]@[b]@ != name@,
            decreases self.generic_param_stack@.len() - i,
        {
            if contains_name(&self.generic_param_stack[i], name) {
                proof {
                    let j = choose|j: int|
                        0 <= j < self.generic_param_stack@[i as int]@.len()
                            && #[trigger] self.generic_param_stack@[i as int]@[j]@ == name@;
                    assert(self.generic_scopes()[i as int]@[j]@ == name@);
                }
                return true;
            }
            i = i + 1;
        }
        false
    }

    /// `<type, type, ...>` after a generic type's name.
    fn parse_type_arguments(&mut self) -> (r: Result<Vec<SigKind>, Error>)
        requires
            old(self).wf(),
        ensures
            final(self).wf(),
            final(self).continues(old(self)),
            final(self).allow_top_imports == old(self).allow_top_imports,
            final(self).generic_param_stack@ == old(self).generic_param_stack@,
            r matches Ok(v) ==> (v@.len() > 0 && old(self).ahead(0) == Some(SpecTokenKind::AngleOpen)
                && old(self).pos + 2 <= final(self).pos && final(self).tokens@[final(self).pos - 1].kind@
                == SpecTokenKind::AngleClose),
            old(self).ahead(0) matches Some(k) && k != SpecTokenKind::AngleOpen ==> (r matches Err(e)
                && e.code == Code::Parse && e.message@ == "expected <"@),
            old(self).ahead(0) == Some(SpecTokenKind::AngleOpen) && old(self).ahead(1) == Some(
                SpecTokenKind::Ellipsis) && old(self).ahead(2) == Some(SpecTokenKind::AngleClose) ==> (r matches Ok(v)
                && v@.len() == 1 && v@[0] is Variadic && final(self).pos == old(self).pos + 3),
        decreases old(self).tokens@.len() - old(self).pos, 1nat,
    {
        match self.expect_token("<", &TokenKind::AngleOpen) {
            Ok(_) => {},
            Err(e) => {
                proof {
                    reveal_strlit("expected ");
                    reveal_strlit("<");
                    reveal_strlit("expected <");
                    assert("expected "@ + "<"@ =~= "expected <"@);
                }
                return Err(e);
            },
        }
        let ghost single = old(self).ahead(1) == Some(SpecTokenKind::Ellipsis) && old(self).ahead(2)
            == Some(SpecTokenKind::AngleClose);
        let mut args: Vec<SigKind> = Vec::new();
        loop
            invariant_except_break
                single ==> (args@.len() == 0 && self.pos == old(self).pos + 1),
            invariant
                self.wf(),
                self.continues(old(self)),
                old(self).pos < self.pos,
                old(self).ahead(0) == Some(SpecTokenKind::AngleOpen),
                single == (old(self).ahead(1) == Some(SpecTokenKind::Ellipsis) && old(self).ahead(2)
                    == Some(SpecTokenKind::AngleClose)),
                self.allow_top_imports == old(self).allow_top_imports,
                self.generic_param_stack@ == old(self).generic_param_stack@,
            ensures
                args@.len() > 0,
                single ==> (args@.len() == 1 && args@[0] is Variadic && self.pos == old(self).pos + 2),
            decreases self.tokens@.len() - self.pos,
        {
            let ty = self.parse_type_kind()?;
            args.push(ty);
            if self.consume_if(&TokenKind::Comma)?.is_none() {
                break;
            }
        }
        self.expect_token(">", &TokenKind::AngleClose)?;
        Ok(args)
    }

    /// A type: a parameter list, `...`, a generic parameter in scope, a generic
    /// instantiation `name<...>`, or a type name.
    fn parse_type_kind(&mut self) -> (r: Result<SigKind, Error>)
        requires
            old(self).wf(),
        ensures
            final(self).wf(),
            final(self).continues(old(self)),
            final(self).allow_top_imports == old(self).allow_top_imports,
            final(self).generic_param_stack@ == old(self).generic_param_stack@,
            r is Ok ==> old(self).pos < final(self).pos,
            old(self).ahead(0) == Some(SpecTokenKind::Ellipsis) ==> (r matches Ok(SigKind::Variadic)
                && final(self).pos == old(self).pos + 1),
            old(self).ahead(0) matches Some(k) && !(k is LParen || k is Ellipsis || k is Ident) ==> (r matches Err(
            e) && e.code == Code::Parse && e.message@ == "expected a type"@),
            match old(self).ahead(0) {
                Some(SpecTokenKind::Ident(n)) => if old(self).generic_in_scope(n) {
                    r matches Ok(SigKind::Generic(g)) && g@ == n && final(self).pos == old(self).pos + 1
                } else {
                    old(self).ahead(1) is Some && old(self).ahead(1) != Some(SpecTokenKind::AngleOpen) ==> (r matches Ok(
                    SigKind::Ident(id)) && id.name@ == n && id.span == old(self).stream()[old(self).position()].span
                        && final(self).pos == old(self).pos + 1)
                },
                _ => true,
            },
            old(self).ahead(0) == Some(SpecTokenKind::LParen) && old(self).ahead(1) == Some(SpecTokenKind::RParen)
                ==> (r matches Ok(SigKind::Sig(sig)) && sig.items@.len() == 0 && final(self).pos == old(self).pos + 2),
        decreases old(self).tokens@.len() - old(self).pos, 2nat,
    {
        let token = self.bump()?;
        let span = token.span;
        match token.kind {
            TokenKind::LParen => {
                let mut args: Vec<SigItem> = Vec::new();
                let next = self.peek_token()?;
                if !matches!(next.kind, TokenKind::RParen) {
                    loop
                        invariant
                            self.wf(),
                            self.continues(old(self)),
                            old(self).pos < self.pos,
                            old(self).ahead(0) == Some(SpecTokenKind::LParen),
                            old(self).ahead(1) != Some(SpecTokenKind::RParen),
                            self.allow_top_imports == old(self).allow_top_imports,
                            self.generic_param_stack@ == old(self).generic_param_stack@,
                        decreases self.tokens@.len() - self.pos,
                    {
                        let item = self.parse_sig_item(ParamContext::Params)?;
                        args.push(item);
                        if self.consume_if(&TokenKind::Comma)?.is_none() {
                            break;
                        }
                    }
                }
                self.expect_token(")", &TokenKind::RParen)?;
                Ok(SigKind::Sig(Signature { items: args, span, generics: Vec::new() }))
            },
            TokenKind::Ellipsis => Ok(SigKind::Variadic),
            TokenKind::Ident(name) => {
                proof {
                    assert(old(self).ahead(0) == Some(SpecTokenKind::Ident(name@)));
                    assert(self.generic_scopes() == old(self).generic_scopes());
                    assert(self.pos == old(self).pos + 1);
                }
                if self.is_generic_param(&name) {
                    return Ok(SigKind::Generic(name));
                }
                let next = self.peek_token()?;
                if matches!(next.kind, TokenKind::AngleOpen) {
                    let args = self.parse_type_arguments()?;
                    return Ok(SigKind::GenericInst { name, args });
                }
                Ok(SigKind::Ident(SigIdent { name, span }))
            },
            _ => Err(error_from_str(Code::Parse, "expected a type", span)),
        }
    }

    /// The items of a block up to (not including) its `}` or the end of the source.
    /// A block must hold at least one item.
    pub fn parse_body(&mut self, start_span: Span) -> (r: Result<Block, Error>)
        requires
            old(self).wf(),
        ensures
            final(self).wf(),
            final(self).continues(old(self)),
            final(self).allows_imports() == old(self).allows_imports(),
            final(self).generic_scopes() == old(self).generic_scopes(),
            r matches Ok(b) ==> b.items@.len() > 0 && b.span == start_span,
            old(self).ahead(0) matches Some(k) && (k == SpecTokenKind::RBrace || k == SpecTokenKind::Eof)
                ==> (r matches Err(e) && e.code == Code::Parse && e.message@
                == "block must contain at least one item"@ && final(self).position() == old(self).position()),
            match (old(self).ahead(0), old(self).ahead(1)) {
                (Some(SpecTokenKind::Ident(n)), Some(SpecTokenKind::RBrace)) => r matches Ok(b)
                    && b.items@.len() == 1 && final(self).position() == old(self).position() + 1 && (b.items@[0] matches BlockItem::Ident(
                id) && id.name@ == n && id.args@.len() == 0),
                _ => true,
            },
            match names_until_brace(token_kinds(old(self).stream()), old(self).position()) {
                Some(ns) => ns.len() > 0 ==> (r matches Ok(b) && b.items@.len() == ns.len() && (forall|i: int|
                    0 <= i < ns.len() ==> (#[trigger] b.items@[i] matches BlockItem::Ident(id) && id.name@ == ns[i]
                    && id.args@.len() == 0)) && final(self).ahead(0) == Some(SpecTokenKind::RBrace)),
                None => true,
            },
        decreases old(self).stream().len() - old(self).position(), 9nat,
    {
        let mut items: Vec<BlockItem> = Vec::new();
        let ghost closes = match old(self).ahead(0) {
            Some(k) => k == SpecTokenKind::RBrace || k == SpecTokenKind::Eof,
            None => false,
        };
        let ghost one = match (old(self).ahead(0), old(self).ahead(1)) {
            (Some(SpecTokenKind::Ident(_)), Some(SpecTokenKind::RBrace)) => true,
            _ => false,
        };
        let ghost kinds = token_kinds(old(self).stream());
        let ghost listed = names_until_brace(kinds, old(self).position());
        loop
            invariant_except_break
                listed matches Some(ns) ==> (items@.len() <= ns.len() && names_until_brace(kinds, self.pos as int)
                    == Some(ns.skip(items@.len() as int)) && forall|i: int|
                    0 <= i < items@.len() ==> (#[trigger] items@[i] matches BlockItem::Ident(id) && id.name@ == ns[i]
                    && id.args@.len() == 0)),
                closes ==> (items@.len() == 0 && self.pos == old(self).pos),
                one ==> ((items@.len() == 0 && self.pos == old(self).pos) || (items@.len() == 1
                    && self.pos == old(self).pos + 1 && (items@[0] matches BlockItem::Ident(id)
                    && id.name@ == old(self).ahead(0)->Some_0->Ident_0 && id.args@.len() == 0))),
            invariant
                closes == match old(self).ahead(0) {
                    Some(k) => k == SpecTokenKind::RBrace || k == SpecTokenKind::Eof,
                    None => false,
                },
                one == match (old(self).ahead(0), old(self).ahead(1)) {
                    (Some(SpecTokenKind::Ident(_)), Some(SpecTokenKind::RBrace)) => true,
                    _ => false,
                },
                kinds == token_kinds(old(self).stream()),
                listed == names_until_brace(kinds, old(self).position()),
                self.wf(),
                self.continues(old(self)),
                self.allow_top_imports == old(self).allow_top_imports,
                self.generic_param_stack@ == old(self).generic_param_stack@,
            ensures
                listed matches Some(ns) ==> (items@.len() == ns.len() && forall|i: int|
                    0 <= i < items@.len() ==> (#[trigger] items@[i] matches BlockItem::Ident(id) && id.name@ == ns[i]
                    && id.args@.len() == 0)) && self.ahead(0) == Some(SpecTokenKind::RBrace),
                closes ==> (items@.len() == 0 && self.pos == old(self).pos),
                one ==> (items@.len() == 1 && self.pos == old(self).pos + 1 && (items@[0] matches BlockItem::Ident(
                id) && id.name@ == old(self).ahead(0)->Some_0->Ident_0 && id.args@.len() == 0)),
            decreases self.tokens@.len() - self.pos,
        {
            let ghost p0 = self.pos as int;
            let sep = self.consume_block_item_separators();
            proof {
                if listed is Some {
                    if sep is Err {
                        lemma_names_need_brace(kinds, p0);
                    } else {
                        lemma_names_skip_separators(kinds, p0, self.pos as int);
                    }
                }
            }
            sep?;
            let token = self.peek_token()?;
            match token.kind {
                TokenKind::RBrace | TokenKind::Eof => {
                    proof {
                        if listed is Some {
                            let ns = listed->Some_0;
                            let q = self.pos as int;
                            if q < self.tokens@.len() {
                                assert(kinds[q] == self.tokens@[q].kind@);
                            }
                            assert(ns.skip(items@.len() as int).len() == 0);
                        }
                    }
                    break;
                },
                _ => {
                    let ghost before = items@;
                    let ghost q = self.pos as int;
                    let item = self.parse_block_item()?;
                    items.push(item);
                    proof {
                        if listed is Some {
                            let ns = listed->Some_0;
                            let rest = ns.skip(before.len() as int);
                            assert(names_until_brace(kinds, q) == Some(rest));
                            assert(kinds[q] == self.tokens@[q].kind@);
                            assert(kinds[q + 1] == self.tokens@[q + 1].kind@);
                            assert(rest.len() > 0);
                            assert(ns.skip(items@.len() as int) =~= rest.drop_first());
                            assert forall|i: int| 0 <= i < items@.len() implies (#[trigger] items@[i] matches BlockItem::Ident(
                                id,
                            ) && id.name@ == ns[i] && id.args@.len() == 0) by {
                                if i < before.len() {
                                    assert(items@[i] == before[i]);
                                } else {
                                    assert(rest[0] == ns[i]);
                                }
                            }
                        }
                    }
                },
            }
        }
        if items.len() == 0 {
            let token = self.peek_token()?;
            return Err(
                error_from_str(Code::Parse, "block must contain at least one item", token.span),
            );
        }
        Ok(Block { items, span: start_span })
    }
}

/// The kind that stands between the generic parameters `i` and `i + 1` of a list.
pub open spec fn comma_kind(i: int) -> SpecTokenKind {
    SpecTokenKind::Comma
}

/// `stream` holds, from `start`, the generic parameter list `<n0, n1, ...>` of the names `names`.
pub open spec fn generic_list_at(stream: Seq<Token>, start: int, names: Seq<String>) -> bool {
    &&& names.len() > 0
    &&& 0 <= start && start + 2 * names.len() < stream.len()
    &&& stream[start].kind@ == SpecTokenKind::AngleOpen
    &&& forall|i: int|
        0 <= i < names.len() ==> stream[start + 1 + 2 * i].kind@ == SpecTokenKind::Ident(
            #[trigger] names[i]@,
        )
    &&& forall|i: int|
        0 <= i < names.len() - 1 ==> stream[start + 2 + 2 * i].kind@ == #[trigger] comma_kind(i)
    &&& stream[start + 2 * names.len()].kind@ == SpecTokenKind::AngleClose
}

/// `t` is the term that the single token of kind `k` reads as, where `k` is a literal
/// or an identifier.
pub open spec fn head_leaf(t: Term, k: SpecTokenKind) -> bool {
    match k {
        SpecTokenKind::IntLiteral(v) => t matches Term::Int(lit) && lit.value == v,
        SpecTokenKind::StringLiteral(v) => t matches Term::String(lit) && lit.value@ == v,
        SpecTokenKind::Ident(n) => t matches Term::Ident(id) && id.name@ == n && id.args@.len() == 0,
        _ => false,
    }
}

/// Whether the tokens from `p` on start, after any line breaks, with a bare call: a name
/// followed by neither `:` nor `(`.
pub open spec fn bare_call_at(kinds: Seq<SpecTokenKind>, p: int) -> bool {
    exists|i: int|
        p <= i && i + 1 < kinds.len() && (forall|j: int| p <= j < i ==> kinds[j] == SpecTokenKind::Newline)
            && #[trigger] kinds[i] is Ident && kinds[i + 1] != SpecTokenKind::Colon && kinds[i + 1]
            != SpecTokenKind::LParen
}

/// The names of a block made only of bare names, read from offset `p` up to its `}`:
/// separators are skipped, and each name is followed by a separator or by the `}`.
/// `None` when the tokens are not of that shape.
pub open spec fn names_until_brace(kinds: Seq<SpecTokenKind>, p: int) -> Option<Seq<Seq<char>>>
    decreases kinds.len() - p,
{
    if p < 0 || p >= kinds.len() {
        None
    } else if is_separator(kinds[p]) {
        names_until_brace(kinds, p + 1)
    } else if kinds[p] == SpecTokenKind::RBrace {
        Some(Seq::empty())
    } else if kinds[p] is Ident && p + 1 < kinds.len() && (is_separator(kinds[p + 1]) || kinds[p + 1]
        == SpecTokenKind::RBrace) {
        match names_until_brace(kinds, p + 1) {
            Some(ns) => Some(seq![kinds[p]->Ident_0] + ns),
            None => None,
        }
    } else {
        None
    }
}

proof fn lemma_names_skip_separators(kinds: Seq<SpecTokenKind>, p: int, q: int)
    requires
        0 <= p <= q <= kinds.len(),
        forall|j: int| p <= j < q ==> is_separator(#[trigger] kinds[j]),
    ensures
        names_until_brace(kinds, p) == names_until_brace(kinds, q),
    decreases q - p,
{
    if p < q {
        assert(is_separator(kinds[p]));
        lemma_names_skip_separators(kinds, p + 1, q);
    }
}

proof fn lemma_names_need_brace(kinds: Seq<SpecTokenKind>, p: int)
    requires
        0 <= p,
        forall|j: int| p <= j < kinds.len() ==> is_separator(#[trigger] kinds[j]),
    ensures
        names_until_brace(kinds, p) is None,
    decreases kinds.len() - p,
{
    if p < kinds.len() {
        lemma_names_need_brace(kinds, p + 1);
    }
}

/// `lambda` takes no parameters or arguments and its body is the bare names `ns`, in order.
pub open spec fn names_lambda(lambda: Lambda, ns: Seq<Seq<char>>) -> bool {
    &&& lambda.params.items@.len() == 0
    &&& lambda.args@.len() == 0
    &&& lambda.body.items@.len() == ns.len()
    &&& forall|i: int|
        0 <= i < ns.len() ==> (#[trigger] lambda.body.items@[i] matches BlockItem::Ident(id) && id.name@ == ns[i]
            && id.args@.len() == 0)
}

/// Whether the tokens from `p` define a function of no parameters whose body is bare
/// names: `name : ( ) { n0 n1 ... }`, with at least one name.
pub open spec fn defines_names_function(kinds: Seq<SpecTokenKind>, p: int) -> bool {
    &&& 0 <= p && p + 4 < kinds.len()
    &&& kinds[p] is Ident
    &&& kinds[p + 1] == SpecTokenKind::Colon
    &&& kinds[p + 2] == SpecTokenKind::LParen
    &&& kinds[p + 3] == SpecTokenKind::RParen
    &&& kinds[p + 4] == SpecTokenKind::LBrace
    &&& names_until_brace(kinds, p + 5) matches Some(ns) && ns.len() > 0
}

/// Whether one of the scopes holds `name`.
pub open spec fn scopes_hold(scopes: Seq<Vec<String>>, name: Seq<char>) -> bool {
    exists|i: int, j: int| 0 <= i < scopes.len() && 0 <= j < scopes[i]@.len() && #[trigger] scopes[i]@[j]@ == name
}

/// The typed entries `n0: t0, n1: t1, ...` of a parameter list read from offset `p`
/// (just after its `(`) up to its `)`: each entry a name, `:` and a type name, entries
/// separated by `,` (a `,` may close the list). The pairs of name and type name in the
/// order in which they are written, and the offset just after the `)`; `None` when the
/// tokens are not of that shape.
pub open spec fn typed_entries(kinds: Seq<SpecTokenKind>, p: int) -> Option<(Seq<(Seq<char>, Seq<char>)>, int)>
    decreases kinds.len() - p,
{
    if p < 0 || p >= kinds.len() {
        None
    } else if kinds[p] == SpecTokenKind::RParen {
        Some((Seq::empty(), p + 1))
    } else if p + 3 < kinds.len() && kinds[p] is Ident && kinds[p + 1] == SpecTokenKind::Colon && kinds[p
        + 2] is Ident {
        let entry = (kinds[p]->Ident_0, kinds[p + 2]->Ident_0);
        if kinds[p + 3] == SpecTokenKind::RParen {
            Some((seq![entry], p + 4))
        } else if kinds[p + 3] == SpecTokenKind::Comma {
            match typed_entries(kinds, p + 4) {
                Some((rest, end)) => Some((seq![entry] + rest, end)),
                None => None,
            }
        } else {
            None
        }
    } else {
        None
    }
}

/// `item` is the parameter `name: ty` with the type name `ty`.
pub open spec fn typed_item(item: SigItem, name: Seq<char>, ty: Seq<char>) -> bool {
    &&& item.name@ == name
    &&& item.ty matches SigKind::Ident(id) && id.name@ == ty
    &&& !item.has_bang
}

/// Whether the tokens from `p` are a parameter list of typed entries, none of whose type
/// names is a generic parameter in `scopes`, followed by `{`; the entries are `es`.
pub open spec fn typed_head(kinds: Seq<SpecTokenKind>, p: int, scopes: Seq<Vec<String>>, es: Seq<(Seq<char>, Seq<char>)>) -> bool {
    &&& 0 <= p < kinds.len()
    &&& kinds[p] == SpecTokenKind::LParen
    &&& typed_entries(kinds, p + 1) matches Some((entries, end)) && entries == es && end < kinds.len() && kinds[end]
        == SpecTokenKind::LBrace
    &&& forall|i: int| 0 <= i < es.len() ==> !scopes_hold(scopes, #[trigger] es[i].1)
}

/// `lambda` takes the typed parameters `es`, in order.
pub open spec fn typed_params_of(lambda: Lambda, es: Seq<(Seq<char>, Seq<char>)>) -> bool {
    &&& lambda.params.items@.len() == es.len()
    &&& forall|i: int| 0 <= i < es.len() ==> typed_item(#[trigger] lambda.params.items@[i], es[i].0, es[i].1)
}

/// Whether the tokens from `p` start a function definition `name: (n0: t0, ...) {`
/// whose parameters are the typed entries `es`.
pub open spec fn typed_definition(kinds: Seq<SpecTokenKind>, p: int, scopes: Seq<Vec<String>>, es: Seq<(Seq<char>, Seq<char>)>) -> bool {
    &&& 0 <= p && p + 1 < kinds.len()
    &&& kinds[p] is Ident
    &&& kinds[p + 1] == SpecTokenKind::Colon
    &&& typed_head(kinds, p + 2, scopes, es)
}

/// The names `a0, a1, ...` of an argument list read from offset `p` up to and
/// including its `)`: names separated by `,`. The names in the order in which they are
/// written, and the offset just after the `)`; `None` when the tokens are not of that
/// shape.
pub open spec fn name_list(kinds: Seq<SpecTokenKind>, p: int) -> Option<(Seq<Seq<char>>, int)>
    decreases kinds.len() - p,
{
    if 0 <= p && p + 1 < kinds.len() && kinds[p] is Ident {
        if kinds[p + 1] == SpecTokenKind::RParen {
            Some((seq![kinds[p]->Ident_0], p + 2))
        } else if kinds[p + 1] == SpecTokenKind::Comma {
            match name_list(kinds, p + 2) {
                Some((rest, end)) => Some((seq![kinds[p]->Ident_0] + rest, end)),
                None => None,
            }
        } else {
            None
        }
    } else {
        None
    }
}

/// The bare names of an argument list whose `(` has been read, from offset `p`: none
/// when it closes at once, else a `name_list`.
pub open spec fn name_args(kinds: Seq<SpecTokenKind>, p: int) -> Option<(Seq<Seq<char>>, int)> {
    if 0 <= p < kinds.len() && kinds[p] == SpecTokenKind::RParen {
        Some((Seq::empty(), p + 1))
    } else {
        name_list(kinds, p)
    }
}

/// `terms` are the bare names `ns`, in order.
pub open spec fn names_terms(terms: Seq<Term>, ns: Seq<Seq<char>>) -> bool {
    &&& terms.len() == ns.len()
    &&& forall|i: int|
        0 <= i < ns.len() ==> (#[trigger] terms[i] matches Term::Ident(id) && id.name@ == ns[i] && id.args@.len()
            == 0)
}

/// The kinds of the tokens, in order.
pub open spec fn token_kinds(tokens: Seq<Token>) -> Seq<SpecTokenKind> {
    Seq::new(tokens.len(), |i: int| tokens[i].kind@)
}

/// A separator between block items: `;` or a line break.
pub open spec fn is_separator(k: SpecTokenKind) -> bool {
    k == SpecTokenKind::Semicolon || k == SpecTokenKind::Newline
}

fn collect_param_kinds(params: &Vec<SigItem>) -> (r: Vec<SigKind>)
    ensures
        r@.len() == params@.len(),
        forall|i: int| 0 <= i < r@.len() ==> (#[trigger] r@[i])@ == params@[i].ty@,
{
    let mut out: Vec<SigKind> = Vec::new();
    let mut i: usize = 0;
    while i < params.len()
        invariant
            i <= params@.len(),
            out@.len() == i,
            forall|j: int| 0 <= j < i ==> (#[trigger] out@[j])@ == params@[j].ty@,
        decreases params@.len() - i,
    {
        out.push(ast::clone_kind(&params[i].ty));
        i = i + 1;
    }
    out
}

fn clone_strings(v: &Vec<String>) -> (r: Vec<String>)
    ensures
        names_view(r@) == names_view(v@),
{
    ast::clone_names(v)
}

/// Whether `name` is one of `names`.
pub fn contains_name(names: &Vec<String>, name: &String) -> (r: bool)
    ensures
        r == exists|i: int| 0 <= i < names@.len() && #[trigger] names@[i]@ == name@,
{
    let mut i: usize = 0;
    while i < names.len()
        invariant
            i <= names@.len(),
            forall|j: int| 0 <= j < i ==> #[trigger] names@[j]@ != name@,
        decreases names@.len() - i,
    {
        if names[i] == *name {
            return true;
        }
        i = i + 1;
    }
    false
}

/// Moves the terms of `more` to the end of `terms`, keeping their order.
fn append_terms(terms: &mut Vec<Term>, more: Vec<Term>)
    ensures
        final(terms)@ == old(terms)@ + more@,
{
    let mut more = more;
    terms.append(&mut more);
}

// ---------------------------------------------------------------------------
// Lexer facts the parser relies on
// ---------------------------------------------------------------------------

pub open spec fn skip_trivia_at(s: Seq<u8>, pos: int) -> int {
    crate::compiler::lexer::skip_trivia(s, pos, false)
}

proof fn lemma_skip_trivia_bounds(s: Seq<u8>, pos: int)
    requires
        0 <= pos <= s.len(),
    ensures
        pos <= skip_trivia_at(s, pos) <= s.len(),
{
    crate::compiler::lexer::lemma_trivia_bounds(s, pos, false);
}

proof fn lemma_token_advances(s: Seq<u8>, p: int)
    requires
        0 <= p <= s.len(),
    ensures
        crate::compiler::lexer::lex_at(s, p) matches crate::compiler::lexer::LexOutcome::Token(
            k,
            e,
        ) ==> (k == SpecTokenKind::Eof ==> e == p) && (k != SpecTokenKind::Eof ==> p < e
            <= s.len()),
{
    crate::compiler::lexer::lemma_lex_advances(s, p);
}

} // verus!
