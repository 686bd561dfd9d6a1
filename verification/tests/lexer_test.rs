use rgo::compiler::lexer::Lexer;
use rgo::compiler::token::TokenKind;

const LEXER_TEST_SOURCE: &str = "
str: @/str
printf: @/printf
foo: (ok: (str)) {
    ok(\"charlie\")
}
baz: (ok: (str, str)) {
    foo(ok(\"bob\"))
}
bar: (name0: str, name1: str, name2: str) {
    printf(\"hello %s, %s and %s\\n\", name0, name1, name2)
}
baz(bar(\"alice\"))
";

#[test]
fn lexer_test() {
    let source = LEXER_TEST_SOURCE.as_bytes().to_vec();
    let mut lexer = Lexer::new(source);
    let ident = |name: &str| TokenKind::Ident(name.to_string());
    let import = |name: &str| TokenKind::Import(name.to_string());
    let str_lit = |value: &str| TokenKind::StringLiteral(value.to_string());

    let expected_tokens = vec![
        TokenKind::Newline,
        ident("str"),
        TokenKind::Colon,
        import("/str"),
        TokenKind::Newline,
        ident("printf"),
        TokenKind::Colon,
        import("/printf"),
        TokenKind::Newline,
        ident("foo"),
        TokenKind::Colon,
        TokenKind::LParen,
        ident("ok"),
        TokenKind::Colon,
        TokenKind::LParen,
        ident("str"),
        TokenKind::RParen,
        TokenKind::RParen,
        TokenKind::LBrace,
        TokenKind::Newline,
        ident("ok"),
        TokenKind::LParen,
        str_lit("charlie"),
        TokenKind::RParen,
        TokenKind::Newline,
        TokenKind::RBrace,
        TokenKind::Newline,
        ident("baz"),
        TokenKind::Colon,
        TokenKind::LParen,
        ident("ok"),
        TokenKind::Colon,
        TokenKind::LParen,
        ident("str"),
        TokenKind::Comma,
        ident("str"),
        TokenKind::RParen,
        TokenKind::RParen,
        TokenKind::LBrace,
        TokenKind::Newline,
        ident("foo"),
        TokenKind::LParen,
        ident("ok"),
        TokenKind::LParen,
        str_lit("bob"),
        TokenKind::RParen,
        TokenKind::RParen,
        TokenKind::Newline,
        TokenKind::RBrace,
        TokenKind::Newline,
        ident("bar"),
        TokenKind::Colon,
        TokenKind::LParen,
        ident("name0"),
        TokenKind::Colon,
        ident("str"),
        TokenKind::Comma,
        ident("name1"),
        TokenKind::Colon,
        ident("str"),
        TokenKind::Comma,
        ident("name2"),
        TokenKind::Colon,
        ident("str"),
        TokenKind::RParen,
        TokenKind::LBrace,
        TokenKind::Newline,
        ident("printf"),
        TokenKind::LParen,
        str_lit("hello %s, %s and %s\n"),
        TokenKind::Comma,
        ident("name0"),
        TokenKind::Comma,
        ident("name1"),
        TokenKind::Comma,
        ident("name2"),
        TokenKind::RParen,
        TokenKind::Newline,
        TokenKind::RBrace,
        TokenKind::Newline,
        ident("baz"),
        TokenKind::LParen,
        ident("bar"),
        TokenKind::LParen,
        str_lit("alice"),
        TokenKind::RParen,
        TokenKind::RParen,
        TokenKind::Newline,
        TokenKind::Eof,
    ];

    let mut actual_tokens = Vec::new();

    loop {
        let token = lexer.next_token().expect("lexer should succeed");
        let is_eof = matches!(token.kind, TokenKind::Eof);
        actual_tokens.push(token.kind);
        if is_eof {
            break;
        }
    }

    assert_eq!(
        actual_tokens, expected_tokens,
        "lexer should produce the exact token stream for lexer_test.rgo"
    );
}

fn lex_single_string(source: &[u8]) -> String {
    let mut lexer = Lexer::new(source.to_vec());
    let token = lexer.next_token().expect("lexer should produce a token");
    match token.kind {
        TokenKind::StringLiteral(value) => value,
        other => panic!("expected string literal, got {:?}", other),
    }
}

#[test]
fn single_quote_strings_preserve_backslashes() {
    let literal = lex_single_string(b"'raw\\n'");
    assert_eq!(literal, "raw\\n");
}

#[test]
fn double_quote_strings_support_unicode_and_escapes() {
    let literal = lex_single_string(b"\"\\u{1F600}\\n\"");
    assert_eq!(literal, "\u{1F600}\n");
}

#[test]
fn invalid_double_quote_escape_is_rejected() {
    let mut lexer = Lexer::new(b"\"bad\\x\"".to_vec());
    assert!(lexer.next_token().is_err());
}

#[test]
fn ellipsis_is_single_token() {
    let mut lexer = Lexer::new(b"... foo".to_vec());

    let ellipsis = lexer
        .next_token()
        .expect("lexer should produce ellipsis token");
    assert_eq!(ellipsis.kind, TokenKind::Ellipsis);

    let ident = lexer
        .next_token()
        .expect("lexer should produce identifier token");
    assert_eq!(ident.kind, TokenKind::Ident("foo".to_string()));

    let eof = lexer.next_token().expect("should reach EOF");
    assert!(matches!(eof.kind, TokenKind::Eof));
}

#[test]
fn integer_and_comment_tokens() {
    let mut lexer = Lexer::new(b"42 // note\n-7".to_vec());
    let first = lexer.next_token().expect("integer");
    assert_eq!(first.kind, TokenKind::IntLiteral(42));
    assert_eq!(first.span.line, 1);
    assert_eq!(first.span.column, 1);
    let nl = lexer.next_token().expect("newline");
    assert_eq!(nl.kind, TokenKind::Newline);
}

#[test]
fn spans_track_lines_and_columns() {
    let mut lexer = Lexer::new(b"a\n  b".to_vec());
    let a = lexer.next_token().unwrap();
    assert_eq!((a.span.line, a.span.column, a.span.offset), (1, 1, 0));
    let _nl = lexer.next_token().unwrap();
    let b = lexer.next_token().unwrap();
    assert_eq!(b.kind, TokenKind::Ident("b".to_string()));
    assert_eq!((b.span.line, b.span.column, b.span.offset), (2, 3, 4));
}

#[test]
fn unterminated_string_is_an_error() {
    let mut lexer = Lexer::new(b"\"open".to_vec());
    assert!(lexer.next_token().is_err());
}

#[test]
fn utf8_string_literal_is_decoded() {
    let mut lexer = Lexer::new("\"é€😀\"".as_bytes().to_vec());
    let token = lexer.next_token().expect("a string literal");
    assert_eq!(token.kind, TokenKind::StringLiteral("é€😀".to_string()));
}

#[test]
fn invalid_utf8_in_string_literal_is_an_error() {
    let mut lexer = Lexer::new(vec![b'"', 0xC3, b'"']);
    let err = lexer.next_token().expect_err("a truncated sequence");
    assert!(err.to_string().contains("invalid UTF-8 in string literal"));
}
