use rgo::compiler::ast::BlockItem;
use rgo::compiler::lexer::Lexer;
use rgo::compiler::parser::Parser;
use rgo::compiler::token::TokenKind;

fn parser_for(source: &str) -> Parser {
    Parser::new(Lexer::new(source.as_bytes().to_vec()))
}

#[test]
fn parse_body_rejects_empty_block() {
    let mut parser = parser_for("{}");
    let brace = parser
        .expect_token("{", &TokenKind::LBrace)
        .expect("expected opening brace");
    let err = parser
        .parse_body(brace.span)
        .expect_err("empty block must fail");
    parser
        .expect_token("}", &TokenKind::RBrace)
        .expect("expected closing brace");
    assert!(
        err.to_string()
            .contains("block must contain at least one item"),
        "unexpected error: {}",
        err.to_string()
    );
}

#[test]
fn imports_then_functions() {
    let mut parser = parser_for("int: @/int\nadd: @/add\nfive: (ok: (int)) {\n    add(2, 3, ok)\n}\n");
    let first = parser.next().expect("parses").expect("an item");
    assert!(matches!(first, BlockItem::Import { .. }));
    let second = parser.next().expect("parses").expect("an item");
    assert!(matches!(second, BlockItem::Import { .. }));
    let third = parser.next().expect("parses").expect("an item");
    assert!(matches!(third, BlockItem::FunctionDef { .. }));
    assert!(parser.next().expect("parses").is_none());
}

#[test]
fn import_after_definition_is_rejected() {
    let mut parser = parser_for("five: (ok: (int)) {\n    ok(5)\n}\nint: @/int\n");
    let _ = parser.next().expect("parses").expect("an item");
    assert!(parser.next().is_err());
}

#[test]
fn unlabelled_import_is_rejected() {
    let mut parser = parser_for("@/printf\n");
    let err = parser.next().expect_err("an unlabelled import must fail");
    assert!(err
        .to_string()
        .contains("imports must have a label (e.g. `printf: @/printf`)"));
}

#[test]
fn only_newlines_give_no_item() {
    let mut parser = parser_for("\n\n\n");
    assert!(parser.next().expect("parses").is_none());
}

#[test]
fn body_with_one_name_reads_one_item() {
    let mut parser = parser_for("{ done }");
    let brace = parser
        .expect_token("{", &TokenKind::LBrace)
        .expect("expected opening brace");
    let body = parser.parse_body(brace.span).expect("one item");
    assert_eq!(body.items.len(), 1);
    match &body.items[0] {
        BlockItem::Ident(ident) => {
            assert_eq!(ident.name, "done");
            assert!(ident.args.is_empty());
        }
        _ => panic!("expected an identifier item"),
    }
}

#[test]
fn literal_alias_is_an_int_definition() {
    let mut parser = parser_for("five: 5\n");
    match parser.next().expect("parses").expect("an item") {
        BlockItem::IntDef { name, literal, .. } => {
            assert_eq!(name, "five");
            assert_eq!(literal.value, 5);
        }
        _ => panic!("expected an integer definition"),
    }
}

#[test]
fn a_labelled_import_reads_as_an_import() {
    let mut parser = parser_for("printf: @/printf\n");
    match parser.next().expect("parses").expect("an item") {
        BlockItem::Import { label, path, .. } => {
            assert_eq!(label, "printf");
            assert_eq!(path, "/printf");
        }
        _ => panic!("expected an import"),
    }
}

#[test]
fn body_of_names_keeps_every_name_in_order() {
    let mut parser = parser_for("{ a; b\n c }");
    let brace = parser
        .expect_token("{", &TokenKind::LBrace)
        .expect("expected opening brace");
    let body = parser.parse_body(brace.span).expect("three items");
    let names: Vec<String> = body
        .items
        .iter()
        .map(|item| match item {
            BlockItem::Ident(ident) => ident.name.clone(),
            _ => panic!("expected identifier items"),
        })
        .collect();
    assert_eq!(names, vec!["a".to_string(), "b".to_string(), "c".to_string()]);
    parser
        .expect_token("}", &TokenKind::RBrace)
        .expect("the closing brace is left unread");
}

#[test]
fn a_function_of_names_reads_as_a_function_definition() {
    let mut parser = parser_for("f: () {\n    a\n    b\n}\n");
    match parser.next().expect("parses").expect("an item") {
        BlockItem::FunctionDef { name, lambda, .. } => {
            assert_eq!(name, "f");
            assert!(lambda.params.items.is_empty());
            let names: Vec<String> = lambda
                .body
                .items
                .iter()
                .map(|item| match item {
                    BlockItem::Ident(ident) => ident.name.clone(),
                    _ => panic!("expected identifier items"),
                })
                .collect();
            assert_eq!(names, vec!["a".to_string(), "b".to_string()]);
        }
        _ => panic!("expected a function definition"),
    }
}

#[test]
fn a_one_type_tuple_reads_as_a_type_definition() {
    let mut parser = parser_for("t: (int)\n");
    match parser.next().expect("parses").expect("an item") {
        BlockItem::SigDef { name, sig, .. } => {
            assert_eq!(name, "t");
            assert_eq!(sig.items.len(), 1);
            match &sig.items[0].ty {
                rgo::compiler::ast::SigKind::Ident(id) => assert_eq!(id.name, "int"),
                _ => panic!("expected a named type"),
            }
        }
        _ => panic!("expected a type definition"),
    }
}

#[test]
fn a_scope_capture_takes_the_rest_of_the_block_as_its_continuation() {
    let mut parser = parser_for("() = start\n    g\n    h\n}\n");
    match parser.next().expect("parses").expect("an item") {
        BlockItem::ScopeCapture { params, continuation, term, .. } => {
            assert!(params.items.is_empty());
            match term {
                rgo::compiler::ast::Term::Ident(id) => assert_eq!(id.name, "start"),
                _ => panic!("expected a name as the term"),
            }
            let names: Vec<String> = continuation
                .items
                .iter()
                .map(|item| match item {
                    BlockItem::Ident(ident) => ident.name.clone(),
                    _ => panic!("expected identifier items"),
                })
                .collect();
            assert_eq!(names, vec!["g".to_string(), "h".to_string()]);
        }
        _ => panic!("expected a scope capture"),
    }
}
