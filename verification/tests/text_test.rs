use rgo::{escape_literal_for_rodata, last_slug, sanitize_function_name};

#[test]
fn rodata_plain_text_is_one_quoted_part() {
    assert_eq!(escape_literal_for_rodata("hello world"), "\"hello world\"");
}

#[test]
fn rodata_control_bytes_are_numbers() {
    assert_eq!(escape_literal_for_rodata("a\nb"), "\"a\", 10, \"b\"");
    assert_eq!(escape_literal_for_rodata("\t\r"), "9, 13");
}

#[test]
fn rodata_quotes_are_escaped_and_other_bytes_in_hex() {
    assert_eq!(escape_literal_for_rodata("say \"hi\""), "\"say \\\"hi\\\"\"");
    assert_eq!(escape_literal_for_rodata("é"), "0xc3, 0xa9");
}

#[test]
fn rodata_empty_literal() {
    assert_eq!(escape_literal_for_rodata(""), "\"\"");
}

#[test]
fn sanitize_replaces_symbol_unsafe_characters() {
    assert_eq!(sanitize_function_name("foo-bar.baz_1"), "foo_bar_baz_1");
    assert_eq!(sanitize_function_name("λx"), "_x");
}

#[test]
fn last_slug_is_the_final_segment() {
    assert_eq!(last_slug("/std/printf"), "printf");
    assert_eq!(last_slug("printf"), "printf");
    assert_eq!(last_slug("dir/"), "");
}
