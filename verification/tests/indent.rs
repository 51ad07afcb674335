use cargo_ohrs::indent::correct_string_indent;

#[test]
fn nested_blocks_are_indented_by_depth() {
    let src = "class A {\nfoo(): void\nbar: {\nx: number\n}\n}";
    assert_eq!(
        correct_string_indent(src, 0),
        "class A {\n  foo(): void\n  bar: {\n    x: number\n  }\n}\n"
    );
}

#[test]
fn base_indent_is_added_to_every_line() {
    let src = "class A {\nfoo(): void\n}";
    assert_eq!(correct_string_indent(src, 2), "  class A {\n    foo(): void\n  }\n");
}

#[test]
fn existing_indentation_is_replaced() {
    let src = "      class A {\n\t\tfoo(): void   \n            }";
    assert_eq!(correct_string_indent(src, 0), "class A {\n  foo(): void\n}\n");
}

#[test]
fn comment_lines_stand_one_space_further_in() {
    let src = "/**\n* The widget.\n*/\nfoo(): void";
    assert_eq!(correct_string_indent(src, 0), "/**\n * The widget.\n */\nfoo(): void\n");
    assert_eq!(correct_string_indent(src, 2), "  /**\n   * The widget.\n   */\n  foo(): void\n");
}

#[test]
fn comment_lines_do_not_move_the_depth() {
    let src = "class A {\n* wrong {\n* wrong }\nfoo(): void\n}";
    assert_eq!(
        correct_string_indent(src, 0),
        "class A {\n   * wrong {\n   * wrong }\n  foo(): void\n}\n"
    );
}

#[test]
fn blank_lines_come_out_empty() {
    let src = "a {\n\n   \nb\n}";
    assert_eq!(correct_string_indent(src, 4), "    a {\n\n\n      b\n    }\n");
}

#[test]
fn depth_never_falls_below_zero() {
    assert_eq!(correct_string_indent("}\n}\nx {\ny\n}", 0), "}\n}\nx {\n  y\n}\n");
}

#[test]
fn a_line_that_closes_and_opens_counts_as_opening() {
    let src = "if (a) {\nb\n} else {\nc\n}";
    assert_eq!(correct_string_indent(src, 0), "if (a) {\n  b\n  } else {\n    c\n  }\n");
}

#[test]
fn empty_text_has_no_lines() {
    assert_eq!(correct_string_indent("", 3), "");
}

#[test]
fn a_final_line_feed_opens_no_line() {
    assert_eq!(correct_string_indent("a\n", 0), "a\n");
    assert_eq!(correct_string_indent("a\n\n", 0), "a\n\n");
    assert_eq!(correct_string_indent("\n", 0), "\n");
}

#[test]
fn carriage_returns_are_trimmed_with_the_line() {
    assert_eq!(correct_string_indent("a {\r\nb\r\n}\r\n", 0), "a {\n  b\n}\n");
}

#[test]
fn wide_characters_are_kept() {
    assert_eq!(correct_string_indent("类 {\n名: 字\n}", 0), "类 {\n  名: 字\n}\n");
}
