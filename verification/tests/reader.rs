use cargo_ohrs::error::AssembleError;
use cargo_ohrs::reader::{frame_line, read_intermediate_type_file};
use cargo_ohrs::record::{TypeDefKind, TypeDefLine};

fn line(kind: TypeDefKind, name: &str) -> TypeDefLine {
    TypeDefLine {
        kind,
        name: name.to_string(),
        original_name: None,
        def: String::new(),
        js_doc: None,
        js_mod: None,
    }
}

#[test]
fn a_line_that_begins_with_a_brace_is_taken_whole() {
    assert_eq!(frame_line("{\"kind\":\"fn\"}"), Some("{\"kind\":\"fn\"}".to_string()));
    assert_eq!(frame_line("  \t{\"a\": \"b:c\"} \r"), Some("{\"a\": \"b:c\"}".to_string()));
}

#[test]
fn a_tag_in_front_of_the_record_is_cut_off() {
    assert_eq!(frame_line("demo:{\"kind\":\"fn\"}"), Some("{\"kind\":\"fn\"}".to_string()));
    assert_eq!(frame_line("  a b: {\"x\": 1}"), Some(" {\"x\": 1}".to_string()));
    assert_eq!(frame_line("one:two:{three}"), Some("two:{three}".to_string()));
}

#[test]
fn a_line_without_brace_and_colon_stands_as_it_is() {
    assert_eq!(frame_line(" plain text "), Some("plain text".to_string()));
}

#[test]
fn blank_lines_hold_no_record() {
    assert_eq!(frame_line(""), None);
    assert_eq!(frame_line("   \t "), None);
    assert_eq!(frame_line("tag:"), None);
    assert_eq!(frame_line(" : "), None);
}

#[test]
fn the_first_line_that_did_not_decode_is_fatal() {
    let decoded = vec![
        Some(line(TypeDefKind::Fn, "a")),
        None,
        Some(line(TypeDefKind::Fn, "b")),
        None,
    ];
    assert_eq!(
        read_intermediate_type_file(decoded).err(),
        Some(AssembleError::MalformedStream { record: 1 })
    );
    assert_eq!(
        read_intermediate_type_file(vec![None]).err(),
        Some(AssembleError::MalformedStream { record: 0 })
    );
}

#[test]
fn decoded_records_come_back_in_render_order() {
    let decoded = vec![
        Some(line(TypeDefKind::Fn, "b")),
        Some(line(TypeDefKind::Struct, "Z")),
        Some(line(TypeDefKind::Fn, "a")),
        Some(line(TypeDefKind::Struct, "A")),
    ];
    let defs = read_intermediate_type_file(decoded).unwrap();
    let got: Vec<(TypeDefKind, &str)> = defs.iter().map(|d| (d.kind, d.name.as_str())).collect();
    assert_eq!(
        got,
        vec![
            (TypeDefKind::Struct, "A"),
            (TypeDefKind::Struct, "Z"),
            (TypeDefKind::Fn, "a"),
            (TypeDefKind::Fn, "b"),
        ]
    );
}

#[test]
fn an_empty_stream_reads_as_no_records() {
    assert!(read_intermediate_type_file(Vec::new()).unwrap().is_empty());
}
