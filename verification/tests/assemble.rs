use cargo_ohrs::assemble::{generate_d_ts_file, process_type_def, DEFAULT_TYPE_DEF_HEADER};
use cargo_ohrs::error::AssembleError;
use cargo_ohrs::record::{TypeDefKind, TypeDefLine};

fn line(kind: TypeDefKind, name: &str, def: &str, js_mod: Option<&str>) -> Option<TypeDefLine> {
    Some(TypeDefLine {
        kind,
        name: name.to_string(),
        original_name: None,
        def: def.to_string(),
        js_doc: None,
        js_mod: js_mod.map(|m| m.to_string()),
    })
}

fn renamed(kind: TypeDefKind, name: &str, original: &str, def: &str) -> Option<TypeDefLine> {
    let mut rec = line(kind, name, def, None).unwrap();
    rec.original_name = Some(original.to_string());
    Some(rec)
}

#[test]
fn widget_with_its_member_block() {
    let out = process_type_def(
        vec![
            line(TypeDefKind::Struct, "Widget", "", None),
            line(TypeDefKind::Impl, "Widget", "  render(): void", None),
        ],
        true,
        "",
    )
    .unwrap();
    assert!(out.dts.contains("export declare class Widget {\n  render(): void\n}"));
    assert_eq!(out.dts, "export declare class Widget {\n  render(): void\n}\n\n");
    assert_eq!(out.exports, vec!["Widget".to_string()]);
    assert!(!out.buffer_note);
    assert!(!out.abort_note);
}

#[test]
fn nothing_in_gives_nothing_out() {
    let out = process_type_def(Vec::new(), true, "").unwrap();
    assert_eq!(out.dts, "");
    assert!(out.exports.is_empty());
    let headed = process_type_def(Vec::new(), false, "// banner\n").unwrap();
    assert_eq!(headed.dts, "// banner\n");
}

#[test]
fn namespaces_are_wrapped_and_export_their_own_name() {
    let out = process_type_def(
        vec![
            line(TypeDefKind::Fn, "f", "function f(): void", Some("util")),
            line(TypeDefKind::Enum, "E", "A = 0", None),
            line(TypeDefKind::Struct, "Tool", "use(): void", Some("util")),
        ],
        true,
        "",
    )
    .unwrap();
    assert_eq!(
        out.dts,
        "export declare const enum E {\n  A = 0\n}\n\n\
export namespace util {\n\
\x20 export class Tool {\n    use(): void\n  }\n\n\
\x20 export function f(): void\n\n\
}\n"
    );
    assert_eq!(out.exports, vec!["E".to_string(), "util".to_string()]);
}

#[test]
fn export_list_holds_top_level_symbols_and_original_names() {
    let out = process_type_def(
        vec![
            line(TypeDefKind::Interface, "Shape", "x: number", None),
            renamed(TypeDefKind::Struct, "Bar", "Foo", ""),
            renamed(TypeDefKind::Fn, "same", "same", "function same(): void"),
            line(TypeDefKind::Const, "LIMIT", "export const LIMIT: number", None),
            line(TypeDefKind::StringEnum, "Mode", "Mode = 'a'", None),
            line(TypeDefKind::Impl, "Nobody", "x(): void", None),
        ],
        true,
        "",
    )
    .unwrap();
    assert_eq!(
        out.exports,
        vec![
            "Bar".to_string(),
            "Foo".to_string(),
            "LIMIT".to_string(),
            "Mode".to_string(),
            "same".to_string(),
        ]
    );
}

#[test]
fn structs_are_rendered_before_everything_else_in_a_group() {
    let out = process_type_def(
        vec![
            line(TypeDefKind::Fn, "aaa", "function aaa(): void", None),
            line(TypeDefKind::Struct, "Zzz", "", None),
            line(TypeDefKind::Enum, "Bbb", "A = 0", None),
            line(TypeDefKind::Struct, "Mmm", "", None),
        ],
        true,
        "",
    )
    .unwrap();
    let last_class = out.dts.rfind("class ").unwrap();
    let first_enum = out.dts.find("const enum Bbb").unwrap();
    let first_fn = out.dts.find("function aaa").unwrap();
    assert!(last_class < first_enum);
    assert!(last_class < first_fn);
    assert!(out.dts.find("class Mmm").unwrap() < out.dts.find("class Zzz").unwrap());
    assert!(first_enum < first_fn);
}

#[test]
fn the_place_of_a_class_in_the_stream_does_not_matter() {
    let class = line(TypeDefKind::Struct, "Widget", "size: number", None);
    let first = line(TypeDefKind::Impl, "Widget", "one(): void", None);
    let second = line(TypeDefKind::Impl, "Widget", "two(): void", None);
    let other = line(TypeDefKind::Fn, "f", "function f(): void", None);
    let orders = vec![
        vec![class.clone(), first.clone(), other.clone(), second.clone()],
        vec![first.clone(), class.clone(), other.clone(), second.clone()],
        vec![first.clone(), other.clone(), second.clone(), class.clone()],
        vec![other.clone(), first.clone(), second.clone(), class.clone()],
    ];
    let expected = "export declare class Widget {\n  size: number\n  one(): void\n  two(): void\n}\n\n\
export declare function f(): void\n\n";
    for order in orders {
        let out = process_type_def(order, true, "").unwrap();
        assert_eq!(out.dts, expected);
        assert_eq!(out.exports, vec!["Widget".to_string(), "f".to_string()]);
    }
}

#[test]
fn the_same_input_gives_the_same_output() {
    let input = vec![
        line(TypeDefKind::Fn, "b", "function b(x: Buffer): void", Some("io")),
        line(TypeDefKind::Struct, "S", "", None),
        line(TypeDefKind::Impl, "S", "m(s: AbortSignal): void", None),
        line(TypeDefKind::Fn, "b", "function b(): void", None),
    ];
    let first = process_type_def(input.clone(), false, "// x\n").unwrap();
    let second = process_type_def(input, false, "// x\n").unwrap();
    assert_eq!(first.dts, second.dts);
    assert_eq!(first.exports, second.exports);
    assert_eq!(first.buffer_note, second.buffer_note);
    assert_eq!(first.abort_note, second.abort_note);
}

#[test]
fn buffer_in_a_body_is_replaced_and_noted() {
    let out = process_type_def(
        vec![line(TypeDefKind::Fn, "read", "function read(): Buffer", None)],
        true,
        "",
    )
    .unwrap();
    assert_eq!(out.dts, "\n\nexport declare function read(): ArrayBuffer\n\n");
    assert!(out.buffer_note);
}

#[test]
fn buffercount_is_not_replaced() {
    let out = process_type_def(
        vec![line(TypeDefKind::Fn, "count", "function count(buffercount: number): void", None)],
        true,
        "",
    )
    .unwrap();
    assert_eq!(out.dts, "export declare function count(buffercount: number): void\n\n");
    assert!(!out.buffer_note);
}

#[test]
fn a_line_that_did_not_decode_aborts_the_assembly() {
    let result = process_type_def(
        vec![line(TypeDefKind::Fn, "f", "function f(): void", None), None],
        true,
        "",
    );
    assert_eq!(result.err(), Some(AssembleError::MalformedStream { record: 1 }));
}

#[test]
fn the_declaration_file_begins_with_the_default_header() {
    let out = generate_d_ts_file(
        vec![line(TypeDefKind::Enum, "E", "A = 0", None)],
        "/* extra */\n",
    )
    .unwrap();
    assert_eq!(
        out.dts,
        format!(
            "{}/* extra */\nexport declare const enum E {{\n  A = 0\n}}\n\n",
            DEFAULT_TYPE_DEF_HEADER
        )
    );
    assert!(out.dts.starts_with("/* auto-generated by OHOS-RS */\n/* eslint-disable */\n\n"));
    assert_eq!(out.exports, vec!["E".to_string()]);
    assert_eq!(
        generate_d_ts_file(vec![None], "").err(),
        Some(AssembleError::MalformedStream { record: 0 })
    );
}

#[test]
fn the_declaration_file_uses_const_enums_for_string_enums() {
    let out = generate_d_ts_file(vec![line(TypeDefKind::StringEnum, "Mode", "no equals", None)], "")
        .unwrap();
    assert_eq!(
        out.dts,
        format!("{}export declare const enum Mode {{\n  no equals\n}}\n\n", DEFAULT_TYPE_DEF_HEADER)
    );
}

#[test]
fn a_record_that_cannot_be_rendered_aborts_the_assembly() {
    let input = vec![
        line(TypeDefKind::Fn, "f", "function f(): void", None),
        line(TypeDefKind::StringEnum, "Mode", "'a', 'b'", None),
        None,
    ];
    assert_eq!(
        process_type_def(input.clone(), false, "").err(),
        Some(AssembleError::MalformedStream { record: 1 })
    );
    assert_eq!(
        process_type_def(input, true, "").err(),
        Some(AssembleError::MalformedStream { record: 2 })
    );
}

#[test]
fn string_enums_become_unions_without_const_enum() {
    let out = process_type_def(
        vec![line(TypeDefKind::StringEnum, "Mode", "Mode = 'a', 'b'", None)],
        false,
        "",
    )
    .unwrap();
    assert_eq!(out.dts, "export type Mode = 'a' | 'b';\n\n");
    assert_eq!(out.exports, vec!["Mode".to_string()]);
}
