use cargo_ohrs::record::{TypeDefKind, TypeDefLine};
use cargo_ohrs::render::{export_declare, is_renderable, pretty_print};

fn line(kind: TypeDefKind, name: &str, def: &str) -> TypeDefLine {
    TypeDefLine {
        kind,
        name: name.to_string(),
        original_name: None,
        def: def.to_string(),
        js_doc: None,
        js_mod: None,
    }
}

#[test]
fn export_prefix_depends_on_ambient() {
    assert_eq!(export_declare(true), "export");
    assert_eq!(export_declare(false), "export declare");
}

#[test]
fn interface_is_always_exported_plainly() {
    let rec = line(TypeDefKind::Interface, "Options", "verbose: boolean");
    let expected = "export interface Options {\n  verbose: boolean\n}\n";
    assert_eq!(pretty_print(&rec, true, 0, false), expected);
    assert_eq!(pretty_print(&rec, false, 0, true), expected);
}

#[test]
fn enum_follows_the_const_enum_flag() {
    let rec = line(TypeDefKind::Enum, "Kind", "A = 0,\nB = 1");
    assert_eq!(
        pretty_print(&rec, true, 0, false),
        "export declare const enum Kind {\n  A = 0,\n  B = 1\n}\n"
    );
    assert_eq!(
        pretty_print(&rec, false, 0, false),
        "export declare enum Kind {\n  A = 0,\n  B = 1\n}\n"
    );
    assert_eq!(
        pretty_print(&rec, false, 2, true),
        "  export enum Kind {\n    A = 0,\n    B = 1\n  }\n"
    );
}

#[test]
fn string_enum_renders_const_enum_or_union() {
    let rec = line(TypeDefKind::StringEnum, "Kind", "Kind = \"A\",  \"B\" ");
    assert_eq!(
        pretty_print(&rec, true, 0, false),
        "export declare const enum Kind {\n  Kind = \"A\",  \"B\"\n}\n"
    );
    assert_eq!(pretty_print(&rec, false, 0, false), "export type Kind = \"A\" | \"B\";\n");
    assert_eq!(pretty_print(&rec, false, 2, true), "  export type Kind = \"A\" | \"B\";\n");
}

#[test]
fn string_enum_union_takes_all_text_behind_the_first_equals_sign() {
    let rec = line(TypeDefKind::StringEnum, "Kind", "x = 'a', 'b' = 'c', 'd'");
    assert_eq!(
        pretty_print(&rec, false, 0, false),
        "export type Kind = 'a' | 'b' = 'c' | 'd';\n"
    );
    let status = line(TypeDefKind::StringEnum, "Status", "A = 'a', B = 'b'");
    assert_eq!(pretty_print(&status, false, 0, false), "export type Status = 'a' | B = 'b';\n");
}

#[test]
fn string_enum_with_one_variant_and_with_none() {
    let one = line(TypeDefKind::StringEnum, "One", "= 'only'");
    assert_eq!(pretty_print(&one, false, 0, false), "export type One = 'only';\n");
    let none = line(TypeDefKind::StringEnum, "Nothing", "=");
    assert_eq!(pretty_print(&none, false, 0, false), "export type Nothing = ;\n");
}

#[test]
fn string_enum_without_equals_sign_is_not_renderable_as_union() {
    let rec = line(TypeDefKind::StringEnum, "Kind", "'a', 'b'");
    assert!(!is_renderable(&rec, false));
    assert!(is_renderable(&rec, true));
    assert!(is_renderable(&line(TypeDefKind::StringEnum, "Kind", "k = 'a'"), false));
    assert!(is_renderable(&line(TypeDefKind::Fn, "f", "function f(): void"), false));
}

#[test]
fn struct_renders_a_class() {
    let rec = line(TypeDefKind::Struct, "Widget", "render(): void");
    assert_eq!(
        pretty_print(&rec, true, 0, false),
        "export declare class Widget {\n  render(): void\n}\n"
    );
    assert_eq!(
        pretty_print(&rec, true, 2, true),
        "  export class Widget {\n    render(): void\n  }\n"
    );
}

#[test]
fn renamed_struct_gets_an_alias_line() {
    let mut rec = line(TypeDefKind::Struct, "Bar", "size: number");
    rec.original_name = Some("Foo".to_string());
    assert_eq!(
        pretty_print(&rec, true, 0, false),
        "export declare class Bar {\n  size: number\n}\nexport type Foo = Bar\n"
    );
}

#[test]
fn struct_with_its_own_original_name_gets_no_alias_line() {
    let mut rec = line(TypeDefKind::Struct, "Bar", "size: number");
    rec.original_name = Some("Bar".to_string());
    assert_eq!(pretty_print(&rec, true, 0, false), "export declare class Bar {\n  size: number\n}\n");
}

#[test]
fn function_gets_the_export_prefix() {
    let rec = line(TypeDefKind::Fn, "sum", "function sum(a: number, b: number): number");
    assert_eq!(
        pretty_print(&rec, true, 0, false),
        "export declare function sum(a: number, b: number): number\n"
    );
    assert_eq!(
        pretty_print(&rec, true, 2, true),
        "  export function sum(a: number, b: number): number\n"
    );
}

#[test]
fn const_and_impl_pass_their_body_through() {
    let constant = line(TypeDefKind::Const, "LIMIT", "export const LIMIT: number");
    assert_eq!(pretty_print(&constant, true, 0, false), "export const LIMIT: number\n");
    let members = line(TypeDefKind::Impl, "Widget", "render(): void");
    assert_eq!(pretty_print(&members, true, 2, true), "  render(): void\n");
}

#[test]
fn documentation_comes_first_and_is_indented_with_the_rest() {
    let mut rec = line(TypeDefKind::Fn, "sum", "function sum(): number");
    rec.js_doc = Some("/**\n * Adds.\n */\n".to_string());
    assert_eq!(
        pretty_print(&rec, true, 0, false),
        "/**\n * Adds.\n */\nexport declare function sum(): number\n"
    );
    assert_eq!(
        pretty_print(&rec, true, 2, true),
        "  /**\n   * Adds.\n   */\n  export function sum(): number\n"
    );
}

#[test]
fn empty_class_body_leaves_an_empty_line() {
    let rec = line(TypeDefKind::Struct, "Empty", "");
    assert_eq!(pretty_print(&rec, true, 0, false), "export declare class Empty {\n\n}\n");
}
