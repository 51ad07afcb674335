use cargo_ohrs::merge::{preprocess_type_def, NamespaceGroup};
use cargo_ohrs::record::{sort_records, TypeDefKind, TypeDefLine};

fn line(kind: TypeDefKind, name: &str, def: &str, js_mod: Option<&str>) -> TypeDefLine {
    TypeDefLine {
        kind,
        name: name.to_string(),
        original_name: None,
        def: def.to_string(),
        js_doc: None,
        js_mod: js_mod.map(|m| m.to_string()),
    }
}

fn shape(groups: &Vec<NamespaceGroup>) -> Vec<(Option<String>, Vec<(TypeDefKind, String, String)>)> {
    groups
        .iter()
        .map(|g| {
            (
                g.namespace.clone(),
                g.defs.iter().map(|d| (d.kind, d.name.clone(), d.def.clone())).collect(),
            )
        })
        .collect()
}

fn entry(kind: TypeDefKind, name: &str, def: &str) -> (TypeDefKind, String, String) {
    (kind, name.to_string(), def.to_string())
}

#[test]
fn no_records_give_no_groups() {
    assert!(preprocess_type_def(Vec::new()).is_empty());
}

#[test]
fn impl_blocks_are_folded_into_their_class_in_order() {
    let groups = preprocess_type_def(vec![
        line(TypeDefKind::Struct, "Widget", "", None),
        line(TypeDefKind::Impl, "Widget", "render(): void", None),
        line(TypeDefKind::Impl, "Widget", "close(): void", None),
    ]);
    assert_eq!(
        shape(&groups),
        vec![(None, vec![entry(TypeDefKind::Struct, "Widget", "render(): void\nclose(): void")])]
    );
}

#[test]
fn a_class_body_that_is_not_empty_gets_a_line_feed_before_the_block() {
    let groups = preprocess_type_def(vec![
        line(TypeDefKind::Struct, "Widget", "size: number", None),
        line(TypeDefKind::Impl, "Widget", "render(): void", None),
    ]);
    assert_eq!(
        shape(&groups),
        vec![(None, vec![entry(TypeDefKind::Struct, "Widget", "size: number\nrender(): void")])]
    );
}

#[test]
fn a_class_without_impl_is_kept() {
    let groups = preprocess_type_def(vec![line(TypeDefKind::Struct, "Lonely", "", None)]);
    assert_eq!(shape(&groups), vec![(None, vec![entry(TypeDefKind::Struct, "Lonely", "")])]);
}

#[test]
fn an_impl_without_class_is_dropped_but_its_namespace_stays() {
    let groups = preprocess_type_def(vec![
        line(TypeDefKind::Impl, "Ghost", "boo(): void", Some("haunted")),
        line(TypeDefKind::Fn, "f", "function f(): void", None),
    ]);
    assert_eq!(
        shape(&groups),
        vec![
            (None, vec![entry(TypeDefKind::Fn, "f", "function f(): void")]),
            (Some("haunted".to_string()), vec![]),
        ]
    );
}

#[test]
fn an_impl_in_front_of_its_class_is_dropped() {
    let groups = preprocess_type_def(vec![
        line(TypeDefKind::Impl, "Widget", "early(): void", None),
        line(TypeDefKind::Struct, "Widget", "", None),
        line(TypeDefKind::Impl, "Widget", "late(): void", None),
    ]);
    assert_eq!(shape(&groups), vec![(None, vec![entry(TypeDefKind::Struct, "Widget", "late(): void")])]);
}

#[test]
fn the_last_class_of_a_name_wins() {
    let groups = preprocess_type_def(vec![
        line(TypeDefKind::Struct, "Widget", "first", Some("a")),
        line(TypeDefKind::Struct, "Widget", "second", Some("b")),
        line(TypeDefKind::Impl, "Widget", "render(): void", Some("a")),
    ]);
    assert_eq!(
        shape(&groups),
        vec![
            (Some("a".to_string()), vec![]),
            (
                Some("b".to_string()),
                vec![entry(TypeDefKind::Struct, "Widget", "second\nrender(): void")]
            ),
        ]
    );
}

#[test]
fn classes_come_first_in_every_group() {
    let groups = preprocess_type_def(vec![
        line(TypeDefKind::Fn, "alpha", "function alpha(): void", None),
        line(TypeDefKind::Struct, "Zed", "", None),
        line(TypeDefKind::Enum, "Beta", "A = 0", None),
        line(TypeDefKind::Struct, "Able", "", None),
        line(TypeDefKind::Interface, "Gamma", "x: number", Some("ns")),
        line(TypeDefKind::Struct, "Inner", "", Some("ns")),
    ]);
    assert_eq!(
        shape(&groups),
        vec![
            (
                None,
                vec![
                    entry(TypeDefKind::Struct, "Able", ""),
                    entry(TypeDefKind::Struct, "Zed", ""),
                    entry(TypeDefKind::Fn, "alpha", "function alpha(): void"),
                    entry(TypeDefKind::Enum, "Beta", "A = 0"),
                ]
            ),
            (
                Some("ns".to_string()),
                vec![
                    entry(TypeDefKind::Struct, "Inner", ""),
                    entry(TypeDefKind::Interface, "Gamma", "x: number"),
                ]
            ),
        ]
    );
    for group in &groups {
        let first_other = group.defs.iter().position(|d| d.kind != TypeDefKind::Struct);
        if let Some(at) = first_other {
            assert!(group.defs[at..].iter().all(|d| d.kind != TypeDefKind::Struct));
        }
    }
}

#[test]
fn namespaces_come_in_lexical_order_behind_the_top_level() {
    let groups = preprocess_type_def(vec![
        line(TypeDefKind::Fn, "a", "", Some("zoo")),
        line(TypeDefKind::Fn, "b", "", Some("Abc")),
        line(TypeDefKind::Fn, "c", "", None),
        line(TypeDefKind::Fn, "d", "", Some("abc")),
        line(TypeDefKind::Fn, "e", "", Some("zoo")),
        line(TypeDefKind::Fn, "f", "", Some("ab")),
    ]);
    let names: Vec<Option<String>> = groups.iter().map(|g| g.namespace.clone()).collect();
    assert_eq!(
        names,
        vec![
            None,
            Some("Abc".to_string()),
            Some("ab".to_string()),
            Some("abc".to_string()),
            Some("zoo".to_string()),
        ]
    );
    assert_eq!(groups[4].defs.len(), 2);
    assert_eq!(groups[4].defs[0].name, "a");
    assert_eq!(groups[4].defs[1].name, "e");
}

#[test]
fn sorting_puts_classes_first_and_keeps_arrival_order_among_equals() {
    let sorted = sort_records(vec![
        line(TypeDefKind::Fn, "b", "1", None),
        line(TypeDefKind::Impl, "Widget", "first", None),
        line(TypeDefKind::Struct, "Widget", "", None),
        line(TypeDefKind::Fn, "a", "2", None),
        line(TypeDefKind::Impl, "Widget", "second", None),
        line(TypeDefKind::Struct, "Able", "", None),
        line(TypeDefKind::Enum, "b", "3", None),
    ]);
    let got: Vec<(TypeDefKind, String, String)> =
        sorted.iter().map(|d| (d.kind, d.name.clone(), d.def.clone())).collect();
    assert_eq!(
        got,
        vec![
            entry(TypeDefKind::Struct, "Able", ""),
            entry(TypeDefKind::Struct, "Widget", ""),
            entry(TypeDefKind::Impl, "Widget", "first"),
            entry(TypeDefKind::Impl, "Widget", "second"),
            entry(TypeDefKind::Fn, "a", "2"),
            entry(TypeDefKind::Fn, "b", "1"),
            entry(TypeDefKind::Enum, "b", "3"),
        ]
    );
}

#[test]
fn sorting_compares_names_by_code_point() {
    let sorted = sort_records(vec![
        line(TypeDefKind::Fn, "b", "", None),
        line(TypeDefKind::Fn, "é", "", None),
        line(TypeDefKind::Fn, "B", "", None),
        line(TypeDefKind::Fn, "", "", None),
        line(TypeDefKind::Fn, "ab", "", None),
        line(TypeDefKind::Fn, "a", "", None),
    ]);
    let names: Vec<&str> = sorted.iter().map(|d| d.name.as_str()).collect();
    assert_eq!(names, vec!["", "B", "a", "ab", "b", "é"]);
}
